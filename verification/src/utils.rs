//! Helpers for serving files: paths, extensions and media types.

use crate::bindings::{
    format_timestamp, lowercase, percent_decode, percent_decoded, timestamp_text, to_lowercase,
};
use crate::error::Error;
use crate::http::pairs::{put, Pairs};
use crate::http::params::Params;
use crate::text::{
    ascii_lower, chars_of, contains, decimal, digit, find, lemma_position, occurs_in, position,
    push_decimal, same, spells, split, split_at_each, string_of, strip_leading, texts,
    to_ascii_lower, without_leading,
};
use vstd::prelude::*;
use vstd::string::StringExecFns;

verus! {

/// The position of the last `c` in `s`, or -1 if there is none.
pub open spec fn last_position(s: Seq<char>, c: char) -> int
    decreases s.len(),
{
    if s.len() == 0 {
        -1
    } else if s.last() == c {
        s.len() - 1
    } else {
        last_position(s.drop_last(), c)
    }
}

/// `last_position` is the last place of `c`, if `s` holds one.
pub proof fn lemma_last_position(s: Seq<char>, c: char)
    ensures
        -1 <= last_position(s, c) < s.len(),
        last_position(s, c) >= 0 ==> s[last_position(s, c)] == c,
        forall|k: int| last_position(s, c) < k < s.len() ==> s[k] != c,
    decreases s.len(),
{
    if s.len() > 0 && s.last() != c {
        let rest = s.drop_last();
        lemma_last_position(rest, c);
        assert forall|k: int| last_position(s, c) < k < s.len() implies s[k] != c by {
            if k < rest.len() {
                assert(s[k] == rest[k]);
            }
        }
    }
}

fn find_last(s: &[char], c: char) -> (r: Option<usize>)
    ensures
        match r {
            Some(i) => i < s@.len() && i == last_position(s@, c),
            None => last_position(s@, c) == -1,
        },
{
    let mut end: usize = s.len();
    assert(s@.subrange(0, s@.len() as int) =~= s@);
    while end > 0
        invariant
            end <= s@.len(),
            last_position(s@, c) == last_position(s@.subrange(0, end as int), c),
        decreases end,
    {
        if s[end - 1] == c {
            return Some(end - 1);
        }
        assert(s@.subrange(0, end as int).drop_last() =~= s@.subrange(0, end - 1));
        end -= 1;
    }
    None
}

/// The final component of a path: what follows the last `/`, where trailing
/// `/` and components `.` are passed over. A path that ends in `..` has
/// none, nor has one without components.
pub open spec fn file_name(path: Seq<char>) -> Option<Seq<char>>
    decreases path.len(),
{
    if path.len() == 0 {
        None
    } else if path.last() == '/' {
        file_name(path.drop_last())
    } else {
        let start = last_position(path, '/') + 1;
        let name = path.subrange(start, path.len() as int);
        if name == seq!['.'] {
            proof {
                lemma_last_position(path, '/');
            }
            file_name(path.subrange(0, start))
        } else if name == seq!['.', '.'] {
            None
        } else {
            Some(name)
        }
    }
}

/// The extension of a path: what follows the last `.` of its file name. A
/// file name without a `.`, or with its only `.` in front, has none.
pub open spec fn extension(path: Seq<char>) -> Option<Seq<char>> {
    match file_name(path) {
        Some(name) => {
            let dot = last_position(name, '.');
            if dot <= 0 {
                None
            } else {
                Some(name.subrange(dot + 1, name.len() as int))
            }
        },
        None => None,
    }
}

/// The extension of a path, or the empty text where it has none.
pub open spec fn extension_or_empty(path: Seq<char>) -> Seq<char> {
    match extension(path) {
        Some(e) => e,
        None => Seq::empty(),
    }
}

fn file_name_of(path: &[char]) -> (r: Option<&[char]>)
    ensures
        match r {
            Some(name) => file_name(path@) == Some(name@),
            None => file_name(path@) is None,
        },
{
    let mut end: usize = path.len();
    assert(path@.subrange(0, path@.len() as int) =~= path@);
    while end > 0
        invariant
            end <= path@.len(),
            file_name(path@) == file_name(path@.subrange(0, end as int)),
        decreases end,
    {
        let ghost head = path@.subrange(0, end as int);
        if path[end - 1] == '/' {
            assert(head.drop_last() =~= path@.subrange(0, end - 1));
            end -= 1;
        } else {
            let start: usize = match find_last(&path[0..end], '/') {
                Some(i) => i + 1,
                None => 0,
            };
            proof {
                lemma_last_position(head, '/');
            }
            let name = &path[start..end];
            assert(name@ =~= head.subrange(start as int, head.len() as int));
            if name.len() == 1 && name[0] == '.' {
                assert(name@ =~= seq!['.']);
                assert(head.subrange(0, start as int) =~= path@.subrange(0, start as int));
                end = start;
            } else if name.len() == 2 && name[0] == '.' && name[1] == '.' {
                assert(name@ =~= seq!['.', '.']);
                return None;
            } else {
                assert(name@ != seq!['.']) by {
                    if name@.len() == 1 {
                        assert(name@[0] != '.');
                    }
                }
                assert(name@ != seq!['.', '.']) by {
                    if name@.len() == 2 {
                        assert(name@[0] != '.' || name@[1] != '.');
                    }
                }
                return Some(name);
            }
        }
    }
    None
}

fn extension_of(path: &[char]) -> (r: Option<&[char]>)
    ensures
        match r {
            Some(e) => extension(path@) == Some(e@),
            None => extension(path@) is None,
        },
{
    match file_name_of(path) {
        Some(name) => match find_last(name, '.') {
            Some(dot) => {
                proof {
                    lemma_last_position(name@, '.');
                }
                let end = name.len();
                if dot == 0 {
                    None
                } else {
                    Some(&name[dot + 1..end])
                }
            },
            None => None,
        },
        None => None,
    }
}

/// The media type for a file extension written in lower case.
pub open spec fn media_type(ext: Seq<char>) -> Seq<char> {
    if ext == "html"@ || ext == "htm"@ {
        "text/html"@
    } else if ext == "css"@ {
        "text/css"@
    } else if ext == "js"@ {
        "application/javascript"@
    } else if ext == "json"@ {
        "application/json"@
    } else if ext == "xml"@ {
        "application/xml"@
    } else if ext == "txt"@ {
        "text/plain"@
    } else if ext == "pdf"@ {
        "application/pdf"@
    } else if ext == "jpg"@ || ext == "jpeg"@ {
        "image/jpeg"@
    } else if ext == "png"@ {
        "image/png"@
    } else if ext == "gif"@ {
        "image/gif"@
    } else if ext == "svg"@ {
        "image/svg+xml"@
    } else if ext == "ico"@ {
        "image/x-icon"@
    } else if ext == "woff"@ {
        "font/woff"@
    } else if ext == "woff2"@ {
        "font/woff2"@
    } else if ext == "ttf"@ {
        "font/ttf"@
    } else if ext == "eot"@ {
        "application/vnd.ms-fontobject"@
    } else if ext == "mp4"@ {
        "video/mp4"@
    } else if ext == "webm"@ {
        "video/webm"@
    } else if ext == "mp3"@ {
        "audio/mpeg"@
    } else if ext == "wav"@ {
        "audio/wav"@
    } else if ext == "zip"@ {
        "application/zip"@
    } else if ext == "tar"@ {
        "application/x-tar"@
    } else if ext == "gz"@ {
        "application/gzip"@
    } else {
        "application/octet-stream"@
    }
}

/// The media type of a file, by the extension of its path without regard to
/// the case of ASCII letters; `application/octet-stream` for an extension
/// that is not known, or none.
pub fn get_mime_type(path: &str) -> (mime: &'static str)
    ensures
        mime@ == media_type(ascii_lower(extension_or_empty(path@))),
{
    let chars = chars_of(path);
    let lower: Vec<char> = match extension_of(chars.as_slice()) {
        Some(e) => to_ascii_lower(e),
        None => {
            assert(ascii_lower(Seq::<char>::empty()) =~= Seq::<char>::empty());
            Vec::new()
        },
    };
    let ext = lower.as_slice();
    if spells(ext, "html") || spells(ext, "htm") {
        "text/html"
    } else if spells(ext, "css") {
        "text/css"
    } else if spells(ext, "js") {
        "application/javascript"
    } else if spells(ext, "json") {
        "application/json"
    } else if spells(ext, "xml") {
        "application/xml"
    } else if spells(ext, "txt") {
        "text/plain"
    } else if spells(ext, "pdf") {
        "application/pdf"
    } else if spells(ext, "jpg") || spells(ext, "jpeg") {
        "image/jpeg"
    } else if spells(ext, "png") {
        "image/png"
    } else if spells(ext, "gif") {
        "image/gif"
    } else if spells(ext, "svg") {
        "image/svg+xml"
    } else if spells(ext, "ico") {
        "image/x-icon"
    } else if spells(ext, "woff") {
        "font/woff"
    } else if spells(ext, "woff2") {
        "font/woff2"
    } else if spells(ext, "ttf") {
        "font/ttf"
    } else if spells(ext, "eot") {
        "application/vnd.ms-fontobject"
    } else if spells(ext, "mp4") {
        "video/mp4"
    } else if spells(ext, "webm") {
        "video/webm"
    } else if spells(ext, "mp3") {
        "audio/mpeg"
    } else if spells(ext, "wav") {
        "audio/wav"
    } else if spells(ext, "zip") {
        "application/zip"
    } else if spells(ext, "tar") {
        "application/x-tar"
    } else if spells(ext, "gz") {
        "application/gzip"
    } else {
        "application/octet-stream"
    }
}

/// Whether a path, its leading `/` removed, may name a file to serve, and
/// the message that tells why not.
pub open spec fn path_fault(relative: Seq<char>) -> Option<Seq<char>> {
    if occurs_in(seq!['.', '.'], relative) {
        Some("Path traversal not allowed"@)
    } else if relative.contains('\\') {
        Some("Invalid path separator"@)
    } else {
        None
    }
}

fn dots() -> (v: Vec<char>)
    ensures
        v@ == seq!['.', '.'],
{
    let mut v: Vec<char> = Vec::new();
    v.push('.');
    v.push('.');
    assert(v@ =~= seq!['.', '.']);
    v
}

fn includes(s: &[char], c: char) -> (r: bool)
    ensures
        r == s@.contains(c),
{
    proof {
        lemma_position(s@, c);
    }
    find(s, c).is_some()
}

/// Makes a requested path relative to the served directory: every leading
/// `/` is removed. A path that holds `..` or a backslash is an
/// `InvalidPath`.
pub fn sanitize_path(path: &str) -> (r: Result<String, Error>)
    ensures
        match path_fault(strip_leading(path@, '/')) {
            Some(message) => r is Err && r->Err_0 is InvalidPath && r->Err_0->InvalidPath_0@
                == message,
            None => r is Ok && r->Ok_0@ == strip_leading(path@, '/'),
        },
{
    let chars = chars_of(path);
    let relative = without_leading(chars.as_slice(), '/');
    let pattern = dots();
    if contains(relative, pattern.as_slice()) {
        return Err(Error::InvalidPath("Path traversal not allowed".to_owned()));
    }
    if includes(relative, '\\') {
        return Err(Error::InvalidPath("Invalid path separator".to_owned()));
    }
    Ok(string_of(relative))
}

/// Whether a file may be served by its extension: any file where no
/// extensions are listed, else one whose extension, in lower case, is
/// listed. A file without extension counts as having the empty one.
pub open spec fn extension_allowed(filename: Seq<char>, allowed: Seq<Seq<char>>) -> bool {
    allowed.len() == 0 || allowed.contains(lowercase(extension_or_empty(filename)))
}

/// The message for an extension that is not allowed.
pub open spec fn not_allowed_message(ext: Seq<char>) -> Seq<char> {
    "File extension '"@ + ext + "' not allowed"@
}

/// Checks the extension of a file against the allowed ones.
pub fn validate_file_extension(filename: &str, allowed_extensions: &[String]) -> (r: Result<
    (),
    Error,
>)
    ensures
        if extension_allowed(filename@, texts(allowed_extensions@)) {
            r is Ok
        } else {
            r is Err && r->Err_0 is InvalidPath && r->Err_0->InvalidPath_0@
                == not_allowed_message(lowercase(extension_or_empty(filename@)))
        },
{
    if allowed_extensions.len() == 0 {
        return Ok(());
    }
    let chars = chars_of(filename);
    let ext: String = match extension_of(chars.as_slice()) {
        Some(e) => string_of(e),
        None => String::new(),
    };
    let lower = to_lowercase(ext.as_str());
    let lower_chars = chars_of(lower.as_str());
    let ghost wanted = lowercase(extension_or_empty(filename@));
    let mut i: usize = 0;
    while i < allowed_extensions.len()
        invariant
            i <= allowed_extensions@.len(),
            lower_chars@ == wanted,
            wanted == lowercase(extension_or_empty(filename@)),
            forall|k: int| 0 <= k < i ==> #[trigger] texts(allowed_extensions@)[k] != wanted,
        decreases allowed_extensions@.len() - i,
    {
        let listed = chars_of(allowed_extensions[i].as_str());
        if same(listed.as_slice(), lower_chars.as_slice()) {
            assert(texts(allowed_extensions@)[i as int] == wanted);
            assert(texts(allowed_extensions@).contains(wanted));
            return Ok(());
        }
        i += 1;
    }
    assert(!texts(allowed_extensions@).contains(wanted));
    let mut message = String::new();
    message.append("File extension '");
    message.append(lower.as_str());
    message.append("' not allowed");
    assert(message@ =~= not_allowed_message(wanted));
    Err(Error::InvalidPath(message))
}

/// Whether a path stays inside the served directory: it holds neither `..`
/// nor a backslash, and does not begin with `/`.
pub fn is_safe_path(path: &str) -> (r: bool)
    ensures
        r == (!occurs_in(seq!['.', '.'], path@) && !path@.contains('\\') && !(path@.len() > 0
            && path@[0] == '/')),
{
    let chars = chars_of(path);
    let s = chars.as_slice();
    let pattern = dots();
    !contains(s, pattern.as_slice()) && !includes(s, '\\') && !(s.len() > 0 && s[0] == '/')
}

/// The path without any leading `/`.
pub fn normalize_path(path: &str) -> (r: String)
    ensures
        r@ == strip_leading(path@, '/'),
{
    let chars = chars_of(path);
    string_of(without_leading(chars.as_slice(), '/'))
}

/// `numerator / denominator` rounded to the nearest whole number, a tie to
/// the even one.
pub open spec fn half_even(numerator: nat, denominator: nat) -> nat {
    let quotient = numerator / denominator;
    let rest = numerator % denominator;
    if 2 * rest > denominator || (2 * rest == denominator && quotient % 2 == 1) {
        quotient + 1
    } else {
        quotient
    }
}

/// The distance between neighbouring double-precision numbers at `n`: one
/// below 2^53, and twice as much with each further bit.
pub open spec fn float_step(n: nat) -> nat {
    if n < 0x20_0000_0000_0000 {
        1
    } else if n < 0x40_0000_0000_0000 {
        2
    } else if n < 0x80_0000_0000_0000 {
        4
    } else if n < 0x100_0000_0000_0000 {
        8
    } else if n < 0x200_0000_0000_0000 {
        16
    } else if n < 0x400_0000_0000_0000 {
        32
    } else if n < 0x800_0000_0000_0000 {
        64
    } else if n < 0x1000_0000_0000_0000 {
        128
    } else if n < 0x2000_0000_0000_0000 {
        256
    } else if n < 0x4000_0000_0000_0000 {
        512
    } else if n < 0x8000_0000_0000_0000 {
        1024
    } else {
        2048
    }
}

/// The double-precision number nearest to `n`, a tie to the even one.
pub open spec fn nearest_float(n: nat) -> nat {
    half_even(n, float_step(n)) * float_step(n)
}

/// How many tenths of `unit` the double-precision number nearest to `n`
/// holds, rounded half to even.
pub open spec fn tenths(n: nat, unit: nat) -> nat {
    half_even(nearest_float(n) * 10, unit)
}

/// A size in tenths of a unit, with one decimal place.
pub open spec fn with_one_decimal(tenths: nat, unit_name: Seq<char>) -> Seq<char> {
    decimal(tenths / 10) + seq!['.'] + seq![digit(tenths % 10)] + unit_name
}

/// A file size as people read it: bytes below 1024, else kilobytes,
/// megabytes or gigabytes of 1024 each, with one decimal place.
pub open spec fn file_size_text(bytes: nat) -> Seq<char> {
    if bytes < 1024 {
        decimal(bytes) + " B"@
    } else if bytes < 1048576 {
        with_one_decimal(tenths(bytes, 1024), " KB"@)
    } else if bytes < 1073741824 {
        with_one_decimal(tenths(bytes, 1048576), " MB"@)
    } else {
        with_one_decimal(tenths(bytes, 1073741824), " GB"@)
    }
}

fn round_half_even(numerator: u128, denominator: u128) -> (r: u128)
    requires
        0 < denominator <= 0x4000_0000,
        numerator < 0x1_0000_0000_0000_0000_0000,
    ensures
        r == half_even(numerator as nat, denominator as nat),
        r <= numerator / denominator + 1,
{
    let quotient = numerator / denominator;
    let rest = numerator % denominator;
    if 2 * rest > denominator || (2 * rest == denominator && quotient % 2 == 1) {
        quotient + 1
    } else {
        quotient
    }
}

fn step_of(n: u64) -> (step: u128)
    ensures
        step == float_step(n as nat),
        1 <= step <= 2048,
{
    if n < 0x20_0000_0000_0000 {
        1
    } else if n < 0x40_0000_0000_0000 {
        2
    } else if n < 0x80_0000_0000_0000 {
        4
    } else if n < 0x100_0000_0000_0000 {
        8
    } else if n < 0x200_0000_0000_0000 {
        16
    } else if n < 0x400_0000_0000_0000 {
        32
    } else if n < 0x800_0000_0000_0000 {
        64
    } else if n < 0x1000_0000_0000_0000 {
        128
    } else if n < 0x2000_0000_0000_0000 {
        256
    } else if n < 0x4000_0000_0000_0000 {
        512
    } else if n < 0x8000_0000_0000_0000 {
        1024
    } else {
        2048
    }
}

fn push_scaled(text: &mut String, bytes: u64, unit: u128, unit_name: &str)
    requires
        1024 <= unit <= 0x4000_0000,
    ensures
        final(text)@ == old(text)@ + with_one_decimal(
            tenths(bytes as nat, unit as nat),
            unit_name@,
        ),
{
    let step = step_of(bytes);
    let steps = round_half_even(bytes as u128, step);
    assert(steps * step <= 0x1_0000_0000_0000_1000) by (nonlinear_arith)
        requires
            steps <= (bytes as u128) / step + 1,
            1 <= step <= 2048,
            bytes <= 0xffff_ffff_ffff_ffff,
    ;
    let nearest = steps * step;
    let count = round_half_even(nearest * 10, unit);
    assert(count <= 0xffff_ffff_ffff_ffff) by {
        let n = (nearest * 10) as int;
        let u = unit as int;
        assert(n / u <= n / 1024) by (nonlinear_arith)
            requires
                1024 <= u,
                0 <= n,
        ;
    }
    let ghost before = text@;
    push_decimal(text, (count / 10) as u64);
    text.push('.');
    let last: u8 = (count % 10) as u8;
    text.push((48 + last) as char);
    text.append(unit_name);
    assert(text@ =~= before + with_one_decimal(count as nat, unit_name@));
}

/// A file size as people read it.
pub fn format_file_size(bytes: u64) -> (text: String)
    ensures
        text@ == file_size_text(bytes as nat),
{
    let mut text = String::new();
    if bytes < 1024 {
        push_decimal(&mut text, bytes);
        text.append(" B");
    } else if bytes < 1048576 {
        push_scaled(&mut text, bytes, 1024, " KB");
    } else if bytes < 1073741824 {
        push_scaled(&mut text, bytes, 1048576, " MB");
    } else {
        push_scaled(&mut text, bytes, 1073741824, " GB");
    }
    assert(text@ =~= file_size_text(bytes as nat));
    text
}

/// One entry of a directory, as a listing shows it.
#[derive(Debug, Clone)]
pub struct DirectoryEntry {
    /// The name of the entry within its directory.
    pub name: String,
    /// Whether the entry is a regular file.
    pub is_file: bool,
    /// Whether the entry is a directory.
    pub is_dir: bool,
    /// The size of the entry in bytes.
    pub size: u64,
    /// When the entry was last modified, in seconds since 1970-01-01
    /// 00:00:00 UTC, where that is known.
    pub modified: Option<i64>,
}

/// What a listing begins with, up to the path.
pub open spec fn listing_start() -> Seq<char> {
    "<!DOCTYPE html>\n<html>\n<head>\n"@ + "<title>Directory Listing</title>\n"@ + "<style>\n"@
        + "body { font-family: Arial, sans-serif; margin: 20px; }\n"@
        + "table { border-collapse: collapse; width: 100%; }\n"@
        + "th, td { border: 1px solid #ddd; padding: 8px; text-align: left; }\n"@
        + "th { background-color: #f2f2f2; }\n"@ + "a { text-decoration: none; color: #0066cc; }\n"@
        + "a:hover { text-decoration: underline; }\n"@ + "</style>\n</head>\n<body>\n"@
        + "<h1>Directory Listing: "@
}

/// What stands between the path and the rows.
pub open spec fn listing_middle() -> Seq<char> {
    "</h1>\n"@ + "<table>\n"@ + "<tr><th>Name</th><th>Size</th><th>Modified</th></tr>\n"@
}

/// What a listing ends with.
pub open spec fn listing_end() -> Seq<char> {
    "</table>\n</body>\n</html>"@
}

/// The size column of an entry: the size of a file, a dash for anything
/// else.
pub open spec fn size_cell(entry: DirectoryEntry) -> Seq<char> {
    if entry.is_file {
        file_size_text(entry.size as nat)
    } else {
        "-"@
    }
}

/// The column for the time of modification: the time in UTC, or a dash
/// where it is not known or cannot be written.
pub open spec fn modified_cell(entry: DirectoryEntry) -> Seq<char> {
    match entry.modified {
        Some(seconds) => match timestamp_text(seconds) {
            Some(text) => text,
            None => "-"@,
        },
        None => "-"@,
    }
}

/// The link to an entry; the link to a directory ends with `/`.
pub open spec fn link_cell(entry: DirectoryEntry) -> Seq<char> {
    if entry.is_dir {
        "<a href=\""@ + entry.name@ + "/\">"@ + entry.name@ + "/</a>"@
    } else {
        "<a href=\""@ + entry.name@ + "\">"@ + entry.name@ + "</a>"@
    }
}

/// The table row of an entry.
pub open spec fn listing_row(entry: DirectoryEntry) -> Seq<char> {
    "<tr><td>"@ + link_cell(entry) + "</td><td>"@ + size_cell(entry) + "</td><td>"@
        + modified_cell(entry) + "</td></tr>\n"@
}

/// The rows of the entries, in order.
pub open spec fn listing_rows(entries: Seq<DirectoryEntry>) -> Seq<char>
    decreases entries.len(),
{
    if entries.len() == 0 {
        Seq::empty()
    } else {
        listing_rows(entries.drop_last()) + listing_row(entries.last())
    }
}

/// The page that lists a directory.
pub open spec fn listing_page(path: Seq<char>, entries: Seq<DirectoryEntry>) -> Seq<char> {
    listing_start() + path + listing_middle() + listing_rows(entries) + listing_end()
}

fn push_row(html: &mut String, entry: &DirectoryEntry)
    ensures
        final(html)@ == old(html)@ + listing_row(*entry),
{
    let ghost before = html@;
    html.append("<tr><td>");
    html.append("<a href=\"");
    html.append(entry.name.as_str());
    if entry.is_dir {
        html.append("/\">");
        html.append(entry.name.as_str());
        html.append("/</a>");
    } else {
        html.append("\">");
        html.append(entry.name.as_str());
        html.append("</a>");
    }
    assert(html@ =~= before + "<tr><td>"@ + link_cell(*entry));
    html.append("</td><td>");
    if entry.is_file {
        let size = format_file_size(entry.size);
        html.append(size.as_str());
    } else {
        html.append("-");
    }
    assert(html@ =~= before + "<tr><td>"@ + link_cell(*entry) + "</td><td>"@ + size_cell(*entry));
    html.append("</td><td>");
    let written = match entry.modified {
        Some(seconds) => format_timestamp(seconds),
        None => None,
    };
    match written {
        Some(text) => html.append(text.as_str()),
        None => html.append("-"),
    }
    html.append("</td></tr>\n");
    assert(html@ =~= before + listing_row(*entry));
}

/// Writes the page that lists a directory: a heading with the path, and a
/// table with one row for each entry.
pub fn generate_directory_listing(path: &str, entries: &[DirectoryEntry]) -> (html: String)
    ensures
        html@ == listing_page(path@, entries@),
{
    let mut html = String::new();
    html.append("<!DOCTYPE html>\n<html>\n<head>\n");
    html.append("<title>Directory Listing</title>\n");
    html.append("<style>\n");
    html.append("body { font-family: Arial, sans-serif; margin: 20px; }\n");
    html.append("table { border-collapse: collapse; width: 100%; }\n");
    html.append("th, td { border: 1px solid #ddd; padding: 8px; text-align: left; }\n");
    html.append("th { background-color: #f2f2f2; }\n");
    html.append("a { text-decoration: none; color: #0066cc; }\n");
    html.append("a:hover { text-decoration: underline; }\n");
    html.append("</style>\n</head>\n<body>\n");
    html.append("<h1>Directory Listing: ");
    assert(html@ =~= listing_start());
    html.append(path);
    html.append("</h1>\n");
    html.append("<table>\n");
    html.append("<tr><th>Name</th><th>Size</th><th>Modified</th></tr>\n");
    let ghost top = listing_start() + path@ + listing_middle();
    assert(html@ =~= top);
    let mut i: usize = 0;
    assert(entries@.subrange(0, 0) =~= Seq::<DirectoryEntry>::empty());
    assert(top + listing_rows(entries@.subrange(0, 0)) =~= top);
    while i < entries.len()
        invariant
            i <= entries@.len(),
            html@ == top + listing_rows(entries@.subrange(0, i as int)),
        decreases entries@.len() - i,
    {
        push_row(&mut html, &entries[i]);
        proof {
            let done = entries@.subrange(0, i + 1);
            assert(done.drop_last() =~= entries@.subrange(0, i as int));
            assert(done.last() == entries@[i as int]);
            assert(html@ =~= top + listing_rows(done));
        }
        i += 1;
    }
    assert(entries@.subrange(0, i as int) =~= entries@);
    html.append("</table>\n</body>\n</html>");
    assert(html@ =~= listing_page(path@, entries@));
    html
}

/// Percent-encoded text decoded, or the text itself where it cannot be
/// decoded.
pub open spec fn decoded(text: Seq<char>) -> Seq<char> {
    match percent_decoded(text) {
        Some(plain) => plain,
        None => text,
    }
}

/// The parameter that one piece of a query sets: what stands before its
/// first `=` as the name and what follows as the value, both decoded. A
/// piece without `=` sets none.
pub open spec fn query_pair(piece: Seq<char>) -> Option<(Seq<char>, Seq<char>)> {
    let at = position(piece, '=');
    if at < piece.len() {
        Some((decoded(piece.subrange(0, at)), decoded(piece.subrange(at + 1, piece.len() as int))))
    } else {
        None
    }
}

/// The parameters that the pieces of a query set; of two pieces with the
/// same name the later one counts.
pub open spec fn query_params(pieces: Seq<Seq<char>>) -> Pairs
    decreases pieces.len(),
{
    if pieces.len() == 0 {
        Pairs::empty()
    } else {
        let earlier = query_params(pieces.drop_last());
        match query_pair(pieces.last()) {
            Some(pair) => put(earlier, pair.0, pair.1),
            None => earlier,
        }
    }
}

fn decode_or_keep(text: &[char]) -> (r: String)
    ensures
        r@ == decoded(text@),
{
    let raw = string_of(text);
    match percent_decode(raw.as_str()) {
        Some(plain) => plain,
        None => raw,
    }
}

/// Reads the parameters of a query string: pieces separated by `&`, each a
/// name and a value around its first `=`.
pub fn parse_query_string(query: &str) -> (params: Params)
    ensures
        params@ == query_params(split(query@, '&')),
{
    let chars = chars_of(query);
    let pieces = split_at_each(chars.as_slice(), '&');
    let ghost all = split(query@, '&');
    let mut params = Params::new();
    let mut i: usize = 0;
    assert(all.subrange(0, 0) =~= Seq::<Seq<char>>::empty());
    while i < pieces.len()
        invariant
            i <= pieces@.len(),
            pieces@.len() == all.len(),
            forall|k: int| 0 <= k < pieces@.len() ==> (#[trigger] pieces@[k])@ == all[k],
            params@ == query_params(all.subrange(0, i as int)),
        decreases pieces@.len() - i,
    {
        let piece = pieces[i];
        proof {
            let done = all.subrange(0, i + 1);
            assert(done.drop_last() =~= all.subrange(0, i as int));
            assert(done.last() == piece@);
        }
        match find(piece, '=') {
            Some(at) => {
                let end = piece.len();
                let name = decode_or_keep(&piece[0..at]);
                let value = decode_or_keep(&piece[at + 1..end]);
                params.insert(name, value);
            },
            None => {},
        }
        i += 1;
    }
    assert(all.subrange(0, i as int) =~= all);
    params
}

} // verus!
