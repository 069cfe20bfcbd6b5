//! What is written is read back: the header block of a response, framed
//! again, gives the headers of the response.

use crate::http::headers::{
    is_header_name, is_header_value, is_name_char, is_visible, is_visible_char, valid_headers,
};
use crate::http::pairs::{distinct, lemma_index_of_is, put, Pairs};
use crate::http::request::declared_length;
use crate::http::headers::lemma_decimal_is_visible;
use crate::http::pairs::value_of;
use crate::http::response::{
    body_len, header_line, header_lines, length_agrees, ResponseView,
};
use crate::text::lemma_decimal_round_trip;
use crate::server::framing::{
    after_first_line, all_utf8, first_line, has_line, head_lines, head_size, header_of,
    headers_of, is_blank, lemma_newline_at_is, line_text, newline_at,
};
use crate::text::{
    ascii_lower, is_white_space, lemma_position, position, strip_trailing, trim, trim_start,
};
use vstd::prelude::*;
use vstd::utf8::{
    encode_utf8, encode_utf8_decode_utf8, encode_utf8_valid_utf8, is_ascii_chars,
    is_ascii_chars_encode_utf8, valid_utf8,
};

verus! {

/// Text that neither begins nor ends with white space.
pub open spec fn is_trimmed(s: Seq<char>) -> bool {
    s.len() == 0 || (!is_white_space(s[0]) && !is_white_space(s.last()))
}

/// Headers that are written as they are held: every value is visible text
/// that neither begins nor ends with white space.
pub open spec fn written_as_held(headers: Pairs) -> bool {
    forall|i: int|
        0 <= i < headers.len() ==> is_visible((#[trigger] headers[i]).1) && is_trimmed(
            headers[i].1,
        )
}

/// A header line without its line feed.
pub open spec fn line_content(name: Seq<char>, value: Seq<char>) -> Seq<char> {
    name + seq![':', ' '] + value + seq!['\r']
}

/// The header lines of `headers` as framing finds them: each without its
/// line feed, in UTF-8.
pub open spec fn framed_lines(headers: Pairs) -> Seq<Seq<u8>> {
    Seq::new(headers.len(), |i: int| encode_utf8(line_content(headers[i].0, headers[i].1)))
}

proof fn lemma_trimmed(s: Seq<char>)
    requires
        is_trimmed(s),
    ensures
        trim(s) == s,
{
}

proof fn lemma_trim_after_space(s: Seq<char>)
    requires
        is_trimmed(s),
    ensures
        trim(seq![' '] + s) == s,
{
    let t = seq![' '] + s;
    assert(t.drop_first() =~= s);
    assert(trim_start(t) == trim_start(s));
}

proof fn lemma_strip_trailing_one(t: Seq<char>, c: char)
    requires
        t.len() == 0 || t.last() != c,
    ensures
        strip_trailing(t + seq![c], c) == t,
{
    let u = t + seq![c];
    assert(u.last() == c);
    assert(u.drop_last() =~= t);
    assert(strip_trailing(t, c) == t);
}

proof fn lemma_name_chars(name: Seq<char>)
    requires
        is_header_name(name),
    ensures
        !name.contains(':'),
        !name.contains('\n'),
        is_ascii_chars(name),
        is_trimmed(name),
        ascii_lower(name) == name,
{
    assert(ascii_lower(name) =~= name);
    assert(!is_white_space(name[0]));
    assert(!is_white_space(name.last()));
}

/// A written header line reads back as the header it was written for.
pub proof fn lemma_line_reads_back(name: Seq<char>, value: Seq<char>)
    requires
        is_header_name(name),
        is_header_value(value),
        is_visible(value),
        is_trimmed(value),
    ensures
        header_of(strip_trailing(line_content(name, value), '\r')) == Some((name, value)),
{
    let t = name + seq![':', ' '] + value;
    assert(line_content(name, value) =~= t + seq!['\r']);
    assert(t.last() != '\r') by {
        if value.len() > 0 {
            assert(t.last() == value.last());
        } else {
            assert(t.last() == ' ');
        }
    }
    lemma_strip_trailing_one(t, '\r');
    lemma_name_chars(name);
    lemma_position(t, ':');
    let colon = position(t, ':');
    assert(colon == name.len()) by {
        assert(t[name.len() as int] == ':');
        if colon < name.len() {
            assert(t[colon] == name[colon]);
            assert(name.contains(':'));
        }
    }
    assert(t.subrange(0, colon) =~= name);
    assert(t.subrange(colon + 1, t.len() as int) =~= seq![' '] + value);
    lemma_trimmed(name);
    lemma_trim_after_space(value);
}

proof fn lemma_line_is_ascii(name: Seq<char>, value: Seq<char>)
    requires
        is_header_name(name),
        is_visible(value),
    ensures
        is_ascii_chars(line_content(name, value)),
        !line_content(name, value).contains('\n'),
        line_content(name, value).contains(':'),
{
    let t = line_content(name, value);
    assert(t[name.len() as int] == ':');
    assert forall|i: int| 0 <= i < t.len() implies '\0' <= #[trigger] t[i] <= '\u{7f}' && t[i]
        != '\n' by {
        let front = name + seq![':', ' '];
        assert(t =~= (front + value) + seq!['\r']);
        if i < name.len() {
            assert(t[i] == name[i]);
            assert(is_name_char(name[i]));
        } else if i < name.len() + 2 {
            assert(t[i] == front[i]);
            assert(t[i] == seq![':', ' '][i - name.len()]);
            assert(t[i] == ':' || t[i] == ' ');
        } else if i < name.len() + 2 + value.len() {
            let k = i - name.len() - 2;
            assert(t[i] == value[k]);
            assert(is_visible_char(value[k]));
        } else {
            assert(t[i] == '\r');
        }
    }
}

/// The UTF-8 form of ASCII text has one byte for each character.
proof fn lemma_ascii_bytes(t: Seq<char>)
    requires
        is_ascii_chars(t),
    ensures
        encode_utf8(t).len() == t.len(),
        forall|i: int| 0 <= i < t.len() ==> #[trigger] encode_utf8(t)[i] == t[i] as u8,
{
    is_ascii_chars_encode_utf8(t);
}

proof fn lemma_ascii_concat(a: Seq<char>, b: Seq<char>)
    requires
        is_ascii_chars(a),
        is_ascii_chars(b),
    ensures
        is_ascii_chars(a + b),
        encode_utf8(a + b) == encode_utf8(a) + encode_utf8(b),
{
    let c = a + b;
    assert forall|i: int| 0 <= i < c.len() implies '\0' <= #[trigger] c[i] <= '\u{7f}' by {
        if i < a.len() {
            assert(c[i] == a[i]);
        } else {
            assert(c[i] == b[i - a.len()]);
        }
    }
    lemma_ascii_bytes(a);
    lemma_ascii_bytes(b);
    lemma_ascii_bytes(c);
    assert(encode_utf8(c) =~= encode_utf8(a) + encode_utf8(b));
}

/// The header lines, from the first one on.
proof fn lemma_header_lines_from_front(headers: Pairs)
    requires
        headers.len() > 0,
    ensures
        header_lines(headers) == header_line(headers[0].0, headers[0].1) + header_lines(
            headers.drop_first(),
        ),
    decreases headers.len(),
{
    let first = header_line(headers[0].0, headers[0].1);
    if headers.len() == 1 {
        assert(headers.drop_last() =~= Pairs::empty());
        assert(headers.drop_first() =~= Pairs::empty());
        assert(header_lines(headers) =~= first + header_lines(headers.drop_first()));
    } else {
        let init = headers.drop_last();
        let last = header_line(headers.last().0, headers.last().1);
        lemma_header_lines_from_front(init);
        assert(init[0] == headers[0]);
        assert(init.drop_first() =~= headers.drop_first().drop_last());
        assert(headers.drop_first().last() == headers.last());
        assert(header_lines(headers) =~= first + header_lines(headers.drop_first()));
    }
}

proof fn lemma_header_lines_ascii(headers: Pairs)
    requires
        valid_headers(headers),
        written_as_held(headers),
    ensures
        is_ascii_chars(header_lines(headers)),
    decreases headers.len(),
{
    reveal_strlit(": ");
    reveal_strlit("\r\n");
    if headers.len() > 0 {
        let init = headers.drop_last();
        assert forall|i: int| 0 <= i < init.len() implies is_header_name((#[trigger] init[i]).0)
            && is_header_value(init[i].1) && is_visible(init[i].1) && is_trimmed(init[i].1) by {
            assert(init[i] == headers[i]);
        }
        assert(distinct(init)) by {
            assert forall|i: int, j: int| 0 <= i < j < init.len() implies (#[trigger] init[i]).0
                != (#[trigger] init[j]).0 by {
                assert(init[i] == headers[i]);
                assert(init[j] == headers[j]);
            }
        }
        lemma_header_lines_ascii(init);
        let name = headers.last().0;
        let value = headers.last().1;
        lemma_line_is_ascii(name, value);
        assert(header_line(name, value) =~= line_content(name, value) + seq!['\n']);
        lemma_ascii_concat(line_content(name, value), seq!['\n']);
        lemma_ascii_concat(header_lines(init), header_line(name, value));
    }
}

/// Bytes that begin with a line of ASCII text begin with that line.
proof fn lemma_first_line_of(t: Seq<char>, rest: Seq<u8>)
    requires
        is_ascii_chars(t),
        !t.contains('\n'),
    ensures
        ({
            let bytes = encode_utf8(t + seq!['\n']) + rest;
            &&& has_line(bytes)
            &&& newline_at(bytes) == t.len()
            &&& first_line(bytes) == encode_utf8(t)
            &&& after_first_line(bytes) == rest
        }),
{
    let line = t + seq!['\n'];
    let bytes = encode_utf8(line) + rest;
    lemma_ascii_concat(t, seq!['\n']);
    lemma_ascii_bytes(t);
    lemma_ascii_bytes(line);
    assert forall|k: int| 0 <= k < t.len() implies bytes[k] != 10 by {
        assert(bytes[k] == encode_utf8(line)[k]);
        assert(line[k] == t[k]);
        assert(t.contains(t[k]));
    }
    assert(bytes[t.len() as int] == 10) by {
        assert(bytes[t.len() as int] == encode_utf8(line)[t.len() as int]);
        assert(line[t.len() as int] == '\n');
    }
    lemma_newline_at_is(bytes, t.len() as int);
    assert(first_line(bytes) =~= encode_utf8(t));
    assert(after_first_line(bytes) =~= rest);
}

proof fn lemma_headers_tail(headers: Pairs)
    requires
        headers.len() > 0,
        valid_headers(headers),
        written_as_held(headers),
    ensures
        valid_headers(headers.drop_first()),
        written_as_held(headers.drop_first()),
        valid_headers(headers.drop_last()),
        written_as_held(headers.drop_last()),
{
    let tail = headers.drop_first();
    let init = headers.drop_last();
    assert forall|i: int| 0 <= i < tail.len() implies is_header_name((#[trigger] tail[i]).0)
        && is_header_value(tail[i].1) && is_visible(tail[i].1) && is_trimmed(tail[i].1) by {
        assert(tail[i] == headers[i + 1]);
    }
    assert forall|i: int, j: int| 0 <= i < j < tail.len() implies (#[trigger] tail[i]).0 != (
    #[trigger] tail[j]).0 by {
        assert(tail[i] == headers[i + 1]);
        assert(tail[j] == headers[j + 1]);
    }
    assert forall|i: int| 0 <= i < init.len() implies is_header_name((#[trigger] init[i]).0)
        && is_header_value(init[i].1) && is_visible(init[i].1) && is_trimmed(init[i].1) by {
        assert(init[i] == headers[i]);
    }
    assert forall|i: int, j: int| 0 <= i < j < init.len() implies (#[trigger] init[i]).0 != (
    #[trigger] init[j]).0 by {
        assert(init[i] == headers[i]);
        assert(init[j] == headers[j]);
    }
}

/// Framing a written header block finds its lines, and all of the block.
proof fn lemma_block_is_framed(headers: Pairs, rest: Seq<u8>)
    requires
        valid_headers(headers),
        written_as_held(headers),
    ensures
        ({
            let bytes = encode_utf8(header_lines(headers) + seq!['\r', '\n']) + rest;
            &&& head_lines(bytes) == Some(framed_lines(headers))
            &&& head_size(bytes) == bytes.len() - rest.len()
        }),
    decreases headers.len(),
{
    reveal_strlit(": ");
    reveal_strlit("\r\n");
    let end = seq!['\r', '\n'];
    let bytes = encode_utf8(header_lines(headers) + end) + rest;
    lemma_header_lines_ascii(headers);
    lemma_ascii_concat(header_lines(headers), end);
    if headers.len() == 0 {
        assert(header_lines(headers) + end =~= seq!['\r'] + seq!['\n']);
        lemma_first_line_of(seq!['\r'], rest);
        lemma_ascii_bytes(seq!['\r']);
        assert(is_blank(first_line(bytes)));
        assert(framed_lines(headers) =~= Seq::<Seq<u8>>::empty());
        lemma_ascii_bytes(end);
    } else {
        let name = headers[0].0;
        let value = headers[0].1;
        let content = line_content(name, value);
        let tail = headers.drop_first();
        lemma_headers_tail(headers);
        lemma_header_lines_from_front(headers);
        lemma_line_is_ascii(name, value);
        lemma_header_lines_ascii(tail);
        assert(header_line(name, value) =~= content + seq!['\n']);
        let later_text = header_lines(tail) + end;
        lemma_ascii_concat(header_lines(tail), end);
        lemma_ascii_concat(content, seq!['\n']);
        lemma_ascii_concat(content + seq!['\n'], later_text);
        assert(header_lines(headers) + end =~= (content + seq!['\n']) + later_text);
        let later = encode_utf8(later_text) + rest;
        assert(bytes =~= encode_utf8(content + seq!['\n']) + later);
        lemma_first_line_of(content, later);
        lemma_ascii_bytes(content);
        assert(!is_blank(first_line(bytes))) by {
            let i = name.len() as int;
            assert(content[i] == ':');
            assert(first_line(bytes)[i] == 58);
        }
        lemma_block_is_framed(tail, rest);
        assert(framed_lines(headers) =~= seq![encode_utf8(content)] + framed_lines(tail));
        lemma_ascii_bytes(content + seq!['\n']);
        lemma_ascii_bytes(later_text);
        lemma_ascii_bytes(header_lines(headers) + end);
    }
}

/// The lines of a written header block set the headers that were written.
proof fn lemma_lines_set_headers(headers: Pairs)
    requires
        valid_headers(headers),
        written_as_held(headers),
    ensures
        all_utf8(framed_lines(headers)),
        headers_of(framed_lines(headers)) == headers,
    decreases headers.len(),
{
    let lines = framed_lines(headers);
    assert forall|i: int| 0 <= i < lines.len() implies valid_utf8(#[trigger] lines[i]) by {
        encode_utf8_valid_utf8(line_content(headers[i].0, headers[i].1));
    }
    if headers.len() == 0 {
        assert(headers =~= Pairs::empty());
    } else {
        let init = headers.drop_last();
        let name = headers.last().0;
        let value = headers.last().1;
        lemma_headers_tail(headers);
        lemma_lines_set_headers(init);
        assert(lines.drop_last() =~= framed_lines(init));
        assert(lines.last() == encode_utf8(line_content(name, value)));
        encode_utf8_decode_utf8(line_content(name, value));
        assert(line_text(lines.last()) == strip_trailing(line_content(name, value), '\r'));
        lemma_line_reads_back(name, value);
        assert forall|k: int| 0 <= k < init.len() implies (#[trigger] init[k]).0 != name by {
            assert(init[k] == headers[k]);
        }
        lemma_index_of_is(init, name, init.len() as int);
        assert(put(init, name, value) =~= headers);
    }
}

/// Round trip: the header block of a response, followed by anything, is
/// framed as a complete head whose lines set exactly the headers that were
/// written, so that the same body length is declared on both sides. This
/// holds of headers that are written as they are held.
pub proof fn lemma_header_block_round_trip(headers: Pairs, rest: Seq<u8>)
    requires
        valid_headers(headers),
        written_as_held(headers),
    ensures
        ({
            let bytes = encode_utf8(header_lines(headers) + "\r\n"@) + rest;
            &&& head_lines(bytes) is Some
            &&& all_utf8(head_lines(bytes)->Some_0)
            &&& headers_of(head_lines(bytes)->Some_0) == headers
            &&& declared_length(headers_of(head_lines(bytes)->Some_0)) == declared_length(headers)
            &&& head_size(bytes) == bytes.len() - rest.len()
        }),
{
    reveal_strlit("\r\n");
    assert("\r\n"@ =~= seq!['\r', '\n']);
    lemma_block_is_framed(headers, rest);
    lemma_lines_set_headers(headers);
}

/// Round trip of a response that declares its length: framed again, its
/// header block and body give the headers of the response, the length of
/// its body as the declared length, and its body as what follows the head.
pub proof fn lemma_response_reads_back(r: ResponseView)
    requires
        valid_headers(r.headers),
        written_as_held(r.headers),
        length_agrees(r.headers, r.body),
        value_of(r.headers, "content-length"@) is Some,
        body_len(r.body) <= usize::MAX,
    ensures
        ({
            let body = match r.body {
                Some(bytes) => bytes,
                None => Seq::empty(),
            };
            let bytes = encode_utf8(header_lines(r.headers) + "\r\n"@) + body;
            &&& head_lines(bytes) is Some
            &&& headers_of(head_lines(bytes)->Some_0) == r.headers
            &&& declared_length(headers_of(head_lines(bytes)->Some_0)) == Some(
                body_len(r.body) as usize,
            )
            &&& bytes.subrange(head_size(bytes), bytes.len() as int) == body
        }),
{
    let body = match r.body {
        Some(bytes) => bytes,
        None => Seq::empty(),
    };
    let bytes = encode_utf8(header_lines(r.headers) + "\r\n"@) + body;
    lemma_header_block_round_trip(r.headers, body);
    lemma_decimal_is_visible(body_len(r.body));
    lemma_decimal_round_trip(body_len(r.body));
    assert(bytes.subrange(head_size(bytes), bytes.len() as int) =~= body);
}

} // verus!
