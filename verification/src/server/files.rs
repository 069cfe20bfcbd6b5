//! Serving stored files: what is decided before and after each access to
//! the file system. The caller performs the accesses.

use crate::bindings::bytes_content;
use crate::config::Config;
use crate::error::Error;
use crate::http::headers::is_header_value;
use crate::http::pairs::{put, Pairs};
use crate::http::response::{empty_reply, text_reply, with_body, Response, ResponseView};
use crate::text::{ascii_lower, strip_leading, texts};
use crate::utils::{
    extension_allowed, extension_or_empty, generate_directory_listing, get_mime_type,
    listing_page, media_type, not_allowed_message, path_fault, sanitize_path,
    validate_file_extension, DirectoryEntry,
};
use crate::bindings::{bytes_copy, lowercase};
use vstd::prelude::*;
use vstd::utf8::encode_utf8;

verus! {

/// What the file system holds under a path.
#[derive(Debug, Clone, Copy, PartialEq, Eq, Structural)]
pub enum Found {
    Nothing,
    File,
    Directory,
    Other,
}

/// The path below the served directory that a request for `filename` is
/// about: the name without leading `/`. A name with `..` or a backslash,
/// or with an extension that is not allowed, is an `InvalidPath`.
pub fn file_target(filename: &str, config: &Config) -> (r: Result<String, Error>)
    ensures
        ({
            let relative = strip_leading(filename@, '/');
            let allowed = texts(config.files.allowed_extensions@);
            match path_fault(relative) {
                Some(message) => r is Err && r->Err_0 is InvalidPath && r->Err_0->InvalidPath_0@
                    == message,
                None => if extension_allowed(relative, allowed) {
                    r is Ok && r->Ok_0@ == relative
                } else {
                    r is Err && r->Err_0 is InvalidPath && r->Err_0->InvalidPath_0@
                        == not_allowed_message(lowercase(extension_or_empty(relative)))
                },
            }
        }),
{
    let relative = match sanitize_path(filename) {
        Ok(relative) => relative,
        Err(e) => {
            return Err(e);
        },
    };
    match validate_file_extension(relative.as_str(), config.files.allowed_extensions.as_slice()) {
        Ok(()) => Ok(relative),
        Err(e) => Err(e),
    }
}

/// What reading a file takes next.
pub enum ReadStep {
    /// Nothing more: this is the response.
    Respond(Response),
    /// Read the file, then `file_response`.
    Read,
    /// Read the directory, then `listing_response`.
    List,
}

/// Decides how a request to read is answered, once it is known what the
/// path holds: a file is read, a directory is listed where listings are
/// enabled, and anything else is not found.
pub fn before_read(found: Found, config: &Config) -> (step: ReadStep)
    ensures
        match found {
            Found::Nothing => step is Respond && step->Respond_0@ == text_reply(
                404,
                "File not found"@,
            ),
            Found::File => step is Read,
            Found::Directory => if config.files.enable_directory_listing {
                step is List
            } else {
                step is Respond && step->Respond_0@ == text_reply(404, "Not a file"@)
            },
            Found::Other => step is Respond && step->Respond_0@ == text_reply(
                404,
                "Not a file"@,
            ),
        },
{
    match found {
        Found::Nothing => ReadStep::Respond(Response::not_found().with_text("File not found")),
        Found::File => ReadStep::Read,
        Found::Directory => {
            if config.files.enable_directory_listing {
                ReadStep::List
            } else {
                ReadStep::Respond(Response::not_found().with_text("Not a file"))
            }
        },
        Found::Other => ReadStep::Respond(Response::not_found().with_text("Not a file")),
    }
}

/// A response with a body of the given content type.
pub open spec fn typed_reply(kind: Seq<char>, body: Seq<u8>) -> ResponseView {
    with_body(
        ResponseView { headers: put(Pairs::empty(), "content-type"@, kind), ..empty_reply(200) },
        body,
    )
}

proof fn lemma_media_types_are_values(ext: Seq<char>)
    ensures
        is_header_value(media_type(ext)),
{
    reveal_strlit("text/html");
    reveal_strlit("text/css");
    reveal_strlit("application/javascript");
    reveal_strlit("application/json");
    reveal_strlit("application/xml");
    reveal_strlit("text/plain");
    reveal_strlit("application/pdf");
    reveal_strlit("image/jpeg");
    reveal_strlit("image/png");
    reveal_strlit("image/gif");
    reveal_strlit("image/svg+xml");
    reveal_strlit("image/x-icon");
    reveal_strlit("font/woff");
    reveal_strlit("font/woff2");
    reveal_strlit("font/ttf");
    reveal_strlit("application/vnd.ms-fontobject");
    reveal_strlit("video/mp4");
    reveal_strlit("video/webm");
    reveal_strlit("audio/mpeg");
    reveal_strlit("audio/wav");
    reveal_strlit("application/zip");
    reveal_strlit("application/x-tar");
    reveal_strlit("application/gzip");
    reveal_strlit("application/octet-stream");
}

/// The response that serves a file: its content, under the media type of
/// its extension.
pub fn file_response(path: &str, content: bytes::Bytes) -> (r: Response)
    ensures
        r@ == typed_reply(
            media_type(ascii_lower(extension_or_empty(path@))),
            bytes_content(content),
        ),
{
    proof {
        lemma_media_types_are_values(ascii_lower(extension_or_empty(path@)));
    }
    Response::ok().with_content_type(get_mime_type(path)).with_body(content)
}

/// The response that lists a directory.
pub fn listing_response(path: &str, entries: &[DirectoryEntry]) -> (r: Response)
    ensures
        r@ == typed_reply("text/html"@, encode_utf8(listing_page(path@, entries@))),
{
    proof {
        reveal_strlit("text/html");
    }
    let html = generate_directory_listing(path, entries);
    Response::ok().with_content_type("text/html").with_body(bytes_copy(html.as_str().as_bytes()))
}

/// Decides whether content may be written: content longer than the largest
/// file allowed is `ContentTooLarge`, with its length in bytes.
pub fn before_write(content: &str, config: &Config) -> (r: Result<(), Error>)
    ensures
        if encode_utf8(content@).len() > config.files.max_file_size {
            r is Err && r->Err_0 is ContentTooLarge && r->Err_0->ContentTooLarge_0
                == encode_utf8(content@).len()
        } else {
            r is Ok
        },
{
    let size = content.as_bytes().len();
    if size > config.files.max_file_size {
        Err(Error::ContentTooLarge(size))
    } else {
        Ok(())
    }
}

/// The response to a file that was written.
pub fn written_response() -> (r: Response)
    ensures
        r@ == text_reply(201, "File created successfully"@),
{
    Response::created().with_text("File created successfully")
}

/// What removing a file takes next.
pub enum RemoveStep {
    /// Nothing more: this is the response.
    Respond(Response),
    /// Remove the file, then `removed_response`.
    Remove,
}

/// Decides how a request to remove is answered, once it is known what the
/// path holds: only a file is removed.
pub fn before_remove(found: Found) -> (step: RemoveStep)
    ensures
        match found {
            Found::Nothing => step is Respond && step->Respond_0@ == text_reply(
                404,
                "File not found"@,
            ),
            Found::File => step is Remove,
            _ => step is Respond && step->Respond_0@ == text_reply(400, "Not a file"@),
        },
{
    match found {
        Found::Nothing => RemoveStep::Respond(Response::not_found().with_text("File not found")),
        Found::File => RemoveStep::Remove,
        _ => RemoveStep::Respond(Response::bad_request().with_text("Not a file")),
    }
}

/// The response to a file that was removed.
pub fn removed_response() -> (r: Response)
    ensures
        r@ == text_reply(200, "File deleted successfully"@),
{
    Response::ok().with_text("File deleted successfully")
}

} // verus!
