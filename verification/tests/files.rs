use bytes::Bytes;
use rust_https_server::config::Config;
use rust_https_server::server::files::{
    before_read, before_remove, before_write, file_response, file_target, listing_response,
    removed_response, written_response, Found, ReadStep, RemoveStep,
};
use rust_https_server::utils::DirectoryEntry;
use rust_https_server::Error;

fn text(bytes: Vec<u8>) -> String {
    String::from_utf8(bytes).unwrap()
}

#[test]
fn the_target_is_sanitized_and_its_extension_checked() {
    let config = Config::default();
    assert_eq!(file_target("/notes.txt", &config).unwrap(), "notes.txt");
    assert_eq!(file_target("a/b/page.HTML", &config).unwrap(), "a/b/page.HTML");
    assert!(matches!(
        file_target("../secret.txt", &config),
        Err(Error::InvalidPath(m)) if m == "Path traversal not allowed"
    ));
    assert!(matches!(
        file_target("tool.exe", &config),
        Err(Error::InvalidPath(m)) if m == "File extension 'exe' not allowed"
    ));
    let mut open = Config::default();
    open.files.allowed_extensions.clear();
    assert_eq!(file_target("tool.exe", &open).unwrap(), "tool.exe");
}

#[test]
fn reading_depends_on_what_is_found() {
    let mut config = Config::default();
    match before_read(Found::Nothing, &config) {
        ReadStep::Respond(r) => assert_eq!(
            text(r.to_bytes()),
            "HTTP/1.1 404 Not Found\r\ncontent-type: text/plain\r\ncontent-length: 14\r\n\r\n\
File not found"
        ),
        _ => panic!("nothing to read"),
    }
    assert!(matches!(before_read(Found::File, &config), ReadStep::Read));
    match before_read(Found::Directory, &config) {
        ReadStep::Respond(r) => {
            assert_eq!(r.status().as_u16(), 404);
            assert_eq!(r.body().unwrap().as_ref(), b"Not a file");
        }
        _ => panic!("listings are off"),
    }
    match before_read(Found::Other, &config) {
        ReadStep::Respond(r) => assert_eq!(r.body().unwrap().as_ref(), b"Not a file"),
        _ => panic!("not a file"),
    }
    config.files.enable_directory_listing = true;
    assert!(matches!(before_read(Found::Directory, &config), ReadStep::List));
    assert!(matches!(before_read(Found::Other, &config), ReadStep::Respond(_)));
}

#[test]
fn a_file_is_served_under_its_media_type() {
    let response = file_response("pics/cat.PNG", Bytes::from(vec![1u8, 2, 3]));
    assert_eq!(
        response.to_bytes(),
        b"HTTP/1.1 200 OK\r\ncontent-type: image/png\r\ncontent-length: 3\r\n\r\n\x01\x02\x03"
    );
    let response = file_response("unknown", Bytes::new());
    assert_eq!(
        response.headers().get("content-type").unwrap().as_str(),
        "application/octet-stream"
    );
}

#[test]
fn a_directory_is_served_as_a_page() {
    let entries = vec![DirectoryEntry {
        name: "a.txt".to_string(),
        is_file: true,
        is_dir: false,
        size: 3,
        modified: None,
    }];
    let response = listing_response("docs", &entries);
    assert_eq!(response.status().as_u16(), 200);
    assert_eq!(response.headers().get("content-type").unwrap().as_str(), "text/html");
    let body = text(response.body().unwrap().to_vec());
    assert!(body.contains("<h1>Directory Listing: docs</h1>"));
    assert!(body.contains("<tr><td><a href=\"a.txt\">a.txt</a></td><td>3 B</td><td>-</td></tr>"));
    assert_eq!(
        response.headers().get("content-length").unwrap().as_str(),
        body.len().to_string()
    );
}

#[test]
fn content_that_is_too_large_is_not_written() {
    let mut config = Config::default();
    config.files.max_file_size = 4;
    assert!(before_write("1234", &config).is_ok());
    assert!(before_write("", &config).is_ok());
    assert!(matches!(before_write("12345", &config), Err(Error::ContentTooLarge(5))));
    assert!(matches!(before_write("caf\u{e9}s", &config), Err(Error::ContentTooLarge(6))));
    assert_eq!(
        text(written_response().to_bytes()),
        "HTTP/1.1 201 Created\r\ncontent-type: text/plain\r\ncontent-length: 25\r\n\r\n\
File created successfully"
    );
}

#[test]
fn only_a_file_is_removed() {
    assert!(matches!(before_remove(Found::File), RemoveStep::Remove));
    match before_remove(Found::Nothing) {
        RemoveStep::Respond(r) => {
            assert_eq!(r.status().as_u16(), 404);
            assert_eq!(r.body().unwrap().as_ref(), b"File not found");
        }
        _ => panic!("nothing to remove"),
    }
    for found in [Found::Directory, Found::Other] {
        match before_remove(found) {
            RemoveStep::Respond(r) => {
                assert_eq!(r.status().as_u16(), 400);
                assert_eq!(r.body().unwrap().as_ref(), b"Not a file");
            }
            _ => panic!("not a file"),
        }
    }
    assert_eq!(removed_response().status().as_u16(), 200);
    assert_eq!(removed_response().body().unwrap().as_ref(), b"File deleted successfully");
}
