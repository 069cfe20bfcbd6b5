use rust_https_server::http::{Method, Version};
use rust_https_server::server::framing::{parse_header_line, parse_request, parse_request_line};
use rust_https_server::Error;

fn chars(text: &str) -> Vec<char> {
    text.chars().collect()
}

#[test]
fn a_request_without_body_is_framed_at_the_blank_line() {
    let request = parse_request(b"GET /echo/hello HTTP/1.1\r\n\r\n").unwrap().unwrap();
    assert_eq!(request.method, Method::GET);
    assert_eq!(request.path(), "/echo/hello");
    assert_eq!(request.query(), None);
    assert_eq!(request.version, Version::HTTP_11);
    assert_eq!(request.headers.len(), 0);
    assert!(request.body.is_none());
    assert_eq!(request.params.len(), 0);
}

#[test]
fn nothing_is_framed_before_the_blank_line() {
    assert!(parse_request(b"").unwrap().is_none());
    assert!(parse_request(b"GET / HTTP/1.1").unwrap().is_none());
    assert!(parse_request(b"GET / HTTP/1.1\r\n").unwrap().is_none());
    assert!(parse_request(b"GET / HTTP/1.1\r\nHost: x\r\n").unwrap().is_none());
    assert!(parse_request(b"GET / HTTP/1.1\r\nHost: x\r\n\r").unwrap().is_none());
    assert!(parse_request(b"not a request at all").unwrap().is_none());
    assert!(parse_request(b"\xff\xfe\r\nHost").unwrap().is_none());
}

#[test]
fn a_declared_body_must_arrive_in_full() {
    let head = b"POST /files/a.txt HTTP/1.1\r\nContent-Length: 5\r\n\r\n";
    let mut buffer = head.to_vec();
    assert!(parse_request(&buffer).unwrap().is_none());
    buffer.extend_from_slice(b"hel");
    assert!(parse_request(&buffer).unwrap().is_none());
    buffer.extend_from_slice(b"l");
    assert!(parse_request(&buffer).unwrap().is_none());
    buffer.extend_from_slice(b"o");
    let request = parse_request(&buffer).unwrap().unwrap();
    assert_eq!(request.body.as_ref().unwrap().as_ref(), b"hello");
    assert_eq!(request.content_length(), Some(5));
    buffer.extend_from_slice(b" and more");
    let request = parse_request(&buffer).unwrap().unwrap();
    assert_eq!(request.body.as_ref().unwrap().as_ref(), b"hello");
}

#[test]
fn a_declared_length_of_zero_gives_an_empty_body() {
    let request =
        parse_request(b"POST / HTTP/1.1\r\nContent-Length: 0\r\n\r\n").unwrap().unwrap();
    assert_eq!(request.body.as_ref().unwrap().len(), 0);
}

#[test]
fn a_length_that_is_no_number_declares_nothing() {
    let request =
        parse_request(b"POST / HTTP/1.1\r\nContent-Length: five\r\n\r\nhello").unwrap().unwrap();
    assert_eq!(request.content_length(), None);
    assert!(request.body.is_none());
    let request =
        parse_request(b"POST / HTTP/1.1\r\nContent-Length: -1\r\n\r\nhello").unwrap().unwrap();
    assert!(request.body.is_none());
    let request =
        parse_request(b"POST / HTTP/1.1\r\nContent-Length: +2\r\n\r\nhello").unwrap().unwrap();
    assert_eq!(request.body.as_ref().unwrap().as_ref(), b"he");
    let huge = b"POST / HTTP/1.1\r\nContent-Length: 99999999999999999999999999\r\n\r\nhello";
    let request = parse_request(huge).unwrap().unwrap();
    assert!(request.body.is_none());
}

#[test]
fn lines_may_end_with_a_line_feed_alone() {
    let request = parse_request(b"POST /x HTTP/1.0\nContent-Length: 2\nA: b\n\nhi").unwrap().unwrap();
    assert_eq!(request.version, Version::HTTP_10);
    assert_eq!(request.header("a").unwrap().to_str(), Some("b"));
    assert_eq!(request.body.as_ref().unwrap().as_ref(), b"hi");
}

#[test]
fn header_names_are_held_in_lower_case() {
    let request = parse_request(
        b"GET /user-agent HTTP/1.1\r\nUser-Agent: test-client\r\nX-Thing:  spaced value \r\n\r\n",
    )
    .unwrap()
    .unwrap();
    assert_eq!(request.headers.len(), 2);
    assert_eq!(request.headers.name_at(0), "user-agent");
    assert_eq!(request.headers.value_at(0).as_str(), "test-client");
    assert_eq!(request.headers.name_at(1), "x-thing");
    assert_eq!(request.headers.value_at(1).as_str(), "spaced value");
    assert_eq!(request.user_agent(), Some("test-client"));
    assert_eq!(request.header("USER-AGENT").unwrap().as_str(), "test-client");
    assert_eq!(request.header("User-agent").unwrap().as_str(), "test-client");
    assert!(request.header("missing").is_none());
}

#[test]
fn of_two_lines_for_one_header_the_later_counts() {
    let request = parse_request(b"GET / HTTP/1.1\r\nA: 1\r\nB: 2\r\na: 3\r\n\r\n").unwrap().unwrap();
    assert_eq!(request.headers.len(), 2);
    assert_eq!(request.headers.name_at(0), "a");
    assert_eq!(request.headers.value_at(0).as_str(), "3");
    assert_eq!(request.headers.name_at(1), "b");
}

#[test]
fn lines_that_set_no_header_are_passed_over() {
    let request = parse_request(
        b"GET / HTTP/1.1\r\nno colon here\r\nBad Name: x\r\n: empty\r\nGood: a:b\r\nCtl: a\x01b\r\n\r\n",
    )
    .unwrap()
    .unwrap();
    assert_eq!(request.headers.len(), 1);
    assert_eq!(request.headers.name_at(0), "good");
    assert_eq!(request.headers.value_at(0).as_str(), "a:b");
}

#[test]
fn a_value_that_is_not_visible_is_held_but_not_read_as_text() {
    let request = parse_request("GET / HTTP/1.1\r\nUser-Agent: caf\u{e9}\r\n\r\n".as_bytes())
        .unwrap()
        .unwrap();
    assert_eq!(request.headers.value_at(0).as_str(), "caf\u{e9}");
    assert_eq!(request.headers.value_at(0).to_str(), None);
    assert_eq!(request.user_agent(), None);
}

#[test]
fn a_request_line_must_have_three_words() {
    for bytes in [
        &b"GET /\r\n\r\n"[..],
        &b"\r\n\r\n"[..],
        &b"GET / HTTP/1.1 extra\r\n\r\n"[..],
        &b"GET\r\n\r\n"[..],
    ] {
        assert!(matches!(
            parse_request(bytes),
            Err(Error::Parse(message)) if message == "Invalid request line"
        ));
    }
}

#[test]
fn words_are_separated_by_any_white_space() {
    let request = parse_request(b"  GET \t /a   HTTP/1.1 \r\r\n\r\n").unwrap().unwrap();
    assert_eq!(request.method, Method::GET);
    assert_eq!(request.path(), "/a");
    let request = parse_request("GET\u{a0}/b\u{2003}HTTP/1.1\r\n\r\n".as_bytes()).unwrap().unwrap();
    assert_eq!(request.path(), "/b");
}

#[test]
fn a_method_must_be_a_token() {
    assert!(matches!(
        parse_request(b"G(ET / HTTP/1.1\r\n\r\n"),
        Err(Error::InvalidMethod(text)) if text == "G(ET"
    ));
    let request = parse_request(b"PROPFIND / HTTP/1.1\r\n\r\n").unwrap().unwrap();
    assert_eq!(request.method, Method::Extension("PROPFIND".to_string()));
    assert_eq!(request.method.as_str(), "PROPFIND");
}

#[test]
fn a_target_must_be_a_uri() {
    assert!(matches!(parse_request(b"GET /a|b<c HTTP/1.1\r\n\r\n"), Err(Error::InvalidUri(_))));
    let request = parse_request(b"GET /search?q=1&r=2 HTTP/1.1\r\n\r\n").unwrap().unwrap();
    assert_eq!(request.path(), "/search");
    assert_eq!(request.query(), Some("q=1&r=2"));
    let request =
        parse_request(b"GET http://localhost:4221/test HTTP/1.1\r\n\r\n").unwrap().unwrap();
    assert_eq!(request.path(), "/test");
}

#[test]
fn only_two_versions_are_taken() {
    assert!(matches!(
        parse_request(b"GET / HTTP/2.0\r\n\r\n"),
        Err(Error::Parse(message)) if message == "Unsupported HTTP version"
    ));
    assert!(matches!(
        parse_request(b"GET / http/1.1\r\n\r\n"),
        Err(Error::Parse(message)) if message == "Unsupported HTTP version"
    ));
    assert_eq!(parse_request(b"GET / HTTP/1.0\r\n\r\n").unwrap().unwrap().version, Version::HTTP_10);
}

#[test]
fn the_head_must_be_utf8() {
    assert!(matches!(
        parse_request(b"GET /\xff HTTP/1.1\r\n\r\n"),
        Err(Error::Parse(message)) if message == "Invalid UTF-8"
    ));
    assert!(matches!(
        parse_request(b"GET / HTTP/1.1\r\nA: \xff\r\n\r\n"),
        Err(Error::Parse(message)) if message == "Invalid UTF-8 in headers"
    ));
    assert!(matches!(
        parse_request(b"GET /\xff HTTP/1.1\r\nA: \xff\r\n\r\n"),
        Err(Error::Parse(message)) if message == "Invalid UTF-8"
    ));
    let request = parse_request(b"POST / HTTP/1.1\r\nContent-Length: 2\r\n\r\n\xff\xfe").unwrap().unwrap();
    assert_eq!(request.body.as_ref().unwrap().as_ref(), b"\xff\xfe");
    assert_eq!(request.body_as_string().unwrap(), "\u{fffd}\u{fffd}");
}

#[test]
fn a_request_line_is_read_on_its_own() {
    let (method, uri, version) = parse_request_line(b"DELETE /files/a.txt HTTP/1.1\r").unwrap();
    assert_eq!(method, Method::DELETE);
    assert_eq!(uri.path(), "/files/a.txt");
    assert_eq!(version, Version::HTTP_11);
    assert!(parse_request_line(b"DELETE /files/a.txt").is_err());
}

#[test]
fn a_header_line_is_read_on_its_own() {
    let (name, value) = parse_header_line(&chars("Content-Type:\ttext/html ")).unwrap();
    assert_eq!(name, "content-type");
    assert_eq!(value.as_str(), "text/html");
    let (name, value) = parse_header_line(&chars("x-empty:")).unwrap();
    assert_eq!(name, "x-empty");
    assert_eq!(value.as_str(), "");
    assert!(parse_header_line(&chars("no colon")).is_none());
    assert!(parse_header_line(&chars("sp ace: x")).is_none());
    assert!(parse_header_line(&chars("name: bell\u{7}")).is_none());
}
