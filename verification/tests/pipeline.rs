use rust_https_server::config::Config;
use rust_https_server::http::{Request, Response};
use rust_https_server::router::{Handler, Router};
use rust_https_server::server::connection::error_response;
use rust_https_server::server::endpoints::{echo, setup_routes, user_agent, welcome};
use rust_https_server::server::{Action, Connection, Endpoint, Event, FileHandlers, Server, State};
use rust_https_server::Error;

struct Files(&'static str);

impl Handler for Files {
    fn call(&self, request: Request) -> Result<Response, Error> {
        let empty = String::new();
        let name = request.params.get("filename").unwrap_or(&empty);
        if name == "missing.txt" {
            Err(Error::FileNotFound(name.clone()))
        } else {
            Ok(Response::ok().with_text(&format!("{} {}", self.0, name)))
        }
    }
}

fn server() -> Server<Files> {
    let files = FileHandlers { read: Files("read"), write: Files("write"), remove: Files("remove") };
    Server::new(Config::default(), files)
}

fn text(bytes: &[u8]) -> String {
    String::from_utf8(bytes.to_vec()).unwrap()
}

fn exchange(server: &Server<Files>, chunks: &[&[u8]]) -> Option<String> {
    let mut connection = Connection::new();
    let mut action = Action::Receive;
    let mut next = 0;
    let mut sent = None;
    loop {
        let event = match action {
            Action::Receive => {
                if next < chunks.len() {
                    next += 1;
                    Event::Received(chunks[next - 1].to_vec())
                } else {
                    Event::TimedOut
                }
            }
            Action::Dispatch => Event::Dispatch,
            Action::Send(bytes) => {
                sent = Some(text(&bytes));
                Event::Sent
            }
            Action::Close => {
                assert_eq!(connection.state(), State::Closed);
                return sent;
            }
        };
        action = connection.step(event, server.router());
    }
}

#[test]
fn echo_answers_with_the_path_parameter() {
    let answer = exchange(&server(), &[b"GET /echo/hello HTTP/1.1\r\n\r\n"]).unwrap();
    assert_eq!(
        answer,
        "HTTP/1.1 200 OK\r\ncontent-type: text/plain\r\ncontent-length: 5\r\n\r\nhello"
    );
    let answer = exchange(&server(), &[b"POST /echo/again HTTP/1.1\r\n\r\n"]).unwrap();
    assert!(answer.starts_with("HTTP/1.1 200 OK\r\n"));
    assert!(answer.ends_with("\r\n\r\nagain"));
}

#[test]
fn user_agent_answers_with_the_header() {
    let answer = exchange(
        &server(),
        &[b"GET /user-agent HTTP/1.1\r\nUser-Agent: test-client\r\n\r\n"],
    )
    .unwrap();
    assert_eq!(
        answer,
        "HTTP/1.1 200 OK\r\ncontent-type: text/plain\r\ncontent-length: 11\r\n\r\ntest-client"
    );
    let answer = exchange(&server(), &[b"GET /user-agent HTTP/1.1\r\n\r\n"]).unwrap();
    assert_eq!(
        answer,
        "HTTP/1.1 400 Bad Request\r\ncontent-type: text/plain\r\ncontent-length: 27\r\n\r\n\
User-Agent header not found"
    );
}

#[test]
fn a_path_without_route_is_answered_and_closed() {
    let answer = exchange(&server(), &[b"GET /nope HTTP/1.1\r\n\r\n"]).unwrap();
    assert_eq!(
        answer,
        "HTTP/1.1 404 Not Found\r\ncontent-type: text/plain\r\ncontent-length: 9\r\n\r\nNot Found"
    );
    let router = server();
    let request = rust_https_server::server::parse_request(b"GET /nope HTTP/1.1\r\n\r\n");
    let outcome = router.router().handle(request.unwrap().unwrap());
    assert!(matches!(outcome, Err(Error::RouteNotFound(path)) if path == "/nope"));
}

#[test]
fn a_body_that_stalls_is_never_dispatched() {
    let server = server();
    let mut connection = Connection::new();
    let head = b"POST /files/a.txt HTTP/1.1\r\nContent-Length: 5\r\n\r\n".to_vec();
    assert!(matches!(connection.step(Event::Received(head), server.router()), Action::Receive));
    assert_eq!(connection.state(), State::Reading);
    let part = b"hel".to_vec();
    assert!(matches!(connection.step(Event::Received(part), server.router()), Action::Receive));
    assert_eq!(connection.state(), State::Reading);
    assert!(matches!(connection.step(Event::TimedOut, server.router()), Action::Close));
    assert_eq!(connection.state(), State::Closed);
    assert!(connection.failure().is_none());
    assert_eq!(
        exchange(&server, &[b"POST /files/a.txt HTTP/1.1\r\nContent-Length: 5\r\n\r\n", b"hel"]),
        None
    );
}

#[test]
fn a_request_may_arrive_in_pieces() {
    let answer = exchange(
        &server(),
        &[b"POST /fil", b"es/a.txt HTTP/1.1\r\nContent-Le", b"ngth: 5\r\n\r", b"\nhel", b"lo"],
    )
    .unwrap();
    assert!(answer.ends_with("\r\n\r\nwrite a.txt"));
}

#[test]
fn every_state_is_passed_in_order() {
    let server = server();
    let mut connection = Connection::new();
    assert_eq!(connection.state(), State::Reading);
    let request = b"GET / HTTP/1.1\r\n\r\n".to_vec();
    assert!(matches!(connection.step(Event::Received(request), server.router()), Action::Dispatch));
    assert_eq!(connection.state(), State::Framed);
    let action = connection.step(Event::Dispatch, server.router());
    assert_eq!(connection.state(), State::Writing);
    match action {
        Action::Send(bytes) => assert!(text(&bytes).ends_with("Welcome to Rust HTTP Server")),
        _ => panic!("a response is to be sent"),
    }
    assert!(matches!(connection.step(Event::Sent, server.router()), Action::Close));
    assert_eq!(connection.state(), State::Closed);
    assert!(matches!(connection.step(Event::Sent, server.router()), Action::Close));
    assert_eq!(connection.state(), State::Closed);
}

#[test]
fn a_malformed_request_closes_without_response() {
    let server = server();
    let mut connection = Connection::new();
    let request = b"GET / HTTP/9.9\r\n\r\n".to_vec();
    assert!(matches!(connection.step(Event::Received(request), server.router()), Action::Close));
    assert_eq!(connection.state(), State::Closed);
    assert!(matches!(
        connection.failure(),
        Some(Error::Parse(message)) if message == "Unsupported HTTP version"
    ));
    assert_eq!(exchange(&server, &[b"garbage\r\n\r\n"]), None);
}

#[test]
fn a_closed_peer_and_a_failure_close_at_once() {
    let server = server();
    for make in [|| Event::PeerClosed, || Event::Failed, || Event::TimedOut, || Event::Sent] {
        let mut connection = Connection::new();
        assert!(matches!(connection.step(make(), server.router()), Action::Close));
        assert_eq!(connection.state(), State::Closed);
        let mut connection = Connection::new();
        connection.step(Event::Received(b"GET / HTTP/1.1\r\n\r\n".to_vec()), server.router());
        connection.step(Event::Dispatch, server.router());
        assert!(matches!(connection.step(make(), server.router()), Action::Close));
        assert_eq!(connection.state(), State::Closed);
    }
    let mut connection = Connection::new();
    assert!(matches!(connection.step(Event::Dispatch, server.router()), Action::Close));
    let mut connection = Connection::new();
    connection.step(Event::Received(b"GET / HTTP/1.1\r\n\r\n".to_vec()), server.router());
    let more = Event::Received(b"more".to_vec());
    assert!(matches!(connection.step(more, server.router()), Action::Close));
}

#[test]
fn a_handler_failure_is_reported_only_while_dispatching() {
    let server = server();
    let mut connection = Connection::new();
    assert!(matches!(connection.step(Event::HandlerFailed, server.router()), Action::Close));
    assert_eq!(connection.state(), State::Closed);
    let response = error_response(&Error::Internal(String::new()));
    assert_eq!(
        text(&response.to_bytes()),
        "HTTP/1.1 500 Internal Server Error\r\ncontent-type: text/plain\r\n\
content-length: 21\r\n\r\nInternal Server Error"
    );
}

#[test]
fn a_failure_of_the_handler_is_answered_with_its_status() {
    let answer = exchange(&server(), &[b"GET /files/missing.txt HTTP/1.1\r\n\r\n"]).unwrap();
    assert!(answer.starts_with("HTTP/1.1 404 Not Found\r\n"));
    let answer = exchange(&server(), &[b"DELETE /files/a.txt HTTP/1.1\r\n\r\n"]).unwrap();
    assert!(answer.ends_with("\r\n\r\nremove a.txt"));
    let answer = exchange(&server(), &[b"GET /files/b.txt HTTP/1.1\r\n\r\n"]).unwrap();
    assert!(answer.ends_with("\r\n\r\nread b.txt"));
    let response = error_response(&Error::ContentTooLarge(10));
    assert_eq!(response.status().as_u16(), 413);
    assert_eq!(response.body().unwrap().as_ref(), b"Payload Too Large");
}

#[test]
fn the_routes_of_a_server_are_the_standard_ones() {
    let server = server();
    let router = server.router();
    assert_eq!(router.len(), 7);
    let expected = [
        ("GET", "/"),
        ("GET", "/user-agent"),
        ("GET", "/echo/{param}"),
        ("POST", "/echo/{param}"),
        ("GET", "/files/{filename}"),
        ("POST", "/files/{filename}"),
        ("DELETE", "/files/{filename}"),
    ];
    for (i, (method, pattern)) in expected.iter().enumerate() {
        assert_eq!(router.route_at(i).method.as_str(), *method);
        assert_eq!(router.route_at(i).pattern, *pattern);
    }
    assert!(matches!(router.route_at(3).handler, Endpoint::Echo));
    assert!(matches!(router.route_at(5).handler, Endpoint::Files(Files("write"))));
    assert_eq!(server.config().server.port, 4221);
    let mut config = Config::default();
    config.server.port = 8080;
    config.files.root_dir = "/srv/www".to_string();
    let files = FileHandlers { read: Files("r"), write: Files("w"), remove: Files("d") };
    let custom = Server::new(config, files);
    assert_eq!(custom.config().server.port, 8080);
    assert_eq!(custom.config().files.root_dir, "/srv/www");
    let mut other: Router<Endpoint<Files>> = Router::new();
    let files = FileHandlers { read: Files("r"), write: Files("w"), remove: Files("d") };
    setup_routes(&mut other, files);
    assert_eq!(other.len(), 7);
}

#[test]
fn the_built_in_endpoints_answer_on_their_own() {
    assert_eq!(welcome().body().unwrap().as_ref(), b"Welcome to Rust HTTP Server");
    let request = rust_https_server::server::parse_request(b"GET /x HTTP/1.1\r\nuser-agent: me\r\n\r\n")
        .unwrap()
        .unwrap();
    assert_eq!(user_agent(&request).body().unwrap().as_ref(), b"me");
    assert_eq!(echo(&request).body().unwrap().len(), 0);
    assert_eq!(echo(&request).status().as_u16(), 200);
    assert!(request.supports_gzip() == false);
    let request = rust_https_server::server::parse_request(
        b"POST /x HTTP/1.1\r\nAccept-Encoding: deflate, gzip\r\nContent-Type: a/b\r\n\r\n",
    )
    .unwrap()
    .unwrap();
    assert!(request.supports_gzip());
    assert_eq!(request.accept_encoding(), Some("deflate, gzip"));
    assert_eq!(request.content_type(), Some("a/b"));
    assert!(matches!(
        request.body_as_json(),
        Err(Error::BadRequest(m)) if m == "Request body is required for JSON parsing"
    ));
    let request = rust_https_server::server::parse_request(
        b"POST /x HTTP/1.1\r\nContent-Length: 7\r\n\r\n{\"a\":1}",
    )
    .unwrap()
    .unwrap();
    assert_eq!(request.body_as_json().unwrap(), "{\"a\":1}");
    assert_eq!(request.body_as_string().unwrap(), "{\"a\":1}");
    let copy = request.clone();
    assert_eq!(copy.path(), "/x");
}
