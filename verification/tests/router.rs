use rust_https_server::http::{Method, Request, Response, Uri, Version};
use rust_https_server::router::pattern::template_fits;
use rust_https_server::router::{bind_params, captured_texts, compile_pattern, Handler, Router};
use rust_https_server::Error;

struct Named(&'static str);

impl Handler for Named {
    fn call(&self, _request: Request) -> Result<Response, Error> {
        Ok(Response::ok().with_text(self.0))
    }
}

struct Param(&'static str);

impl Handler for Param {
    fn call(&self, request: Request) -> Result<Response, Error> {
        let empty = String::new();
        let value = request.params.get(self.0).unwrap_or(&empty);
        Ok(Response::ok().with_text(value))
    }
}

fn request(method: Method, path: &str) -> Request {
    Request::new(method, Uri::parse(path).unwrap(), Version::HTTP_11)
}

fn body_of(response: &Response) -> Vec<u8> {
    response.body().unwrap().as_ref().to_vec()
}

#[test]
fn compile_pattern_writes_an_anchored_regex() {
    let (regex, names) = compile_pattern("/echo/{param}");
    assert_eq!(regex, "^/echo/([^/]+)$");
    assert_eq!(names, vec!["param".to_string()]);
}

#[test]
fn compile_pattern_without_captures() {
    let (regex, names) = compile_pattern("/");
    assert_eq!(regex, "^/$");
    assert!(names.is_empty());
}

#[test]
fn compile_pattern_keeps_the_order_of_names() {
    let (regex, names) = compile_pattern("/{a}/x/{b}");
    assert_eq!(regex, "^/([^/]+)/x/([^/]+)$");
    assert_eq!(names, vec!["a".to_string(), "b".to_string()]);
}

#[test]
fn compile_pattern_escapes_what_a_regex_would_read() {
    let (regex, names) = compile_pattern("/user-agent/v1.0");
    assert_eq!(regex, "^/user\\-agent/v1\\.0$");
    assert!(names.is_empty());
}

#[test]
fn compile_pattern_takes_a_brace_without_partner_as_text() {
    let (regex, names) = compile_pattern("/a/{b");
    assert_eq!(regex, "^/a/\\{b$");
    assert!(names.is_empty());
    let (regex, names) = compile_pattern("/a}/{x{y}");
    assert_eq!(regex, "^/a\\}/\\{x([^/]+)$");
    assert_eq!(names, vec!["y".to_string()]);
}

#[test]
fn literal_text_matches_only_itself() {
    let mut router = Router::new();
    router.get("/v1.0", Named("dot"));
    assert!(router.handle(request(Method::GET, "/v1.0")).is_ok());
    assert!(router.handle(request(Method::GET, "/v1x0")).is_err());
}

#[test]
fn a_brace_without_partner_matches_itself() {
    let mut router: Router<Named> = Router::new();
    router.get("/a/{b", Named("brace"));
    let resolved = router.resolve(&Method::GET, "/a/{b");
    assert!(matches!(resolved, Ok((0, _))));
    assert!(router.resolve(&Method::GET, "/a/").is_err());
}

#[test]
fn parameters_are_the_captured_segments_in_order() {
    let mut router: Router<Named> = Router::new();
    router.get("/users/{id}/posts/{post}", Named("posts"));
    let (index, params) = router.resolve(&Method::GET, "/users/42/posts/hello-world").unwrap();
    assert_eq!(index, 0);
    assert_eq!(params.len(), 2);
    assert_eq!(params.name_at(0), "id");
    assert_eq!(params.value_at(0), "42");
    assert_eq!(params.name_at(1), "post");
    assert_eq!(params.value_at(1), "hello-world");
    assert_eq!(params.get("id").map(|s| s.as_str()), Some("42"));
    assert_eq!(params.get("post").map(|s| s.as_str()), Some("hello-world"));
    assert_eq!(params.get("other"), None);
}

#[test]
fn of_two_equal_names_the_later_capture_counts() {
    let mut router: Router<Named> = Router::new();
    router.get("/{x}/{x}", Named("twice"));
    let (_, params) = router.resolve(&Method::GET, "/one/two").unwrap();
    assert_eq!(params.len(), 1);
    assert_eq!(params.get("x").map(|s| s.as_str()), Some("two"));
}

#[test]
fn bind_params_pairs_names_with_segments() {
    let names = vec!["a".to_string(), "b".to_string(), "c".to_string()];
    let segments = vec!["1".to_string(), "2".to_string()];
    let params = bind_params(&names, &segments);
    assert_eq!(params.len(), 2);
    assert_eq!(params.get("a").map(|s| s.as_str()), Some("1"));
    assert_eq!(params.get("b").map(|s| s.as_str()), Some("2"));
    assert_eq!(params.get("c"), None);
}

#[test]
fn captured_texts_are_the_groups_after_the_whole_match() {
    let groups = vec![Some("/a/b".to_string()), Some("a".to_string()), Some("b".to_string())];
    assert_eq!(captured_texts(&groups), Some(vec!["a".to_string(), "b".to_string()]));
    assert_eq!(captured_texts(&vec![Some("/".to_string())]), Some(vec![]));
    assert_eq!(captured_texts(&vec![None]), Some(vec![]));
    assert_eq!(captured_texts(&vec![Some("x".to_string()), None]), None);
    assert_eq!(captured_texts(&vec![]), None);
}

fn fits(pattern: &str, path: &str, captured: &[&str]) -> bool {
    let pattern: Vec<char> = pattern.chars().collect();
    let path: Vec<char> = path.chars().collect();
    let captured: Vec<String> = captured.iter().map(|s| s.to_string()).collect();
    template_fits(&pattern, &path, &captured)
}

#[test]
fn a_path_fits_a_template_with_its_segments() {
    assert!(fits("/", "/", &[]));
    assert!(fits("", "", &[]));
    assert!(fits("/echo/{param}", "/echo/hello", &["hello"]));
    assert!(fits("/{a}/x/{b}", "/1/x/22", &["1", "22"]));
    assert!(fits("{a}{b}", "xyz", &["xy", "z"]));
    assert!(fits("{a}{b}", "xyz", &["x", "yz"]));
    assert!(fits("/a/{b", "/a/{b", &[]));
    assert!(fits("/{}", "/x", &["x"]));
    assert!(!fits("/echo/{param}", "/echo/hello", &["hell"]));
    assert!(!fits("/echo/{param}", "/echo/hello", &[]));
    assert!(!fits("/echo/{param}", "/echo/hello", &["hello", "more"]));
    assert!(!fits("/echo/{param}", "/echo/", &[""]));
    assert!(!fits("/echo/{param}", "/echo/a/b", &["a/b"]));
    assert!(!fits("/echo/{param}", "/echo/hello/", &["hello"]));
    assert!(!fits("/echo", "/echo/", &[]));
    assert!(!fits("/echo/", "/echo", &[]));
    assert!(!fits("/Echo", "/echo", &[]));
}

#[test]
fn adjacent_captures_take_what_the_regex_gives_them() {
    let mut router: Router<Named> = Router::new();
    router.get("/{a}-{b}", Named("pair")).get("/{a}{b}", Named("joined"));
    let (index, params) = router.resolve(&Method::GET, "/x-y-z").unwrap();
    assert_eq!(index, 0);
    assert_eq!(params.get("a").map(|s| s.as_str()), Some("x-y"));
    assert_eq!(params.get("b").map(|s| s.as_str()), Some("z"));
    let (index, params) = router.resolve(&Method::GET, "/xyz").unwrap();
    assert_eq!(index, 1);
    assert_eq!(params.get("a").map(|s| s.as_str()), Some("xy"));
    assert_eq!(params.get("b").map(|s| s.as_str()), Some("z"));
    let (_, params) = router.resolve(&Method::GET, "/caf\u{e9}-\u{4e16}\n").unwrap();
    assert_eq!(params.get("a").map(|s| s.as_str()), Some("caf\u{e9}"));
    assert_eq!(params.get("b").map(|s| s.as_str()), Some("\u{4e16}\n"));
}

#[test]
fn every_character_with_a_meaning_in_a_regex_matches_itself() {
    let pattern = "/\\.+*?()|[]^$#&-~ {x}";
    let mut router: Router<Named> = Router::new();
    router.get(pattern, Named("odd"));
    let (_, params) = router.resolve(&Method::GET, "/\\.+*?()|[]^$#&-~ v").unwrap();
    assert_eq!(params.get("x").map(|s| s.as_str()), Some("v"));
    assert!(router.resolve(&Method::GET, "/\\a+*?()|[]^$#&-~ v").is_err());
}

#[test]
fn first_registered_route_wins() {
    let mut router = Router::new();
    router.get("/a/{x}", Named("first")).get("/a/b", Named("second"));
    let response = router.handle(request(Method::GET, "/a/b")).unwrap();
    assert_eq!(body_of(&response), b"first");
    let mut router = Router::new();
    router.get("/a/b", Named("second")).get("/a/{x}", Named("first"));
    let response = router.handle(request(Method::GET, "/a/b")).unwrap();
    assert_eq!(body_of(&response), b"second");
    let response = router.handle(request(Method::GET, "/a/c")).unwrap();
    assert_eq!(body_of(&response), b"first");
}

#[test]
fn a_route_takes_only_its_own_method() {
    let mut router = Router::new();
    router
        .post("/thing", Named("post"))
        .get("/thing", Named("get"))
        .put("/thing", Named("put"))
        .delete("/thing", Named("delete"))
        .options("/thing", Named("options"))
        .add_route(Method::Extension("PURGE".to_string()), "/thing", Named("purge"));
    assert_eq!(router.len(), 6);
    assert_eq!(body_of(&router.handle(request(Method::GET, "/thing")).unwrap()), b"get");
    assert_eq!(body_of(&router.handle(request(Method::POST, "/thing")).unwrap()), b"post");
    assert_eq!(body_of(&router.handle(request(Method::PUT, "/thing")).unwrap()), b"put");
    assert_eq!(body_of(&router.handle(request(Method::DELETE, "/thing")).unwrap()), b"delete");
    assert_eq!(body_of(&router.handle(request(Method::OPTIONS, "/thing")).unwrap()), b"options");
    let purge = Method::parse("PURGE").unwrap();
    assert_eq!(body_of(&router.handle(request(purge, "/thing")).unwrap()), b"purge");
    assert!(matches!(
        router.handle(request(Method::PATCH, "/thing")),
        Err(Error::RouteNotFound(path)) if path == "/thing"
    ));
}

#[test]
fn pattern_is_anchored_at_both_ends() {
    let mut router = Router::new();
    router.get("/a/{x}", Named("a"));
    assert!(matches!(
        router.handle(request(Method::GET, "/a/b/c")),
        Err(Error::RouteNotFound(p)) if p == "/a/b/c"
    ));
    assert!(matches!(
        router.handle(request(Method::GET, "/a")),
        Err(Error::RouteNotFound(p)) if p == "/a"
    ));
    assert!(matches!(router.handle(request(Method::GET, "/a/")), Err(Error::RouteNotFound(_))));
    assert!(router.handle(request(Method::GET, "/a/b")).is_ok());
}

#[test]
fn a_trailing_slash_makes_another_pattern() {
    let mut router = Router::new();
    router.get("/foo", Named("plain")).get("/foo/", Named("slash"));
    assert_eq!(body_of(&router.handle(request(Method::GET, "/foo")).unwrap()), b"plain");
    assert_eq!(body_of(&router.handle(request(Method::GET, "/foo/")).unwrap()), b"slash");
}

#[test]
fn the_handler_gets_the_parameters() {
    let mut router = Router::new();
    router.get("/echo/{param}", Param("param"));
    let response = router.handle(request(Method::GET, "/echo/hello")).unwrap();
    assert_eq!(body_of(&response), b"hello");
    assert_eq!(response.status().as_u16(), 200);
}

#[test]
fn a_router_without_routes_finds_nothing() {
    let router: Router<Named> = Router::default();
    assert_eq!(router.len(), 0);
    assert!(matches!(
        router.resolve(&Method::GET, "/nope"),
        Err(Error::RouteNotFound(path)) if path == "/nope"
    ));
}

#[test]
fn routes_keep_what_they_were_registered_with() {
    let mut router = Router::new();
    router.post("/files/{filename}", Named("files"));
    let route = router.route_at(0);
    assert_eq!(route.method, Method::POST);
    assert_eq!(route.pattern, "/files/{filename}");
    assert_eq!(route.regex, "^/files/([^/]+)$");
    assert_eq!(route.param_names, vec!["filename".to_string()]);
    let path = "/files/a.txt";
    let params = router.match_route(route, path).unwrap();
    assert_eq!(params.get("filename").map(|s| s.as_str()), Some("a.txt"));
    assert!(router.match_route(route, "/files/a/b").is_none());
}
