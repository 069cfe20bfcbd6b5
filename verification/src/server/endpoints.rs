//! The endpoints that every server has, and the table of its routes.

use crate::config::Config;
use crate::error::Error;
use crate::http::pairs::{value_of, Pairs};
use crate::http::request::{header_text, Request};
use crate::http::response::{text_reply, Response, ResponseView};
use crate::router::{route_for, Handler, RouteView, Router};
use vstd::prelude::*;

verus! {

/// What a route of the server leads to: one of the built-in endpoints, or a
/// handler for stored files, which the caller supplies.
#[derive(Debug, Clone)]
pub enum Endpoint<F> {
    /// Greets.
    Welcome,
    /// Answers with the `user-agent` header of the request.
    UserAgent,
    /// Answers with the path parameter `param`.
    Echo,
    /// Reads, writes or removes a stored file.
    Files(F),
}

/// The greeting.
pub open spec fn welcome_reply() -> ResponseView {
    text_reply(200, "Welcome to Rust HTTP Server"@)
}

/// The `user-agent` header as text, or a bad request where the request has
/// none that is text.
pub open spec fn user_agent_reply(headers: Pairs) -> ResponseView {
    match header_text(headers, "user-agent"@) {
        Some(agent) => text_reply(200, agent),
        None => text_reply(400, "User-Agent header not found"@),
    }
}

/// The path parameter `param` as text; empty text where there is none.
pub open spec fn echo_reply(params: Pairs) -> ResponseView {
    match value_of(params, "param"@) {
        Some(value) => text_reply(200, value),
        None => text_reply(200, Seq::empty()),
    }
}

/// Greets.
pub fn welcome() -> (r: Response)
    ensures
        r@ == welcome_reply(),
{
    Response::ok().with_text("Welcome to Rust HTTP Server")
}

/// Answers with the `user-agent` header of the request.
pub fn user_agent(request: &Request) -> (r: Response)
    ensures
        r@ == user_agent_reply(request.headers@),
{
    match request.user_agent() {
        Some(agent) => Response::ok().with_text(agent),
        None => Response::bad_request().with_text("User-Agent header not found"),
    }
}

/// Answers with the path parameter `param`.
pub fn echo(request: &Request) -> (r: Response)
    ensures
        r@ == echo_reply(request.params@),
{
    match request.params.get("param") {
        Some(value) => Response::ok().with_text(value.as_str()),
        None => {
            proof {
                reveal_strlit("");
                assert(""@ =~= Seq::<char>::empty());
            }
            Response::ok().with_text("")
        },
    }
}

impl<F: Handler> Handler for Endpoint<F> {
    open spec fn may_yield(&self, request: Request, outcome: Result<Response, Error>) -> bool {
        match self {
            Endpoint::Welcome => outcome is Ok && outcome->Ok_0@ == welcome_reply(),
            Endpoint::UserAgent => outcome is Ok && outcome->Ok_0@ == user_agent_reply(
                request.headers@,
            ),
            Endpoint::Echo => outcome is Ok && outcome->Ok_0@ == echo_reply(request.params@),
            Endpoint::Files(files) => files.may_yield(request, outcome),
        }
    }

    fn call(&self, request: Request) -> (outcome: Result<Response, Error>) {
        match self {
            Endpoint::Welcome => Ok(welcome()),
            Endpoint::UserAgent => Ok(user_agent(&request)),
            Endpoint::Echo => Ok(echo(&request)),
            Endpoint::Files(files) => files.call(request),
        }
    }
}

/// The routes of a server, in the order of their precedence.
pub open spec fn standard_routes() -> Seq<RouteView> {
    seq![
        route_for("GET"@, "/"@),
        route_for("GET"@, "/user-agent"@),
        route_for("GET"@, "/echo/{param}"@),
        route_for("POST"@, "/echo/{param}"@),
        route_for("GET"@, "/files/{filename}"@),
        route_for("POST"@, "/files/{filename}"@),
        route_for("DELETE"@, "/files/{filename}"@),
    ]
}

/// The handlers for stored files: one to read a file, one to write it and
/// one to remove it.
#[derive(Debug, Clone)]
pub struct FileHandlers<F> {
    pub read: F,
    pub write: F,
    pub remove: F,
}

/// The endpoints behind the routes of a server, in the order of the routes.
pub open spec fn standard_endpoints<F>(files: FileHandlers<F>) -> Seq<Endpoint<F>> {
    seq![
        Endpoint::Welcome,
        Endpoint::UserAgent,
        Endpoint::Echo,
        Endpoint::Echo,
        Endpoint::Files(files.read),
        Endpoint::Files(files.write),
        Endpoint::Files(files.remove),
    ]
}

/// Registers the routes of a server, after the routes that the router has.
pub fn setup_routes<F: Handler>(router: &mut Router<Endpoint<F>>, files: FileHandlers<F>)
    ensures
        final(router)@ == old(router)@ + standard_routes(),
        final(router).handlers() == old(router).handlers() + standard_endpoints(files),
{
    let ghost routes = router@;
    let ghost handlers = router.handlers();
    router.get("/", Endpoint::Welcome);
    router.get("/user-agent", Endpoint::UserAgent);
    router.get("/echo/{param}", Endpoint::Echo);
    router.post("/echo/{param}", Endpoint::Echo);
    router.get("/files/{filename}", Endpoint::Files(files.read));
    router.post("/files/{filename}", Endpoint::Files(files.write));
    router.delete("/files/{filename}", Endpoint::Files(files.remove));
    assert(router@ =~= routes + standard_routes());
    assert(router.handlers() =~= handlers + standard_endpoints(files));
}

/// A server: its configuration and its routes.
#[derive(Debug, Clone)]
pub struct Server<F> {
    config: Config,
    router: Router<Endpoint<F>>,
}

impl<F: Handler> Server<F> {
    /// The routes of the server.
    pub closed spec fn routes(&self) -> Seq<RouteView> {
        self.router@
    }

    /// The endpoints behind the routes.
    pub closed spec fn endpoints(&self) -> Seq<Endpoint<F>> {
        self.router.handlers()
    }

    /// The configuration that the server was made with.
    pub closed spec fn settings(&self) -> Config {
        self.config
    }

    /// A server with the standard routes, which keeps the configuration it
    /// is given.
    pub fn new(config: Config, files: FileHandlers<F>) -> (server: Server<F>)
        ensures
            server.settings() == config,
            server.routes() == standard_routes(),
            server.endpoints() == standard_endpoints(files),
    {
        let mut router = Router::new();
        setup_routes(&mut router, files);
        assert(router@ =~= standard_routes());
        assert(router.handlers() =~= standard_endpoints(files));
        Server { config, router }
    }

    /// The configuration of the server: the one it was made with.
    pub fn config(&self) -> (config: &Config)
        ensures
            *config == self.settings(),
    {
        &self.config
    }

    /// The router of the server.
    pub fn router(&self) -> (router: &Router<Endpoint<F>>)
        ensures
            router@ == self.routes(),
            router.handlers() == self.endpoints(),
    {
        &self.router
    }
}

} // verus!
