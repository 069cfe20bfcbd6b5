//! The state machine of one connection.
//!
//! The caller owns the socket. It performs the action that each step
//! returns and reports what happened as the next event: read after
//! `Receive`, call `step` with `Dispatch` after `Dispatch`, write all bytes
//! after `Send`, close after `Close`.

use crate::error::{status_of, Error};
use crate::http::pairs::Pairs;
use crate::http::request::Request;
use crate::http::response::{reason_text, wire, with_content, Response, ResponseView};
use crate::router::{Handler, Router};
use crate::server::framing::{frame, parse_request, reports, Framing};
use vstd::prelude::*;

verus! {

/// Where a connection stands.
#[derive(Debug, Clone, Copy, PartialEq, Eq, Structural)]
pub enum State {
    /// Bytes are being received; no complete request yet.
    Reading,
    /// A complete request is held and waits for dispatch.
    Framed,
    /// The request is with its handler.
    Dispatching,
    /// The response is being sent.
    Writing,
    /// Nothing more happens on this connection.
    Closed,
}

/// What happened on the socket, or in the caller, since the last step.
pub enum Event {
    /// Bytes arrived.
    Received(Vec<u8>),
    /// The peer closed its side: a read gave no bytes.
    PeerClosed,
    /// Reading or writing took longer than allowed.
    TimedOut,
    /// Reading or writing failed.
    Failed,
    /// The caller is ready for the request to be dispatched.
    Dispatch,
    /// The handler did not return.
    HandlerFailed,
    /// All bytes of the response were written.
    Sent,
}

/// What the caller is to do next.
pub enum Action {
    /// Read from the socket.
    Receive,
    /// Call `step` with `Event::Dispatch`.
    Dispatch,
    /// Write these bytes to the socket.
    Send(Vec<u8>),
    /// Close the socket.
    Close,
}

/// One connection: its state, the bytes received, and the request once it is
/// framed.
pub struct Connection {
    state: State,
    buffer: Vec<u8>,
    request: Option<Request>,
    failure: Option<Error>,
}

/// What a connection holds.
pub struct ConnectionView {
    pub state: State,
    pub buffer: Seq<u8>,
    pub request: Option<Request>,
    pub failure: Option<Error>,
}

/// The response that reports a failure: the status code that answers it,
/// with the reason phrase of that code as text.
pub open spec fn failure_reply(status: u16) -> ResponseView {
    with_content(
        ResponseView { status, headers: Pairs::empty(), body: None },
        "text/plain"@,
        reason_text(status),
    )
}

/// The response that goes back for the outcome of a dispatch: the handler's
/// response, or the report of the failure.
pub open spec fn reply(outcome: Result<Response, Error>) -> ResponseView {
    match outcome {
        Ok(response) => response@,
        Err(e) => failure_reply(status_of(e)),
    }
}

/// The response that reports a failure.
pub fn error_response(e: &Error) -> (r: Response)
    ensures
        r@ == failure_reply(status_of(*e)),
{
    let status = e.status_code();
    let phrase = match status.canonical_reason() {
        Some(phrase) => phrase,
        None => "Unknown",
    };
    Response::new(status).with_text(phrase)
}

impl View for Connection {
    type V = ConnectionView;

    closed spec fn view(&self) -> ConnectionView {
        ConnectionView {
            state: self.state,
            buffer: self.buffer@,
            request: self.request,
            failure: self.failure,
        }
    }
}

/// A connection that is over, whatever it held.
pub open spec fn closed(c: ConnectionView) -> ConnectionView {
    ConnectionView { state: State::Closed, ..c }
}

impl Connection {
    /// A connection that has received nothing yet.
    pub fn new() -> (c: Connection)
        ensures
            c@ == (ConnectionView {
                state: State::Reading,
                buffer: Seq::empty(),
                request: None,
                failure: None,
            }),
    {
        Connection { state: State::Reading, buffer: Vec::new(), request: None, failure: None }
    }

    /// Where the connection stands.
    pub fn state(&self) -> (state: State)
        ensures
            state == self@.state,
    {
        self.state
    }

    /// Why the connection was closed without a response, if it was closed
    /// for a malformed request.
    pub fn failure(&self) -> (failure: Option<&Error>)
        ensures
            match failure {
                Some(e) => self@.failure == Some(*e),
                None => self@.failure is None,
            },
    {
        match &self.failure {
            Some(e) => Some(e),
            None => None,
        }
    }

    /// Takes one event and says what to do next.
    ///
    /// While reading, received bytes are added to the buffer and the buffer
    /// is framed: an incomplete request asks for more bytes, a complete one
    /// for dispatch, and a malformed one closes the connection without a
    /// response. Dispatch hands the request to the router and sends what
    /// comes back, a failure as the response that reports it. A handler
    /// that did not return is answered as an internal failure. After the
    /// response is sent the connection is closed. A closed peer, a timeout
    /// and a failed read or write close it at once, and so does an event
    /// that does not fit the state.
    pub fn step<H: Handler>(&mut self, event: Event, router: &Router<H>) -> (action: Action)
        ensures
            match (old(self)@.state, event) {
                (State::Reading, Event::Received(bytes)) => {
                    let buffer = old(self)@.buffer + bytes@;
                    match frame(buffer) {
                        Framing::Incomplete => {
                            &&& action is Receive
                            &&& final(self)@ == (ConnectionView { buffer, ..old(self)@ })
                        },
                        Framing::Malformed(fault) => {
                            &&& action is Close
                            &&& final(self)@.state == State::Closed
                            &&& final(self)@.failure is Some
                            &&& reports(final(self)@.failure->Some_0, fault)
                        },
                        Framing::Complete(request) => {
                            &&& action is Dispatch
                            &&& final(self)@.state == State::Framed
                            &&& final(self)@.buffer == buffer
                            &&& final(self)@.request is Some
                            &&& final(self)@.request->Some_0@ == request
                        },
                    }
                },
                (State::Framed, Event::Dispatch) => {
                    &&& action is Send
                    &&& final(self)@.state == State::Writing
                    &&& old(self)@.request is Some ==> exists|outcome: Result<Response, Error>|
                        {
                            &&& #[trigger] router.answers(old(self)@.request->Some_0, outcome)
                            &&& action->Send_0@ == wire(reply(outcome))
                        }
                },
                (State::Dispatching, Event::HandlerFailed) => {
                    &&& action is Send
                    &&& final(self)@.state == State::Writing
                    &&& action->Send_0@ == wire(failure_reply(500))
                },
                _ => action is Close && final(self)@ == closed(old(self)@),
            },
    {
        match (self.state, event) {
            (State::Reading, Event::Received(bytes)) => {
                let mut bytes = bytes;
                self.buffer.append(&mut bytes);
                match parse_request(self.buffer.as_slice()) {
                    Ok(None) => Action::Receive,
                    Ok(Some(request)) => {
                        self.request = Some(request);
                        self.state = State::Framed;
                        Action::Dispatch
                    },
                    Err(e) => {
                        self.failure = Some(e);
                        self.state = State::Closed;
                        Action::Close
                    },
                }
            },
            (State::Framed, Event::Dispatch) => {
                self.state = State::Dispatching;
                let outcome = match self.request.take() {
                    Some(request) => router.handle(request),
                    None => Err(Error::Internal(String::new())),
                };
                let bytes = match &outcome {
                    Ok(response) => response.to_bytes(),
                    Err(e) => error_response(e).to_bytes(),
                };
                self.state = State::Writing;
                assert(bytes@ == wire(reply(outcome)));
                Action::Send(bytes)
            },
            (State::Dispatching, Event::HandlerFailed) => {
                let bytes = error_response(&Error::Internal(String::new())).to_bytes();
                self.state = State::Writing;
                Action::Send(bytes)
            },
            _ => {
                self.state = State::Closed;
                Action::Close
            },
        }
    }
}

} // verus!
