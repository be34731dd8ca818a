//! The life of one client session, as a state machine: the caller performs
//! each action on its sockets and hands back what happened.

use crate::address::ListenerConfig;
use crate::head::asks_for_tunnel;
use crate::head::asks_for_tunnel_of;
use crate::head::parse_head;
use crate::head::proxy_request_of;
use crate::head::ProxyRequest;
use crate::head::ProxyRequestModel;
use crate::request::ProtocolError;
use crate::request::route;
use crate::request::route_of;
use crate::request::ProxyMode;
use vstd::prelude::*;

verus! {

/// Why an outbound connection could not be opened.
#[derive(Clone, Copy, Debug, PartialEq, Eq, Structural)]
pub enum DialError {
    /// The host name did not resolve.
    Resolution,
    /// The target refused the connection.
    Refused,
    /// The target did not answer in time.
    Timeout,
    /// No route leads from the egress address to the target.
    Unreachable,
}

/// A response that the proxy writes itself.
#[derive(Clone, Copy, Debug, PartialEq, Eq, Structural)]
pub enum Reply {
    /// The tunnel stands.
    Established,
    /// The request could not be understood.
    BadRequest,
    /// The target could not be reached.
    BadGateway,
    /// The target did not answer in time.
    GatewayTimeout,
}

/// The status code of a reply.
pub open spec fn status_of(reply: Reply) -> u16 {
    match reply {
        Reply::Established => 200,
        Reply::BadRequest => 400,
        Reply::BadGateway => 502,
        Reply::GatewayTimeout => 504,
    }
}

/// The text of a reply on the wire: a status line and an empty line.
pub open spec fn reply_text_of(reply: Reply) -> Seq<char> {
    match reply {
        Reply::Established => "HTTP/1.1 200 Connection Established\r\n\r\n"@,
        Reply::BadRequest => "HTTP/1.1 400 Bad Request\r\n\r\n"@,
        Reply::BadGateway => "HTTP/1.1 502 Bad Gateway\r\n\r\n"@,
        Reply::GatewayTimeout => "HTTP/1.1 504 Gateway Timeout\r\n\r\n"@,
    }
}

/// The reply that answers a failed dial of a plain request.
pub open spec fn dial_failure_reply(error: DialError) -> Reply {
    if error == DialError::Timeout {
        Reply::GatewayTimeout
    } else {
        Reply::BadGateway
    }
}

impl Reply {
    /// The status code of the reply.
    pub fn status(self) -> (r: u16)
        ensures
            r == status_of(self),
    {
        match self {
            Reply::Established => 200,
            Reply::BadRequest => 400,
            Reply::BadGateway => 502,
            Reply::GatewayTimeout => 504,
        }
    }

    /// The text of the reply on the wire.
    pub fn text(self) -> (r: &'static str)
        ensures
            r@ == reply_text_of(self),
    {
        match self {
            Reply::Established => "HTTP/1.1 200 Connection Established\r\n\r\n",
            Reply::BadRequest => "HTTP/1.1 400 Bad Request\r\n\r\n",
            Reply::BadGateway => "HTTP/1.1 502 Bad Gateway\r\n\r\n",
            Reply::GatewayTimeout => "HTTP/1.1 504 Gateway Timeout\r\n\r\n",
        }
    }
}

/// The reply that answers a failed dial of a plain request: 504 after a
/// timeout, 502 otherwise.
pub fn classify_dial_failure(error: DialError) -> (r: Reply)
    ensures
        r == dial_failure_reply(error),
{
    match error {
        DialError::Timeout => Reply::GatewayTimeout,
        _ => Reply::BadGateway,
    }
}

/// Where a session stands.
#[derive(Clone, Copy, Debug, PartialEq, Eq, Structural)]
pub enum SessionState {
    /// The request has not been read yet.
    AwaitingRequest,
    /// The outbound connection is being opened.
    Dialing(ProxyMode),
    /// Bytes flow between client and target.
    Relaying,
    /// The session is over.
    Closed,
}

/// What happened on the session's sockets.
#[derive(Clone, Debug, PartialEq, Eq)]
pub enum Event {
    /// The head of the request arrived, up to and with its empty line.
    Request(Vec<u8>),
    /// No request could be read: it was too long, too late or cut off.
    RequestUnreadable,
    /// The outbound connection stands.
    Connected,
    /// The outbound connection could not be opened.
    DialFailed(DialError),
    /// Both directions of the relay have ended.
    RelayEnded,
}

/// What the caller does next.
#[derive(Clone, Debug, PartialEq, Eq)]
pub enum Action {
    /// Open a connection to `host:port` from the local address `local`.
    Dial { host: Vec<u8>, port: u16, local: [u8; 16] },
    /// Write the reply to the client and close.
    Respond(Reply),
    /// Tell the client that the tunnel stands, then relay.
    Establish,
    /// Send the request on to the target, then relay.
    Forward,
    /// Close without a word.
    Close,
}

pub enum EventModel {
    Request(Seq<u8>),
    RequestUnreadable,
    Connected,
    DialFailed(DialError),
    RelayEnded,
}

pub enum ActionModel {
    Dial { host: Seq<u8>, port: u16, local: Seq<u8> },
    Respond(Reply),
    Establish,
    Forward,
    Close,
}

impl View for Event {
    type V = EventModel;

    open spec fn view(&self) -> EventModel {
        match self {
            Event::Request(line) => EventModel::Request(line@),
            Event::RequestUnreadable => EventModel::RequestUnreadable,
            Event::Connected => EventModel::Connected,
            Event::DialFailed(e) => EventModel::DialFailed(*e),
            Event::RelayEnded => EventModel::RelayEnded,
        }
    }
}

impl View for Action {
    type V = ActionModel;

    open spec fn view(&self) -> ActionModel {
        match self {
            Action::Dial { host, port, local } => ActionModel::Dial {
                host: host@,
                port: *port,
                local: local@,
            },
            Action::Respond(reply) => ActionModel::Respond(*reply),
            Action::Establish => ActionModel::Establish,
            Action::Forward => ActionModel::Forward,
            Action::Close => ActionModel::Close,
        }
    }
}

/// How a request that cannot be served is turned down: a tunnel request
/// by closing without a reply, any other with 400.
pub open spec fn refusal(tunnel: bool) -> (SessionState, ActionModel) {
    if tunnel {
        (SessionState::Closed, ActionModel::Close)
    } else {
        (SessionState::Closed, ActionModel::Respond(Reply::BadRequest))
    }
}

/// What the head of a request leads to. A request with a target that can be
/// dialed is dialed from the egress address. A head that cannot be read, or
/// a target that cannot be dialed, is turned down.
pub open spec fn on_request(egress: Seq<u8>, head: Seq<u8>) -> (SessionState, ActionModel) {
    match proxy_request_of(head) {
        Ok(request) => match route_of(request.method, request.target) {
            Some(t) => (
                SessionState::Dialing(t.0),
                ActionModel::Dial { host: t.1, port: t.2, local: egress },
            ),
            None => refusal(asks_for_tunnel_of(head)),
        },
        Err(_) => refusal(asks_for_tunnel_of(head)),
    }
}

/// The next state and the action for an event. An event that the state does
/// not expect closes the session.
pub open spec fn step_of(egress: Seq<u8>, state: SessionState, event: EventModel) -> (
    SessionState,
    ActionModel,
) {
    match (state, event) {
        (SessionState::AwaitingRequest, EventModel::Request(head)) => on_request(egress, head),
        (SessionState::AwaitingRequest, EventModel::RequestUnreadable) => (
            SessionState::Closed,
            ActionModel::Respond(Reply::BadRequest),
        ),
        (SessionState::Dialing(ProxyMode::Tunnel), EventModel::Connected) => (
            SessionState::Relaying,
            ActionModel::Establish,
        ),
        (SessionState::Dialing(ProxyMode::Direct), EventModel::Connected) => (
            SessionState::Relaying,
            ActionModel::Forward,
        ),
        (SessionState::Dialing(ProxyMode::Direct), EventModel::DialFailed(e)) => (
            SessionState::Closed,
            ActionModel::Respond(dial_failure_reply(e)),
        ),
        _ => (SessionState::Closed, ActionModel::Close),
    }
}

fn refuse(head: &[u8]) -> (r: (SessionState, Action))
    ensures
        (r.0, r.1@) == refusal(asks_for_tunnel_of(head@)),
{
    if asks_for_tunnel(head) {
        (SessionState::Closed, Action::Close)
    } else {
        (SessionState::Closed, Action::Respond(Reply::BadRequest))
    }
}

fn start(config: &ListenerConfig, head: &[u8]) -> (r: (SessionState, Action))
    ensures
        (r.0, r.1@) == on_request(config.egress@, head@),
{
    let request: ProxyRequest = match parse_head(head) {
        Ok(request) => request,
        Err(_) => {
            return refuse(head);
        },
    };
    match route(&request.line) {
        Ok(found) => (
            SessionState::Dialing(found.mode),
            Action::Dial { host: found.target.host, port: found.target.port, local: config.egress },
        ),
        Err(_) => refuse(head),
    }
}

/// The next state of a session and the action that the caller performs.
pub fn step(config: &ListenerConfig, state: SessionState, event: &Event) -> (r: (
    SessionState,
    Action,
))
    ensures
        (r.0, r.1@) == step_of(config.egress@, state, event@),
{
    match (state, event) {
        (SessionState::AwaitingRequest, Event::Request(head)) => start(config, head.as_slice()),
        (SessionState::AwaitingRequest, Event::RequestUnreadable) => (
            SessionState::Closed,
            Action::Respond(Reply::BadRequest),
        ),
        (SessionState::Dialing(ProxyMode::Tunnel), Event::Connected) => (
            SessionState::Relaying,
            Action::Establish,
        ),
        (SessionState::Dialing(ProxyMode::Direct), Event::Connected) => (
            SessionState::Relaying,
            Action::Forward,
        ),
        (SessionState::Dialing(ProxyMode::Direct), Event::DialFailed(e)) => (
            SessionState::Closed,
            Action::Respond(classify_dial_failure(*e)),
        ),
        _ => (SessionState::Closed, Action::Close),
    }
}

/// Whatever the state and the event, a session dials only from the egress
/// address of its listener.
pub proof fn lemma_dial_uses_egress(egress: Seq<u8>, state: SessionState, event: EventModel)
    ensures
        match step_of(egress, state, event).1 {
            ActionModel::Dial { local, .. } => local == egress,
            _ => true,
        },
{
}

/// The client is told that a tunnel stands only when a tunnel was being
/// dialed and the connection was opened: never after a failed dial.
pub proof fn lemma_established_only_after_connect(
    egress: Seq<u8>,
    state: SessionState,
    event: EventModel,
)
    ensures
        step_of(egress, state, event).1 == ActionModel::Establish ==> state
            == SessionState::Dialing(ProxyMode::Tunnel) && event == EventModel::Connected,
        step_of(egress, state, event).1 != ActionModel::Respond(Reply::Established),
{
}

/// A failed dial ends the session: without a reply for a tunnel, with 502
/// or 504 for a plain request.
pub proof fn lemma_dial_failure(egress: Seq<u8>, mode: ProxyMode, error: DialError)
    ensures
        step_of(egress, SessionState::Dialing(mode), EventModel::DialFailed(error)).0
            == SessionState::Closed,
        mode == ProxyMode::Tunnel ==> step_of(
            egress,
            SessionState::Dialing(mode),
            EventModel::DialFailed(error),
        ).1 == ActionModel::Close,
        mode == ProxyMode::Direct ==> exists|reply: Reply|
            #![auto]
            step_of(egress, SessionState::Dialing(mode), EventModel::DialFailed(error)).1
                == ActionModel::Respond(reply) && (status_of(reply) == 502 || status_of(reply)
                == 504),
{
    if mode == ProxyMode::Direct {
        let reply = dial_failure_reply(error);
        assert(step_of(egress, SessionState::Dialing(mode), EventModel::DialFailed(error)).1
            == ActionModel::Respond(reply));
        assert(status_of(reply) == 502 || status_of(reply) == 504);
    }
}

/// A request whose head cannot be read, be it for its request line or for
/// a header, ends the session at once: with 400, or, where its first line
/// asks for a tunnel, without a reply. Without a well-formed request line
/// it is always 400.
pub proof fn lemma_malformed_request(egress: Seq<u8>, head: Seq<u8>)
    requires
        proxy_request_of(head) is Err,
    ensures
        step_of(egress, SessionState::AwaitingRequest, EventModel::Request(head)).0
            == SessionState::Closed,
        step_of(egress, SessionState::AwaitingRequest, EventModel::Request(head)).1 == (
        if asks_for_tunnel_of(head) {
            ActionModel::Close
        } else {
            ActionModel::Respond(Reply::BadRequest)
        }),
        proxy_request_of(head) != Err::<ProxyRequestModel, ProtocolError>(
            ProtocolError::MalformedHeader,
        ) ==> !asks_for_tunnel_of(head),
{
}

/// A closed session stays closed and does nothing more.
pub proof fn lemma_closed_is_final(egress: Seq<u8>, event: EventModel)
    ensures
        step_of(egress, SessionState::Closed, event) == (SessionState::Closed, ActionModel::Close),
{
}

} // verus!
