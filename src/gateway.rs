//! The hub's side of the tunnel: proxy requests addressed to a connection,
//! the agents' callbacks that answer them, and inbound frames from the
//! connections.

use vstd::prelude::*;
use crate::correlator::{
    begin_state, complete_state, finish_answer, finish_state, holds_uuid_id, is_waiting,
    Correlator,
};
use crate::protocol::{command_frame, encode_command, is_json, is_uuid_text, json_well_formed, Frame};
use crate::registry::{broadcast_state, is_registered, remove_state, send_state, Registry};
use crate::text::{decimal, is_numeral, numeral_value, parse_decimal, render_decimal};

verus! {

/// A connection identifier in a request path was not a decimal number.
pub struct ParseError;

/// A callback named a correlation id that is not waiting for an answer.
pub struct RequestIdNotFound;

/// What the hub reports to an external caller.
pub enum GatewayError {
    /// The addressed connection is not registered.
    TargetNotFound,
    /// The connection identifier in the path is malformed.
    InvalidIdentifier(ParseError),
    /// The callback's correlation id is unknown, answered or expired.
    RequestIdNotFound(RequestIdNotFound),
    /// No answer came within the wait.
    UpstreamTimeout,
    /// The callback's body is not JSON.
    MalformedAnswer,
    /// Anything else.
    Internal,
}

pub open spec fn status_of(e: GatewayError) -> u16 {
    match e {
        GatewayError::TargetNotFound => 404,
        GatewayError::InvalidIdentifier(_) => 400,
        GatewayError::RequestIdNotFound(_) => 400,
        GatewayError::UpstreamTimeout => 504,
        GatewayError::MalformedAnswer => 400,
        GatewayError::Internal => 500,
    }
}

pub open spec fn reason_of(e: GatewayError) -> Seq<char> {
    match e {
        GatewayError::TargetNotFound => "NOT_FOUND"@,
        GatewayError::InvalidIdentifier(_) => "Invalid ID Format"@,
        GatewayError::RequestIdNotFound(_) => "The supplied request_id was not found."@,
        GatewayError::UpstreamTimeout => "UPSTREAM_TIMEOUT"@,
        GatewayError::MalformedAnswer => "MALFORMED_ANSWER"@,
        GatewayError::Internal => "UNHANDLED_REJECTION"@,
    }
}

impl GatewayError {
    /// The HTTP status that the error maps to.
    pub fn status(&self) -> (r: u16)
        ensures
            r == status_of(*self),
    {
        match self {
            GatewayError::TargetNotFound => 404,
            GatewayError::InvalidIdentifier(_) => 400,
            GatewayError::RequestIdNotFound(_) => 400,
            GatewayError::UpstreamTimeout => 504,
            GatewayError::MalformedAnswer => 400,
            GatewayError::Internal => 500,
        }
    }

    /// The short machine-readable reason that goes with the status.
    pub fn reason(&self) -> (r: String)
        ensures
            r@ == reason_of(*self),
    {
        match self {
            GatewayError::TargetNotFound => String::from_str("NOT_FOUND"),
            GatewayError::InvalidIdentifier(_) => String::from_str("Invalid ID Format"),
            GatewayError::RequestIdNotFound(_) => String::from_str(
                "The supplied request_id was not found.",
            ),
            GatewayError::UpstreamTimeout => String::from_str("UPSTREAM_TIMEOUT"),
            GatewayError::MalformedAnswer => String::from_str("MALFORMED_ANSWER"),
            GatewayError::Internal => String::from_str("UNHANDLED_REJECTION"),
        }
    }
}

/// Reads a connection identifier out of a request path segment.
pub fn parse_connection_id(s: &str) -> (r: Result<u64, ParseError>)
    ensures
        r is Ok <==> is_numeral(s@) && numeral_value(s@) <= u64::MAX,
        r matches Ok(n) ==> n == numeral_value(s@),
{
    match parse_decimal(s, u64::MAX) {
        Some(n) => Ok(n),
        None => Err(ParseError),
    }
}

/// The text relayed to the other connections when connection `id` sends
/// `msg`: `<User#id>: msg`.
pub open spec fn relay_text(id: u64, msg: Seq<char>) -> Seq<char> {
    seq!['<', 'U', 's', 'e', 'r', '#'] + decimal(id as nat) + seq!['>', ':', ' '] + msg
}

/// The relayed text for `msg` from connection `id`.
pub fn relay_message(id: u64, msg: &str) -> (r: String)
    ensures
        r@ == relay_text(id, msg@),
{
    proof {
        reveal_strlit("<User#");
        reveal_strlit(">: ");
    }
    let mut r = String::from_str("<User#");
    let digits = render_decimal(id);
    r.append(digits.as_str());
    r.append(">: ");
    r.append(msg);
    assert(r@ =~= relay_text(id, msg@));
    r
}

/// The hub's shared state: the connection registry and the table of
/// in-flight requests.
pub struct Hub {
    pub registry: Registry,
    pub correlator: Correlator,
}

impl Hub {
    pub open spec fn wf(&self) -> bool {
        self.registry.wf() && self.correlator.wf()
    }

    /// A hub with no connections and no requests.
    pub fn new() -> (r: Hub)
        ensures
            r.wf(),
            r.registry@.next_id == 1,
            r.registry@.conns.len() == 0,
            r.correlator@.len() == 0,
    {
        Hub { registry: Registry::new(), correlator: Correlator::new() }
    }

    /// Starts a proxy request to connection `target` at time `now`: opens a
    /// request under a fresh correlation id, queues the command that carries
    /// it for the target, and returns the id to wait on. A malformed or
    /// unregistered target changes nothing; so does the rare draw of an id
    /// that is still in use, reported as `Internal`, which can only happen
    /// while some pending request is under an id in UUID form.
    pub fn proxy_request(&mut self, target: &str, now: u64) -> (r: Result<String, GatewayError>)
        requires
            old(self).wf(),
        ensures
            final(self).wf(),
            !(is_numeral(target@) && numeral_value(target@) <= u64::MAX) ==> r matches Err(
                GatewayError::InvalidIdentifier(_),
            ),
            is_numeral(target@) && numeral_value(target@) <= u64::MAX ==> {
                let t = numeral_value(target@) as u64;
                &&& (!is_registered(old(self).registry@, t) ==> (r matches Err(
                    GatewayError::TargetNotFound,
                )))
                &&& (is_registered(old(self).registry@, t) ==> (r is Ok || (r matches Err(
                    GatewayError::Internal,
                ))))
                &&& ((r matches Err(GatewayError::Internal)) ==> holds_uuid_id(
                    old(self).correlator@,
                ))
                &&& (r matches Ok(id) ==> {
                    &&& is_uuid_text(id@)
                    &&& final(self).correlator@ == begin_state(old(self).correlator@, id@, now)
                    &&& final(self).registry@ == send_state(
                        old(self).registry@,
                        t,
                        command_frame(id@),
                    )
                })
            },
            r is Err ==> final(self).registry@ == old(self).registry@ && final(self).correlator@
                == old(self).correlator@,
    {
        let t = match parse_connection_id(target) {
            Ok(t) => t,
            Err(e) => {
                return Err(GatewayError::InvalidIdentifier(e));
            },
        };
        if !self.registry.contains(t) {
            return Err(GatewayError::TargetNotFound);
        }
        let id = match self.correlator.begin(now) {
            Ok(id) => id,
            Err(_) => {
                return Err(GatewayError::Internal);
            },
        };
        let command = encode_command(id.as_str());
        let _sent = self.registry.send(t, command.as_str());
        Ok(id)
    }

    /// Ends the wait on correlation id `id`: the request leaves the table, and
    /// the caller gets the agent's answer, or `UpstreamTimeout` if none came.
    pub fn proxy_outcome(&mut self, id: &str) -> (r: Result<Vec<u8>, GatewayError>)
        requires
            old(self).wf(),
        ensures
            final(self).wf(),
            final(self).registry@ == old(self).registry@,
            final(self).correlator@ == finish_state(old(self).correlator@, id@),
            match r {
                Ok(a) => finish_answer(old(self).correlator@, id@) == Some(a@),
                Err(e) => e is UpstreamTimeout && finish_answer(old(self).correlator@, id@) is None,
            },
    {
        match self.correlator.finish(id) {
            Ok(a) => Ok(a),
            Err(_) => Err(GatewayError::UpstreamTimeout),
        }
    }

    /// Takes an agent's answer for correlation id `id`, given whether `body`
    /// is well-formed JSON: a malformed body is refused first, then an id that
    /// is not waiting.
    pub fn accept_answer(&mut self, id: &str, body: Vec<u8>, well_formed: bool) -> (r: Result<
        (),
        GatewayError,
    >)
        requires
            old(self).wf(),
        ensures
            final(self).wf(),
            final(self).registry@ == old(self).registry@,
            !well_formed ==> r matches Err(GatewayError::MalformedAnswer),
            well_formed && !is_waiting(old(self).correlator@, id@) ==> r matches Err(
                GatewayError::RequestIdNotFound(_),
            ),
            well_formed && is_waiting(old(self).correlator@, id@) ==> r is Ok,
            r is Ok ==> final(self).correlator@ == complete_state(
                old(self).correlator@,
                id@,
                body@,
            ),
            r is Err ==> final(self).correlator@ == old(self).correlator@,
    {
        if !well_formed {
            return Err(GatewayError::MalformedAnswer);
        }
        match self.correlator.complete(id, body) {
            Ok(()) => Ok(()),
            Err(_) => Err(GatewayError::RequestIdNotFound(RequestIdNotFound)),
        }
    }

    /// An agent's callback: answers the request under `id` with `body`.
    pub fn agent_callback(&mut self, id: &str, body: Vec<u8>) -> (r: Result<(), GatewayError>)
        requires
            old(self).wf(),
        ensures
            final(self).wf(),
            final(self).registry@ == old(self).registry@,
            !json_well_formed(body@) ==> r matches Err(GatewayError::MalformedAnswer),
            json_well_formed(body@) && !is_waiting(old(self).correlator@, id@) ==> r matches Err(
                GatewayError::RequestIdNotFound(_),
            ),
            json_well_formed(body@) && is_waiting(old(self).correlator@, id@) ==> r is Ok,
            r is Ok ==> final(self).correlator@ == complete_state(
                old(self).correlator@,
                id@,
                body@,
            ),
            r is Err ==> final(self).correlator@ == old(self).correlator@,
    {
        let well_formed = is_json(body.as_slice());
        self.accept_answer(id, body, well_formed)
    }

    /// Handles one frame read from connection `conn`: text is relayed to every
    /// other connection, a close frame ends the connection, and other frames
    /// are ignored. Returns whether the connection goes on.
    pub fn on_frame(&mut self, conn: u64, frame: &Frame) -> (r: bool)
        requires
            old(self).wf(),
        ensures
            final(self).wf(),
            final(self).correlator@ == old(self).correlator@,
            match frame {
                Frame::Text(t) => r && final(self).registry@ == broadcast_state(
                    old(self).registry@,
                    conn,
                    relay_text(conn, t@),
                ),
                Frame::Close => !r && final(self).registry@ == remove_state(
                    old(self).registry@,
                    conn,
                ),
                _ => r && final(self).registry@ == old(self).registry@,
            },
    {
        match frame {
            Frame::Text(t) => {
                let msg = relay_message(conn, t.as_str());
                self.registry.broadcast(conn, msg.as_str());
                true
            },
            Frame::Close => {
                self.registry.remove(conn);
                false
            },
            _ => true,
        }
    }

    /// Connection `conn`'s reader ended: it leaves the registry. Doing so
    /// twice is harmless.
    pub fn disconnect(&mut self, conn: u64)
        requires
            old(self).wf(),
        ensures
            final(self).wf(),
            final(self).correlator@ == old(self).correlator@,
            final(self).registry@ == remove_state(old(self).registry@, conn),
    {
        self.registry.remove(conn);
    }
}

} // verus!
