//! The Session Manager: the lifecycle of the single remote event-stream
//! connection.
//!
//! A four-state machine — Disconnected, Connecting, AuthPending,
//! Subscribed — decides everything: when to open the socket, when to
//! send the authentication frame and the one fixed subscription request,
//! which inbound frames to forward, and when to tear the session down.
//! The surrounding loop only performs the actions the machine hands out
//! and feeds the outcomes back in.

use vstd::prelude::*;

use crate::jsontext::quoted;
use crate::jsonval::JsonNode;
use crate::jsonval::is_auth_ok;
use crate::jsonval::is_auth_ok_node;
use crate::jsonval::json_of;
use crate::jsonval::parse_json;
use crate::text::push_char;

verus! {

/// How long to wait after a failed socket open before trying again, in
/// milliseconds.
pub const CONNECT_RETRY_MS: u64 = 250;

/// The connection lifecycle states.
#[derive(Debug, Clone, Copy, PartialEq, Eq, Structural)]
pub enum SessionState {
    Disconnected,
    Connecting,
    AuthPending,
    Subscribed,
}

/// A command another thread queues for the Session Manager.
#[derive(Debug, Clone, PartialEq)]
pub enum SocketCmd {
    Reconnect,
    SendString(String),
    SendJson(String),
}

/// What the surrounding loop reports into the machine: a loop turn with
/// no live session, the outcome of a socket open, a transport failure,
/// an explicit remote disconnect, or an inbound text frame.
#[derive(Debug, Clone, PartialEq)]
pub enum SessionInput {
    Tick,
    OpenOk,
    OpenFailed,
    TransportError,
    Disconnected,
    TextFrame(String),
}

/// What the machine asks the surrounding loop to do next.
#[derive(Debug, PartialEq)]
pub enum SessionAction {
    OpenSocket,
    Backoff,
    SendFrame(String),
    Forward(JsonNode),
}

/// A `SessionAction` with its frame text abstracted, for contracts.
pub enum ActionView {
    OpenSocket,
    Backoff,
    SendFrame(Seq<char>),
    Forward(JsonNode),
}

/// The abstraction of one action.
pub open spec fn action_view(a: SessionAction) -> ActionView {
    match a {
        SessionAction::OpenSocket => ActionView::OpenSocket,
        SessionAction::Backoff => ActionView::Backoff,
        SessionAction::SendFrame(s) => ActionView::SendFrame(s@),
        SessionAction::Forward(n) => ActionView::Forward(n),
    }
}

/// The abstraction of an optional action.
pub open spec fn opt_action_view(a: Option<SessionAction>) -> Option<ActionView> {
    match a {
        Some(x) => Some(action_view(x)),
        None => None,
    }
}

/// The authentication frame: the static credential quoted into a fixed
/// shape.
pub open spec fn auth_frame_text(token: Seq<char>) -> Seq<char> {
    "{\"type\":\"auth\",\"access_token\":"@ + quoted(token) + "}"@
}

/// The one subscription request, carrying its fixed, well-known
/// identifier of forty-two.
pub open spec fn subscribe_frame_text() -> Seq<char> {
    "{\"id\":42,\"type\":\"subscribe_events\"}"@
}

/// The whole transition relation of the Session Manager, one input at a
/// time:
/// - a loop turn while Disconnected starts a socket open;
/// - a successful open sends the authentication frame and awaits its
///   acknowledgment;
/// - a failed open waits out the fixed backoff, still disconnected;
/// - a transport error or an explicit disconnect tears the session down
///   from any state;
/// - a text frame that does not decode is dropped silently;
/// - the acknowledgment frame, awaited, sends the subscription request
///   and enters the steady state; already handled, it does nothing;
/// - any other decoded frame is forwarded verbatim, but only in the
///   steady state.
pub open spec fn session_step(st: SessionState, token: Seq<char>, input: SessionInput) -> (
    SessionState,
    Option<ActionView>,
) {
    match input {
        SessionInput::Tick => if st is Disconnected {
            (SessionState::Connecting, Some(ActionView::OpenSocket))
        } else {
            (st, None)
        },
        SessionInput::OpenOk => if st is Connecting {
            (SessionState::AuthPending, Some(ActionView::SendFrame(auth_frame_text(token))))
        } else {
            (st, None)
        },
        SessionInput::OpenFailed => if st is Connecting {
            (SessionState::Disconnected, Some(ActionView::Backoff))
        } else {
            (st, None)
        },
        SessionInput::TransportError => (SessionState::Disconnected, None),
        SessionInput::Disconnected => (SessionState::Disconnected, None),
        SessionInput::TextFrame(s) => match json_of(s@) {
            None => (st, None),
            Some(n) => if is_auth_ok(n) {
                if st is AuthPending {
                    (SessionState::Subscribed, Some(ActionView::SendFrame(subscribe_frame_text())))
                } else {
                    (st, None)
                }
            } else {
                if st is Subscribed {
                    (st, Some(ActionView::Forward(n)))
                } else {
                    (st, None)
                }
            },
        },
    }
}

/// What queued commands do: a reconnect signal tears the session down
/// from any state; a payload send goes out over a live, authenticating
/// or subscribed session and is dropped — not queued — while none
/// exists.
pub open spec fn session_command(st: SessionState, cmd: SocketCmd) -> (
    SessionState,
    Option<ActionView>,
) {
    match cmd {
        SocketCmd::Reconnect => (SessionState::Disconnected, None),
        SocketCmd::SendString(s) => if st is AuthPending || st is Subscribed {
            (st, Some(ActionView::SendFrame(s@)))
        } else {
            (st, None)
        },
        SocketCmd::SendJson(s) => if st is AuthPending || st is Subscribed {
            (st, Some(ActionView::SendFrame(s@)))
        } else {
            (st, None)
        },
    }
}

/// The Session Manager's own state: where in the lifecycle it stands,
/// and the static credential it authenticates with.
pub struct SessionMachine {
    state: SessionState,
    token: String,
}

impl SessionMachine {
    /// The lifecycle state.
    pub closed spec fn state(self) -> SessionState {
        self.state
    }

    /// The static credential.
    pub closed spec fn token(self) -> Seq<char> {
        self.token@
    }

    /// A fresh manager: disconnected, holding the credential.
    pub fn new(token: String) -> (r: SessionMachine)
        ensures
            r.state() == SessionState::Disconnected,
            r.token() == token@,
    {
        SessionMachine { state: SessionState::Disconnected, token }
    }

    /// The lifecycle state, readable.
    pub fn current_state(&self) -> (r: SessionState)
        ensures
            r == self.state(),
    {
        self.state
    }

    /// Builds the authentication frame around the credential.
    fn auth_frame(&self) -> (r: String)
        ensures
            r@ == auth_frame_text(self.token@),
    {
        let mut r = ("{\"type\":\"auth\",\"access_token\":").to_owned();
        crate::jsontext::append_quoted(&mut r, self.token.as_str());
        push_char(&mut r, '}');
        proof {
            reveal_strlit("}");
            assert(r@ =~= auth_frame_text(self.token@));
        }
        r
    }

    /// Feeds one input through the transition relation, exactly as
    /// `session_step` describes, and hands back the action to perform.
    pub fn step(&mut self, input: SessionInput) -> (act: Option<SessionAction>)
        ensures
            final(self).token() == old(self).token(),
            (final(self).state(), opt_action_view(act)) == session_step(
                old(self).state(),
                old(self).token(),
                input,
            ),
    {
        match input {
            SessionInput::Tick => {
                if matches!(self.state, SessionState::Disconnected) {
                    self.state = SessionState::Connecting;
                    Some(SessionAction::OpenSocket)
                } else {
                    None
                }
            },
            SessionInput::OpenOk => {
                if matches!(self.state, SessionState::Connecting) {
                    self.state = SessionState::AuthPending;
                    let frame = self.auth_frame();
                    Some(SessionAction::SendFrame(frame))
                } else {
                    None
                }
            },
            SessionInput::OpenFailed => {
                if matches!(self.state, SessionState::Connecting) {
                    self.state = SessionState::Disconnected;
                    Some(SessionAction::Backoff)
                } else {
                    None
                }
            },
            SessionInput::TransportError => {
                self.state = SessionState::Disconnected;
                None
            },
            SessionInput::Disconnected => {
                self.state = SessionState::Disconnected;
                None
            },
            SessionInput::TextFrame(s) => {
                match parse_json(s.as_str()) {
                    None => None,
                    Some(n) => {
                        if is_auth_ok_node(&n) {
                            if matches!(self.state, SessionState::AuthPending) {
                                self.state = SessionState::Subscribed;
                                Some(
                                    SessionAction::SendFrame(
                                        ("{\"id\":42,\"type\":\"subscribe_events\"}").to_owned(),
                                    ),
                                )
                            } else {
                                None
                            }
                        } else {
                            if matches!(self.state, SessionState::Subscribed) {
                                Some(SessionAction::Forward(n))
                            } else {
                                None
                            }
                        }
                    },
                }
            },
        }
    }

    /// Applies one queued command, exactly as `session_command`
    /// describes.
    pub fn command(&mut self, cmd: SocketCmd) -> (act: Option<SessionAction>)
        ensures
            final(self).token() == old(self).token(),
            (final(self).state(), opt_action_view(act)) == session_command(
                old(self).state(),
                cmd,
            ),
    {
        match cmd {
            SocketCmd::Reconnect => {
                self.state = SessionState::Disconnected;
                None
            },
            SocketCmd::SendString(s) => {
                if matches!(self.state, SessionState::AuthPending)
                    || matches!(self.state, SessionState::Subscribed) {
                    Some(SessionAction::SendFrame(s))
                } else {
                    None
                }
            },
            SocketCmd::SendJson(s) => {
                if matches!(self.state, SessionState::AuthPending)
                    || matches!(self.state, SessionState::Subscribed) {
                    Some(SessionAction::SendFrame(s))
                } else {
                    None
                }
            },
        }
    }

    /// Reports how a payload send went: a failure is treated exactly
    /// like a transport error, tearing the session down.
    pub fn send_result(&mut self, ok: bool)
        ensures
            final(self).token() == old(self).token(),
            final(self).state() == if ok {
                old(self).state()
            } else {
                SessionState::Disconnected
            },
    {
        if !ok {
            self.state = SessionState::Disconnected;
        }
    }
}

} // verus!
