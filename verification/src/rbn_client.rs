use vstd::prelude::*;
use vstd::string::*;
use crate::models::RawSpot;
use crate::spot_parser::{parse_line_spec, parse_spot_line, spot_matches};

verus! {

// The connection manager owns at most one socket to the spotting network,
// logs in with the operator's callsign, and turns feed lines into events.
// All of its decisions live in `conn_step`, a pure function from the current
// state and one happening to the next state, the events to publish and the
// one socket action to perform.  The surrounding task performs the socket
// work and feeds the outcome back in as the next event.

/// Remote endpoint of the spotting network.
pub const RBN_HOST: &'static str = "rbn.telegraphy.de";

pub const RBN_PORT: u16 = 7000;

/// Messages sent from the client to the consuming application.
#[derive(Debug, Clone)]
pub enum RbnMessage {
    Status(String),
    Spot(RawSpot),
    Disconnected,
}

/// Commands sent to the client.
#[derive(Debug)]
pub enum RbnCommand {
    Connect(String),
    Disconnect,
}

/// Where the connection stands.
#[derive(Debug)]
pub enum ConnState {
    /// No socket.
    Idle,
    /// A connection attempt is under way.
    Connecting { callsign: String },
    /// Connected; reading lines until the login prompt arrives, then waiting
    /// for the callsign write to finish once `sent` is set.
    LoggingIn { callsign: String, sent: bool },
    /// Logged in and reading spot lines.
    Streaming,
}

/// One happening the state machine reacts to: a command from the consumer,
/// or the outcome of the socket work the surrounding task performed.
#[derive(Debug)]
pub enum ConnEvent {
    Command(RbnCommand),
    /// The connection attempt succeeded.
    Opened,
    /// The connection attempt failed, with the error's text.
    OpenFailed(String),
    /// One line arrived from the socket.
    Line(String),
    /// The socket reached end of stream.
    Closed,
    /// A read failed, with the error's text.
    ReadError(String),
    /// The callsign write finished.
    WriteOk,
    /// The callsign write failed, with the error's text.
    WriteFailed(String),
}

/// The one piece of socket work the surrounding task must perform next.
#[derive(Debug)]
pub enum ConnAction {
    /// Nothing to do.
    Stay,
    /// Drop any open socket and connect to the fixed remote endpoint.
    OpenSocket,
    /// Write the callsign followed by a line terminator.
    SendCallsign(String),
    /// Drop the socket.
    DropSocket,
}

/// A character matches a lowercase pattern character when it is the same
/// character or its uppercase form.
pub open spec fn match_ci(c: char, p: char) -> bool {
    (c as u32) == (p as u32) || (('a' as u32) <= (p as u32) && (p as u32) <= ('z' as u32) && (c
        as u32) + 32 == (p as u32))
}

pub open spec fn prompt_chars() -> Seq<char> {
    "please enter your call"@
}

/// The login prompt stands at position `i` of the line, case-insensitively.
pub open spec fn prompt_at(s: Seq<char>, i: int) -> bool {
    0 <= i && i + prompt_chars().len() <= s.len() && (forall|k: int|
        0 <= k < prompt_chars().len() ==> match_ci(s[i + k], #[trigger] prompt_chars()[k]))
}

/// The line contains the login prompt, case-insensitively.
pub open spec fn has_prompt(s: Seq<char>) -> bool {
    exists|i: int| prompt_at(s, i)
}

fn match_ci_x(c: char, p: char) -> (b: bool)
    ensures
        b == match_ci(c, p),
{
    let cu = c as u32;
    let pu = p as u32;
    cu == pu || (('a' as u32) <= pu && pu <= ('z' as u32) && cu + 32 == pu)
}

fn prompt_at_x(s: &str, i: usize, n: usize, pat: &str, m: usize) -> (b: bool)
    requires
        n == s@.len(),
        m == pat@.len(),
        pat@ == prompt_chars(),
        i + m <= n,
    ensures
        b == prompt_at(s@, i as int),
{
    let mut k: usize = 0;
    while k < m
        invariant
            n == s@.len(),
            m == pat@.len(),
            pat@ == prompt_chars(),
            i + m <= n,
            k <= m,
            forall|q: int| 0 <= q < k ==> match_ci(s@[i + q], #[trigger] prompt_chars()[q]),
        decreases m - k,
    {
        let c = s.get_char(i + k);
        let p = pat.get_char(k);
        proof {
            assert(pat@[k as int] == prompt_chars()[k as int]);
        }
        if !match_ci_x(c, p) {
            proof {
                assert(!match_ci(s@[i + k], prompt_chars()[k as int]));
                assert(!prompt_at(s@, i as int));
            }
            return false;
        }
        k += 1;
    }
    proof {
        assert(prompt_at(s@, i as int));
    }
    true
}

/// Whether the line contains, case-insensitively, the login prompt of the
/// spotting network.
pub fn line_has_prompt(line: &str) -> (b: bool)
    ensures
        b == has_prompt(line@),
{
    let pat = "please enter your call";
    proof {
        assert(pat@ == prompt_chars());
    }
    let m = pat.unicode_len();
    let n = line.unicode_len();
    if n < m {
        proof {
            assert forall|i: int| !prompt_at(line@, i) by {}
        }
        return false;
    }
    let mut i: usize = 0;
    while i <= n - m
        invariant
            n == line@.len(),
            m == pat@.len(),
            pat@ == prompt_chars(),
            m <= n,
            i <= n - m + 1,
            forall|j: int| 0 <= j < i ==> !prompt_at(line@, j),
        decreases n - i,
    {
        if prompt_at_x(line, i, n, pat, m) {
            return true;
        }
        i += 1;
    }
    proof {
        assert forall|j: int| !prompt_at(line@, j) by {
            if 0 <= j < i {
            }
        }
    }
    false
}

/// One message is a status with exactly this text.
pub open spec fn status_msg(m: RbnMessage, text: Seq<char>) -> bool {
    m matches RbnMessage::Status(t) && t@ == text
}

/// An event that the current state takes no notice of: nothing changes,
/// nothing is published, nothing is to be done.
pub open spec fn untouched(pre: ConnState, post: ConnState, out: Seq<RbnMessage>, act: ConnAction) -> bool {
    post == pre && out.len() == 0 && (act matches ConnAction::Stay)
}

/// The whole behaviour of the connection manager: what one event makes of
/// the current state, which messages it publishes in order, and the socket
/// action it asks for.
pub open spec fn step_spec(
    pre: ConnState,
    ev: ConnEvent,
    post: ConnState,
    out: Seq<RbnMessage>,
    act: ConnAction,
) -> bool {
    match ev {
        ConnEvent::Command(cmd) => match cmd {
            RbnCommand::Connect(cs) => {
                &&& post matches ConnState::Connecting { callsign } && callsign@ == cs@
                &&& out.len() == 1
                &&& status_msg(out[0], "Connecting to rbn.telegraphy.de:7000..."@)
                &&& act matches ConnAction::OpenSocket
            },
            RbnCommand::Disconnect => {
                &&& post matches ConnState::Idle
                &&& out.len() == 2
                &&& status_msg(out[0], "Disconnected"@)
                &&& out[1] matches RbnMessage::Disconnected
                &&& act matches ConnAction::DropSocket
            },
        },
        ConnEvent::Opened => match pre {
            ConnState::Connecting { callsign } => {
                &&& post matches ConnState::LoggingIn { callsign: c2, sent } && c2@ == callsign@
                    && sent == false
                &&& out.len() == 1
                &&& status_msg(out[0], "Connected, waiting for login prompt..."@)
                &&& act matches ConnAction::Stay
            },
            _ => untouched(pre, post, out, act),
        },
        ConnEvent::OpenFailed(e) => match pre {
            ConnState::Connecting { callsign } => {
                &&& post matches ConnState::Idle
                &&& out.len() == 1
                &&& status_msg(out[0], "Connection failed: "@ + e@)
                &&& act matches ConnAction::DropSocket
            },
            _ => untouched(pre, post, out, act),
        },
        ConnEvent::Line(l) => match pre {
            ConnState::LoggingIn { callsign, sent } => {
                if !sent && has_prompt(l@) {
                    &&& post matches ConnState::LoggingIn { callsign: c2, sent: s2 } && c2@
                        == callsign@ && s2 == true
                    &&& out.len() == 0
                    &&& act matches ConnAction::SendCallsign(c3) && c3@ == callsign@
                } else {
                    untouched(pre, post, out, act)
                }
            },
            ConnState::Streaming => match parse_line_spec(l@) {
                Some(f) => {
                    &&& post matches ConnState::Streaming
                    &&& out.len() == 1
                    &&& out[0] matches RbnMessage::Spot(sp) && spot_matches(sp, f)
                    &&& act matches ConnAction::Stay
                },
                None => untouched(pre, post, out, act),
            },
            _ => untouched(pre, post, out, act),
        },
        ConnEvent::WriteOk => match pre {
            ConnState::LoggingIn { callsign, sent } => {
                if sent {
                    &&& post matches ConnState::Streaming
                    &&& out.len() == 1
                    &&& status_msg(out[0], "Logged in as "@ + callsign@)
                    &&& act matches ConnAction::Stay
                } else {
                    untouched(pre, post, out, act)
                }
            },
            _ => untouched(pre, post, out, act),
        },
        ConnEvent::WriteFailed(e) => match pre {
            ConnState::LoggingIn { callsign, sent } => {
                if sent {
                    &&& post matches ConnState::Idle
                    &&& out.len() == 1
                    &&& status_msg(out[0], "Login failed: Failed to send callsign: "@ + e@)
                    &&& act matches ConnAction::DropSocket
                } else {
                    untouched(pre, post, out, act)
                }
            },
            _ => untouched(pre, post, out, act),
        },
        ConnEvent::Closed => match pre {
            ConnState::LoggingIn { callsign, sent } => {
                &&& post matches ConnState::Idle
                &&& out.len() == 1
                &&& status_msg(out[0], "Login failed: Connection closed"@)
                &&& act matches ConnAction::DropSocket
            },
            ConnState::Streaming => {
                &&& post matches ConnState::Idle
                &&& out.len() == 2
                &&& status_msg(out[0], "Connection closed"@)
                &&& out[1] matches RbnMessage::Disconnected
                &&& act matches ConnAction::DropSocket
            },
            _ => untouched(pre, post, out, act),
        },
        ConnEvent::ReadError(e) => match pre {
            ConnState::LoggingIn { callsign, sent } => {
                &&& post matches ConnState::Idle
                &&& out.len() == 1
                &&& status_msg(out[0], "Login failed: Read error: "@ + e@)
                &&& act matches ConnAction::DropSocket
            },
            ConnState::Streaming => {
                &&& post matches ConnState::Idle
                &&& out.len() == 2
                &&& status_msg(out[0], "Read error: "@ + e@)
                &&& out[1] matches RbnMessage::Disconnected
                &&& act matches ConnAction::DropSocket
            },
            _ => untouched(pre, post, out, act),
        },
    }
}

/// Decide what one event makes of the connection: the next state, the
/// messages to publish in order, and the socket action to perform.
pub fn conn_step(state: ConnState, event: ConnEvent) -> (r: (ConnState, Vec<RbnMessage>, ConnAction))
    ensures
        step_spec(state, event, r.0, r.1@, r.2),
{
    let mut out: Vec<RbnMessage> = Vec::new();
    match event {
        ConnEvent::Command(RbnCommand::Connect(cs)) => {
            out.push(
                RbnMessage::Status(String::from_str("Connecting to rbn.telegraphy.de:7000...")),
            );
            (ConnState::Connecting { callsign: cs }, out, ConnAction::OpenSocket)
        },
        ConnEvent::Command(RbnCommand::Disconnect) => {
            out.push(RbnMessage::Status(String::from_str("Disconnected")));
            out.push(RbnMessage::Disconnected);
            (ConnState::Idle, out, ConnAction::DropSocket)
        },
        ConnEvent::Opened => match state {
            ConnState::Connecting { callsign } => {
                out.push(
                    RbnMessage::Status(String::from_str("Connected, waiting for login prompt...")),
                );
                (ConnState::LoggingIn { callsign, sent: false }, out, ConnAction::Stay)
            },
            _ => (state, out, ConnAction::Stay),
        },
        ConnEvent::OpenFailed(e) => match state {
            ConnState::Connecting { callsign: _ } => {
                out.push(
                    RbnMessage::Status(
                        String::from_str("Connection failed: ").concat(e.as_str()),
                    ),
                );
                (ConnState::Idle, out, ConnAction::DropSocket)
            },
            _ => (state, out, ConnAction::Stay),
        },
        ConnEvent::Line(l) => match state {
            ConnState::LoggingIn { callsign, sent } => {
                if !sent && line_has_prompt(l.as_str()) {
                    let to_send = callsign.clone();
                    (
                        ConnState::LoggingIn { callsign, sent: true },
                        out,
                        ConnAction::SendCallsign(to_send),
                    )
                } else {
                    (ConnState::LoggingIn { callsign, sent }, out, ConnAction::Stay)
                }
            },
            ConnState::Streaming => {
                match parse_spot_line(l.as_str()) {
                    Some(spot) => {
                        out.push(RbnMessage::Spot(spot));
                        (ConnState::Streaming, out, ConnAction::Stay)
                    },
                    None => (ConnState::Streaming, out, ConnAction::Stay),
                }
            },
            _ => (state, out, ConnAction::Stay),
        },
        ConnEvent::WriteOk => match state {
            ConnState::LoggingIn { callsign, sent } => {
                if sent {
                    out.push(
                        RbnMessage::Status(
                            String::from_str("Logged in as ").concat(callsign.as_str()),
                        ),
                    );
                    (ConnState::Streaming, out, ConnAction::Stay)
                } else {
                    (ConnState::LoggingIn { callsign, sent }, out, ConnAction::Stay)
                }
            },
            _ => (state, out, ConnAction::Stay),
        },
        ConnEvent::WriteFailed(e) => match state {
            ConnState::LoggingIn { callsign, sent } => {
                if sent {
                    out.push(
                        RbnMessage::Status(
                            String::from_str("Login failed: Failed to send callsign: ").concat(
                                e.as_str(),
                            ),
                        ),
                    );
                    (ConnState::Idle, out, ConnAction::DropSocket)
                } else {
                    (ConnState::LoggingIn { callsign, sent }, out, ConnAction::Stay)
                }
            },
            _ => (state, out, ConnAction::Stay),
        },
        ConnEvent::Closed => match state {
            ConnState::LoggingIn { callsign: _, sent: _ } => {
                out.push(RbnMessage::Status(String::from_str("Login failed: Connection closed")));
                (ConnState::Idle, out, ConnAction::DropSocket)
            },
            ConnState::Streaming => {
                out.push(RbnMessage::Status(String::from_str("Connection closed")));
                out.push(RbnMessage::Disconnected);
                (ConnState::Idle, out, ConnAction::DropSocket)
            },
            _ => (state, out, ConnAction::Stay),
        },
        ConnEvent::ReadError(e) => match state {
            ConnState::LoggingIn { callsign: _, sent: _ } => {
                out.push(
                    RbnMessage::Status(
                        String::from_str("Login failed: Read error: ").concat(e.as_str()),
                    ),
                );
                (ConnState::Idle, out, ConnAction::DropSocket)
            },
            ConnState::Streaming => {
                out.push(
                    RbnMessage::Status(String::from_str("Read error: ").concat(e.as_str())),
                );
                out.push(RbnMessage::Disconnected);
                (ConnState::Idle, out, ConnAction::DropSocket)
            },
            _ => (state, out, ConnAction::Stay),
        },
    }
}

/// Issuing a connect command and then, before any socket outcome arrives, a
/// disconnect command always ends in `Idle`: the consumer sees a
/// `Disconnected` event and the socket work under way is dropped.
pub proof fn lemma_connect_then_disconnect(
    s0: ConnState,
    cs: String,
    s1: ConnState,
    out1: Seq<RbnMessage>,
    a1: ConnAction,
    s2: ConnState,
    out2: Seq<RbnMessage>,
    a2: ConnAction,
)
    requires
        step_spec(s0, ConnEvent::Command(RbnCommand::Connect(cs)), s1, out1, a1),
        step_spec(s1, ConnEvent::Command(RbnCommand::Disconnect), s2, out2, a2),
    ensures
        s2 matches ConnState::Idle,
        out2.len() == 2 && out2[1] matches RbnMessage::Disconnected,
        a2 matches ConnAction::DropSocket,
{
}

} // verus!
