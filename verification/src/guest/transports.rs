//! Generic connectivity to a host.
use crate::text;
use crate::wire::CloseCode;
use vstd::prelude::*;

verus! {

/// The transports a share can ride.
#[derive(Clone, Copy, Debug, PartialEq, Eq, Structural)]
pub enum Transport {
    WispersConnect,
    Iroh,
    Tailscale,
}

impl Transport {
    pub open spec fn name(self) -> Seq<char> {
        match self {
            Transport::WispersConnect => "wispers-connect"@,
            Transport::Iroh => "iroh"@,
            Transport::Tailscale => "tailscale"@,
        }
    }

    pub fn as_str(self) -> (r: &'static str)
        ensures
            r@ == self.name(),
    {
        match self {
            Transport::WispersConnect => "wispers-connect",
            Transport::Iroh => "iroh",
            Transport::Tailscale => "tailscale",
        }
    }

    pub open spec fn named(s: Seq<char>) -> Option<Transport> {
        if s == "wispers-connect"@ {
            Some(Transport::WispersConnect)
        } else if s == "iroh"@ {
            Some(Transport::Iroh)
        } else if s == "tailscale"@ {
            Some(Transport::Tailscale)
        } else {
            None
        }
    }

    /// Reads back what [`Transport::as_str`] wrote.
    pub fn parse(s: &str) -> (r: Option<Transport>)
        ensures
            r == Transport::named(s@),
    {
        if text::same_text(s, "wispers-connect") {
            Some(Transport::WispersConnect)
        } else if text::same_text(s, "iroh") {
            Some(Transport::Iroh)
        } else if text::same_text(s, "tailscale") {
            Some(Transport::Tailscale)
        } else {
            None
        }
    }
}

/// Why a share is permanently unusable. `Removed` = the hub rejected our credentials
/// outright (share deleted on the host's side); `Revoked` = this device was revoked from
/// the share's roster.
#[derive(Clone, Copy, Debug, PartialEq, Eq, Structural)]
pub enum TerminalState {
    Removed,
    Revoked,
}

impl TerminalState {
    /// The form in which a state is stored.
    pub open spec fn name(self) -> Seq<char> {
        match self {
            TerminalState::Removed => "removed"@,
            TerminalState::Revoked => "revoked"@,
        }
    }

    pub fn as_str(self) -> (r: &'static str)
        ensures
            r@ == self.name(),
    {
        match self {
            TerminalState::Removed => "removed",
            TerminalState::Revoked => "revoked",
        }
    }

    /// The state that is stored in that form.
    pub open spec fn named(s: Seq<char>) -> Option<TerminalState> {
        if s == "removed"@ {
            Some(TerminalState::Removed)
        } else if s == "revoked"@ {
            Some(TerminalState::Revoked)
        } else {
            None
        }
    }

    pub fn parse(s: &str) -> (r: Option<TerminalState>)
        ensures
            r == TerminalState::named(s@),
    {
        if text::same_text(s, "removed") {
            Some(TerminalState::Removed)
        } else if text::same_text(s, "revoked") {
            Some(TerminalState::Revoked)
        } else {
            None
        }
    }

    pub open spec fn description(self) -> Seq<char> {
        match self {
            TerminalState::Removed => "the circle was removed on the server side"@,
            TerminalState::Revoked => "this device's access was revoked"@,
        }
    }

    pub fn describe(self) -> (r: &'static str)
        ensures
            r@ == self.description(),
    {
        match self {
            TerminalState::Removed => "the circle was removed on the server side",
            TerminalState::Revoked => "this device's access was revoked",
        }
    }
}

/// A terminal state reads back from the form in which it is stored.
pub proof fn terminal_states_round_trip(state: TerminalState)
    ensures
        TerminalState::named(state.name()) == Some(state),
{
    reveal_strlit("removed");
    reveal_strlit("revoked");
    assert("removed"@[2] == 'm');
    assert("revoked"@[2] == 'v');
}

/// Why a stream could not be opened.
#[derive(Clone, Debug, PartialEq, Eq)]
pub enum TransportError {
    /// The host's side is gone for good; dialing again cannot help.
    Terminal(TerminalState),
    /// An outage or a broken connection. Worth another try later.
    Transient(String),
}

impl TransportError {
    pub open spec fn text(self) -> Seq<char> {
        match self {
            TransportError::Terminal(state) => state.description(),
            TransportError::Transient(e) => e@,
        }
    }

    /// The error as a line of text, for paths where a terminal state is just another reason
    /// the host could not be told.
    pub fn describe(&self) -> (r: String)
        ensures
            r@ == self.text(),
    {
        match self {
            TransportError::Terminal(state) => text::copied(state.describe()),
            TransportError::Transient(e) => text::copied(e.as_str()),
        }
    }
}

/// What an iroh close says of this device: an unknown key is one that was removed, and a
/// revoked one says so. Any other code, or a code that the contract does not have, is an
/// outage.
pub open spec fn terminal_of_close(code: Option<CloseCode>) -> Option<TerminalState> {
    match code {
        Some(CloseCode::Unknown) => Some(TerminalState::Removed),
        Some(CloseCode::Revoked) => Some(TerminalState::Revoked),
        _ => None,
    }
}

pub fn terminal_from_close(code: Option<CloseCode>) -> (r: Option<TerminalState>)
    ensures
        r == terminal_of_close(code),
{
    match code {
        Some(CloseCode::Unknown) => Some(TerminalState::Removed),
        Some(CloseCode::Revoked) => Some(TerminalState::Revoked),
        _ => None,
    }
}

//-- Dialling ---------------------------------------------------------------------
/// The place of the one live connection to a host, shared by all who open streams. Each
/// connection that is put there has a number of its own.
pub struct Slot {
    pub current: u64,
}

impl Slot {
    pub fn new() -> (r: Slot)
        ensures
            r.current == 0,
    {
        Slot { current: 0 }
    }

    /// Makes room for a new connection where the one of that number failed, so the next
    /// attempt redials. Several tasks may race here, so only the connection that failed is
    /// replaced. Returns whether it was.
    pub fn evict(&mut self, failed: u64) -> (r: bool)
        requires
            old(self).current < u64::MAX,
        ensures
            r == (old(self).current == failed),
            final(self).current == evicted(old(self).current, failed),
    {
        if self.current == failed {
            self.current = failed + 1;
            true
        } else {
            false
        }
    }
}

/// What is current once a connection that failed is reported.
pub open spec fn evicted(current: u64, failed: u64) -> int {
    if current == failed {
        current + 1
    } else {
        current as int
    }
}

/// Of all who saw a connection fail, one replaces it: the connection that took its place
/// stays, whoever reports the old one later.
pub proof fn failed_connections_are_replaced_once(current: u64, failed: u64)
    requires
        current < u64::MAX,
    ensures
        evicted(current, failed) != failed,
        evicted(evicted(current, failed) as u64, failed) == evicted(current, failed),
{
}

/// What trying to open a stream over iroh came to.
pub enum IrohAttempt {
    /// The host could not be connected to.
    ConnectFailed(String),
    /// A stream was opened; whether the host had closed the connection by then, and with
    /// which code of the contract. A stream opens locally before a close is noticed.
    Opened(Option<CloseCode>),
    /// No stream could be opened: the code of the contract that the connection was closed
    /// with, where it was, and the failure.
    OpenFailed(Option<CloseCode>, String),
}

/// What an attempt to open a stream over iroh means, and whether its connection is evicted.
pub fn iroh_attempt(attempt: IrohAttempt) -> (r: (Result<(), TransportError>, bool))
    ensures
        match attempt {
            IrohAttempt::ConnectFailed(e) => r.0 == Err::<(), TransportError>(
                TransportError::Transient(e),
            ) && !r.1,
            IrohAttempt::Opened(code) => !r.1 && r.0 == (match terminal_of_close(code) {
                Some(state) => Err::<(), TransportError>(TransportError::Terminal(state)),
                None => Ok::<(), TransportError>(()),
            }),
            IrohAttempt::OpenFailed(code, e) => r.1 && r.0 == (match terminal_of_close(code) {
                Some(state) => Err::<(), TransportError>(TransportError::Terminal(state)),
                None => Err::<(), TransportError>(TransportError::Transient(e)),
            }),
        },
{
    match attempt {
        IrohAttempt::ConnectFailed(e) => (Err(TransportError::Transient(e)), false),
        IrohAttempt::Opened(code) => match terminal_from_close(code) {
            Some(state) => (Err(TransportError::Terminal(state)), false),
            None => (Ok(()), false),
        },
        IrohAttempt::OpenFailed(code, e) => match terminal_from_close(code) {
            Some(state) => (Err(TransportError::Terminal(state)), true),
            None => (Err(TransportError::Transient(e)), true),
        },
    }
}

/// What trying to open a stream over Wispers Connect came to.
pub enum ConnectAttempt {
    /// The host could not be connected to: whether the hub rejects this node for good, and
    /// the failure.
    ConnectFailed(Option<TerminalState>, String),
    Opened,
    /// No stream could be opened on the connection.
    OpenFailed(String),
}

/// What an attempt to open a stream over Wispers Connect means, and whether its connection
/// is evicted.
pub fn connect_attempt(attempt: ConnectAttempt) -> (r: (Result<(), TransportError>, bool))
    ensures
        match attempt {
            ConnectAttempt::ConnectFailed(Some(state), _) => r.0 == Err::<(), TransportError>(
                TransportError::Terminal(state),
            ) && !r.1,
            ConnectAttempt::ConnectFailed(None, e) => r.0 == Err::<(), TransportError>(
                TransportError::Transient(e),
            ) && !r.1,
            ConnectAttempt::Opened => r.0 == Ok::<(), TransportError>(()) && !r.1,
            ConnectAttempt::OpenFailed(e) => r.0 == Err::<(), TransportError>(
                TransportError::Transient(e),
            ) && r.1,
        },
{
    match attempt {
        ConnectAttempt::ConnectFailed(terminal, e) => match terminal {
            Some(state) => (Err(TransportError::Terminal(state)), false),
            None => (Err(TransportError::Transient(e)), false),
        },
        ConnectAttempt::Opened => (Ok(()), false),
        ConnectAttempt::OpenFailed(e) => (Err(TransportError::Transient(e)), true),
    }
}

//-- Joining over Wispers Connect -------------------------------------------------
/// What happened while this device was joining a share over Wispers Connect.
#[derive(Clone, Copy, Debug, PartialEq, Eq, Structural)]
pub enum JoinEvent {
    Registered,
    RegisterFailed,
    /// A step after the registration: activation, or asking the host what the share is.
    Activated,
    ActivateFailed,
    Fetched,
    FetchFailed,
    /// The node was logged out again, or could not be.
    LoggedOut(bool),
}

/// What is done next about a join.
#[derive(Clone, Copy, Debug, PartialEq, Eq, Structural)]
pub enum JoinStep {
    Activate,
    Fetch,
    /// The share is joined.
    Done,
    /// The join failed, and the hub holds a registration: log the node out again.
    LogOut,
    /// The join failed, and there is nothing to undo at the hub any more.
    Fail,
}

/// Takes a join over Wispers Connect a step further. From the registration on, the hub holds
/// a registration that consumes quota, so a failed join must log the node out again (revoke
/// and deregister) rather than orphan the registration.
pub fn join_step(event: JoinEvent) -> (r: JoinStep)
    ensures
        r == (match event {
            JoinEvent::Registered => JoinStep::Activate,
            JoinEvent::RegisterFailed => JoinStep::Fail,
            JoinEvent::Activated => JoinStep::Fetch,
            JoinEvent::ActivateFailed => JoinStep::LogOut,
            JoinEvent::Fetched => JoinStep::Done,
            JoinEvent::FetchFailed => JoinStep::LogOut,
            JoinEvent::LoggedOut(_) => JoinStep::Fail,
        }),
{
    match event {
        JoinEvent::Registered => JoinStep::Activate,
        JoinEvent::RegisterFailed => JoinStep::Fail,
        JoinEvent::Activated => JoinStep::Fetch,
        JoinEvent::ActivateFailed => JoinStep::LogOut,
        JoinEvent::Fetched => JoinStep::Done,
        JoinEvent::FetchFailed => JoinStep::LogOut,
        JoinEvent::LoggedOut(_) => JoinStep::Fail,
    }
}

//-- Names ------------------------------------------------------------------------
/// A transport's name reads back as that transport, and no other text names one.
pub proof fn transports_round_trip(kind: Transport, s: Seq<char>)
    ensures
        Transport::named(kind.name()) == Some(kind),
        Transport::named(s) matches Some(t) ==> t.name() == s,
{
    reveal_strlit("wispers-connect");
    reveal_strlit("iroh");
    reveal_strlit("tailscale");
    assert("wispers-connect"@.len() == 15 && "iroh"@.len() == 4 && "tailscale"@.len() == 9);
}

/// Only two of the host's close codes end a share for good: that it does not know this
/// device, and that it revoked it. Going down is an outage, and so is a close without a code.
pub proof fn only_the_host_ends_a_share(code: Option<CloseCode>)
    ensures
        terminal_of_close(code) == Some(TerminalState::Removed) <==> code == Some(
            CloseCode::Unknown,
        ),
        terminal_of_close(code) == Some(TerminalState::Revoked) <==> code == Some(
            CloseCode::Revoked,
        ),
        terminal_of_close(code) is None <==> code is None || code == Some(CloseCode::Closing),
{
}

} // verus!
