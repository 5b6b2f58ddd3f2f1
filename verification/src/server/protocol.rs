//! The host's side of the wire protocol.
//!
//! DATA streams go to the proxy for the app they name, CTRL streams to the guest API,
//! and raw HTTP from clients that predate the framing to the default app.
use crate::server::config::ShareConfig;
use crate::text;
use crate::wire::{self, ConfigHash, FirstByte, HttpPreamble, StreamType};
use vstd::prelude::*;

verus! {

/// Who is on the other end of a stream, as far as serving it is concerned.
#[derive(Clone, Debug, PartialEq, Eq)]
pub struct Peer {
    /// The transport's identifier for the peer, as authenticated by the handshake: the
    /// iroh endpoint ID in hex, or the Wispers Connect node number, which the library
    /// checks against the signed roster. What `POST /v1/activation` binds to an invite.
    pub peer_id: String,
    /// The guest's identity, carried to the app in the identity header. `None` means
    /// the peer is not a guest yet, only its key is known: the control plane is all it
    /// gets, activation being what it is there for.
    pub user_id: Option<String>,
}

impl Peer {
    /// Whether the peer is a guest.
    pub fn is_authorized(&self) -> (r: bool)
        ensures
            r == self.user_id is Some,
    {
        self.user_id.is_some()
    }
}

/// What became of a stream.
#[derive(Clone, Copy, Debug, PartialEq, Eq, Structural)]
pub enum StreamOutcome {
    Served,
    /// A peer without an identity opened a data-plane stream. The contract gives an
    /// unbound key one thing, an activation attempt, and ends the connection with
    /// `unknown` on anything else; only the caller holds the connection, so it does the
    /// closing.
    Refused,
}

/// Where the request on a data-plane stream goes.
#[derive(Clone, Debug, PartialEq, Eq)]
pub enum Target {
    /// To the app at this address.
    Upstream(String),
    /// The share has no apps.
    NoShares,
    /// The share has no app of that name; its config is now this one.
    UnknownShare { config_hash: u64 },
}

/// Whether a target is that of an app ID in a config.
pub open spec fn is_target(config: ShareConfig, app_id: Seq<char>, target: Target) -> bool {
    match config.app_index(app_id) {
        Some(i) => target matches Target::Upstream(u) && u@ == config.apps@[i].upstream@,
        None => if config.apps@.len() == 0 {
            target == Target::NoShares
        } else {
            target == (Target::UnknownShare { config_hash: config.hash_spec() })
        },
    }
}

/// Whether a target is that of a request that names no app.
pub open spec fn is_default_target(config: ShareConfig, target: Target) -> bool {
    if config.apps@.len() == 0 {
        target == Target::NoShares
    } else {
        target matches Target::Upstream(u) && u@ == config.apps@[0].upstream@
    }
}

/// Where a request for that app goes.
pub fn share_target(config: &ShareConfig, app_id: &str) -> (r: Target)
    ensures
        is_target(*config, app_id@, r),
{
    match config.find_app(app_id) {
        Some(app) => Target::Upstream(text::copied(app.upstream.as_str())),
        None => {
            if config.apps.len() == 0 {
                Target::NoShares
            } else {
                Target::UnknownShare { config_hash: config.config_hash() }
            }
        },
    }
}

/// Where a request that names no app goes.
pub fn default_target(config: &ShareConfig) -> (r: Target)
    ensures
        is_default_target(*config, r),
{
    match config.default_app() {
        Some(app) => Target::Upstream(text::copied(app.upstream.as_str())),
        None => Target::NoShares,
    }
}

/// How a target that is no app is answered: the status, the error's name in
/// [`crate::headers::ERROR_HEADER`], and the hash of the config as it is now.
pub struct TargetError {
    pub status: u16,
    pub error: &'static str,
    pub config_hash: Option<ConfigHash>,
}

/// How a target that is no app is answered. An unknown app is told apart from the app's
/// own 404 by the error's name, and comes with the config's hash, so the guest can tell
/// that its list is stale.
pub fn target_error(target: &Target) -> (r: Option<TargetError>)
    ensures
        match *target {
            Target::Upstream(_) => r is None,
            Target::NoShares => r matches Some(e) && e.status == 503 && e.error@ == "no-shares"@
                && e.config_hash is None,
            Target::UnknownShare { config_hash } => r matches Some(e) && e.status == 404 && e.error@
                == "share-not-found"@ && e.config_hash == Some(ConfigHash(config_hash)),
        },
{
    match target {
        Target::Upstream(_) => None,
        Target::NoShares => Some(TargetError { status: 503, error: "no-shares", config_hash: None }),
        Target::UnknownShare { config_hash } => Some(
            TargetError {
                status: 404,
                error: "share-not-found",
                config_hash: Some(ConfigHash(*config_hash)),
            },
        ),
    }
}

/// What is done about a stream once its first byte is read.
#[derive(Debug, PartialEq, Eq)]
pub enum StreamTask {
    /// The stream was opened and closed without a byte, which carries no request.
    Nothing,
    /// The guest API answers.
    GuestApi,
    /// Forward the raw request, whose first byte this was, for that guest.
    Legacy { first: u8, target: Target, user_id: String },
    /// Read the preamble, then forward for that guest.
    ReadPreamble { user_id: String },
    /// Close the connection as the outcome says.
    Refuse,
    /// Close the stream: its type is unknown.
    Close(u8),
}

impl StreamTask {
    /// What became of the stream once this is done.
    pub open spec fn outcome_spec(self) -> StreamOutcome {
        match self {
            StreamTask::Refuse => StreamOutcome::Refused,
            _ => StreamOutcome::Served,
        }
    }

    /// What became of the stream once this is done.
    pub fn outcome(&self) -> (r: StreamOutcome)
        ensures
            r == self.outcome_spec(),
    {
        match self {
            StreamTask::Refuse => StreamOutcome::Refused,
            _ => StreamOutcome::Served,
        }
    }
}

/// What is done about a stream, as far as its first byte and whether the peer is a guest
/// decide it.
pub enum StreamCase {
    Nothing,
    GuestApi,
    Legacy,
    ReadPreamble,
    Refuse,
    Close(u8),
}

pub open spec fn stream_case(first: Option<u8>, authorized: bool) -> StreamCase {
    match first {
        None => StreamCase::Nothing,
        Some(b) => match wire::first_byte_class(b) {
            FirstByte::Typed(StreamType::Ctrl) => StreamCase::GuestApi,
            FirstByte::LegacyHttp => if authorized {
                StreamCase::Legacy
            } else {
                StreamCase::Refuse
            },
            FirstByte::Typed(StreamType::Data) => if authorized {
                StreamCase::ReadPreamble
            } else {
                StreamCase::Refuse
            },
            FirstByte::Unknown(x) => StreamCase::Close(x),
        },
    }
}

/// Decides what is done about a stream that a peer opened, by its first byte.
pub fn handle(first: Option<u8>, config: &ShareConfig, peer: &Peer) -> (r: StreamTask)
    ensures
        match stream_case(first, peer.user_id is Some) {
            StreamCase::Nothing => r == StreamTask::Nothing,
            StreamCase::GuestApi => r == StreamTask::GuestApi,
            StreamCase::Legacy => r matches StreamTask::Legacy { first: f, target, user_id }
                && first == Some(f) && is_default_target(*config, target) && user_id@
                == peer.user_id->0@,
            StreamCase::ReadPreamble => r matches StreamTask::ReadPreamble { user_id } && user_id@
                == peer.user_id->0@,
            StreamCase::Refuse => r == StreamTask::Refuse,
            StreamCase::Close(x) => r == StreamTask::Close(x),
        },
{
    let b: u8 = match first {
        Some(b) => b,
        None => {
            return StreamTask::Nothing;
        },
    };
    match FirstByte::from(b) {
        FirstByte::Typed(StreamType::Ctrl) => StreamTask::GuestApi,
        FirstByte::LegacyHttp => match &peer.user_id {
            Some(u) => StreamTask::Legacy {
                first: b,
                target: default_target(config),
                user_id: text::copied(u.as_str()),
            },
            None => StreamTask::Refuse,
        },
        FirstByte::Typed(StreamType::Data) => match &peer.user_id {
            Some(u) => StreamTask::ReadPreamble { user_id: text::copied(u.as_str()) },
            None => StreamTask::Refuse,
        },
        FirstByte::Unknown(x) => StreamTask::Close(x),
    }
}

/// Where a DATA stream goes, once its preamble is read.
pub fn data_target(config: &ShareConfig, preamble: &HttpPreamble) -> (r: Target)
    ensures
        is_target(*config, preamble.share_id@, r),
{
    share_target(config, preamble.share_id.as_str())
}

/// A peer without an identity reaches no app, whatever it sends: a data-plane stream of
/// its is refused, and the control plane is all that it gets.
pub proof fn unbound_peers_get_the_control_plane_only(first: Option<u8>)
    ensures
        !(stream_case(first, false) is Legacy),
        !(stream_case(first, false) is ReadPreamble),
        stream_case(first, true) is Legacy || stream_case(first, true) is ReadPreamble
            <==> stream_case(first, false) is Refuse,
        stream_case(first, true) is GuestApi <==> stream_case(first, false) is GuestApi,
{
}

/// Bytes that were read from a stream and are put back in front of it.
pub struct Prefixed {
    pub prefix: Vec<u8>,
    pub pos: usize,
}

impl Prefixed {
    pub open spec fn wf(self) -> bool {
        self.pos <= self.prefix@.len()
    }

    /// What is still to be read of the prefix.
    pub open spec fn rest(self) -> Seq<u8> {
        self.prefix@.skip(self.pos as int)
    }

    pub fn new(prefix: Vec<u8>) -> (r: Prefixed)
        ensures
            r.wf(),
            r.rest() == prefix@,
    {
        let r = Prefixed { prefix, pos: 0 };
        assert(r.rest() =~= prefix@);
        r
    }

    /// Reads up to `room` bytes of the prefix. `None` once it is used up: the stream
    /// itself is read from then on.
    pub fn poll_read(&mut self, room: usize) -> (r: Option<Vec<u8>>)
        requires
            old(self).wf(),
        ensures
            final(self).wf(),
            match r {
                None => old(self).rest().len() == 0 && *final(self) == *old(self),
                Some(bytes) => {
                    &&& old(self).rest().len() > 0
                    &&& bytes@.len() == if old(self).rest().len() < room {
                        old(self).rest().len() as int
                    } else {
                        room as int
                    }
                    &&& old(self).rest() == bytes@ + final(self).rest()
                },
            },
    {
        if self.pos < self.prefix.len() {
            let left: usize = self.prefix.len() - self.pos;
            let n: usize = if left < room {
                left
            } else {
                room
            };
            let bytes = crate::bytes::byte_range(self.prefix.as_slice(), self.pos, self.pos + n);
            let ghost before = self.rest();
            self.pos = self.pos + n;
            assert(before =~= bytes@ + self.rest());
            Some(bytes)
        } else {
            None
        }
    }
}

//-- Where streams go -------------------------------------------------------------
/// A request goes to the app that it names, wherever that stands in the config; to none where
/// there is none of that name; and one that names none, to the first.
pub proof fn requests_go_to_the_app_they_name(
    config: ShareConfig,
    app_id: Seq<char>,
    target: Target,
    default: Target,
)
    requires
        config.wf(),
        is_target(config, app_id, target),
        is_default_target(config, default),
    ensures
        forall|k: int|
            0 <= k < config.apps@.len() && (#[trigger] config.apps@[k]).id@ == app_id ==> (target
                matches Target::Upstream(u) && u@ == config.apps@[k].upstream@),
        (forall|k: int| 0 <= k < config.apps@.len() ==> (#[trigger] config.apps@[k]).id@ != app_id)
            ==> target == if config.apps@.len() == 0 {
            Target::NoShares
        } else {
            Target::UnknownShare { config_hash: config.hash_spec() }
        },
        config.apps@.len() > 0 ==> (default matches Target::Upstream(u) && u@
            == config.apps@[0].upstream@),
        config.apps@.len() == 0 ==> default == Target::NoShares,
{
    crate::server::config::apps_are_found_by_their_id(config, app_id);
    assert forall|k: int|
        0 <= k < config.apps@.len() && (#[trigger] config.apps@[k]).id@ == app_id implies (target
        matches Target::Upstream(u) && u@ == config.apps@[k].upstream@) by {
        let w = config.app_index(app_id)->0;
        if w < k {
            assert(config.apps@[w].id@ != config.apps@[k].id@);
        } else if k < w {
            assert(config.apps@[k].id@ != config.apps@[w].id@);
        }
    }
}

/// A stream is what its first byte says: 1 opens the guest API, 0 a request for an app that
/// is named, a letter a request as earlier guests send it, and any other byte nothing. What
/// reaches an app is for guests only.
pub proof fn streams_are_told_by_their_first_byte(b: u8, authorized: bool)
    ensures
        stream_case(None, authorized) is Nothing,
        stream_case(Some(b), authorized) == if b == 1 {
            StreamCase::GuestApi
        } else if b == 0 {
            if authorized {
                StreamCase::ReadPreamble
            } else {
                StreamCase::Refuse
            }
        } else if (65 <= b && b <= 90) || (97 <= b && b <= 122) {
            if authorized {
                StreamCase::Legacy
            } else {
                StreamCase::Refuse
            }
        } else {
            StreamCase::Close(b)
        },
{
}

} // verus!
