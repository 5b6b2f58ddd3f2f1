//! The iroh transport: who is served, and what the host's own records say of it.
//!
//! On this transport the host is the authority: its state database says which key is a
//! guest's.
use crate::clock::{self, Timestamp};
use crate::server::cli::Asked;
use crate::server::ipc::Response;
use crate::server::protocol::{Peer, StreamOutcome};
use crate::server::status::{
    self, GuestStatus, InviteStatus, TransportReport, TransportStatus,
};
use crate::server::storage::{self, GuestNode, InviteRow, NewInvite, StateDb};
use crate::text;
use crate::wire::{CloseCode, InviteSecret};
use vstd::prelude::*;

verus! {

//-- Connections ------------------------------------------------------------------
/// What the state database said of a peer: a guest, nobody, or nothing, because it
/// failed.
pub enum PeerLookup {
    Guest(GuestNode),
    Nobody,
    Failed,
}

/// What is done about a new connection.
pub enum Admission {
    /// Serve it to that guest.
    Serve(GuestNode),
    /// Let the peer activate, which is all that it may do.
    Activate,
    Close(CloseCode),
}

/// Decides about an incoming connection, by what the state database says of the peer's
/// key. A revoked key is told so.
pub fn handle_incoming(lookup: PeerLookup) -> (r: Admission)
    ensures
        r == (match lookup {
            PeerLookup::Guest(guest) => if guest.revoked_at is Some {
                Admission::Close(CloseCode::Revoked)
            } else {
                Admission::Serve(guest)
            },
            PeerLookup::Nobody => Admission::Activate,
            PeerLookup::Failed => Admission::Close(CloseCode::Closing),
        }),
{
    match lookup {
        PeerLookup::Guest(guest) => {
            if guest.revoked_at.is_some() {
                Admission::Close(CloseCode::Revoked)
            } else {
                Admission::Serve(guest)
            }
        },
        PeerLookup::Nobody => Admission::Activate,
        PeerLookup::Failed => Admission::Close(CloseCode::Closing),
    }
}

/// How long a non-activated guest node may sit on a connection without activating, in
/// seconds. This isn't security-relevant, just hygiene.
pub const ACTIVATION_WINDOW: u64 = 10;

/// How long to let a refused guest read its error before the connection is closed under
/// it, in seconds; it normally closes first.
pub const REFUSAL_GRACE: u64 = 2;

/// What happens on the connection of a peer that is no guest.
pub enum ActivateEvent {
    /// The peer opened a stream.
    Opened,
    /// The peer went away before opening one.
    WentAway,
    /// The peer opened none within the [`ACTIVATION_WINDOW`].
    TimedOut,
    /// The stream was handled; `None` where that failed.
    Handled(Option<StreamOutcome>),
    /// The state database was asked about the peer after that.
    LookedUp(PeerLookup),
}

/// What is done next on the connection of a peer that is no guest.
pub enum ActivateAction {
    /// Serve the stream: the guest API lets it activate, and nothing else.
    HandleStream,
    /// Ask the state database whether the key is a guest's now.
    LookUp,
    /// Serve the connection to that guest.
    Serve(GuestNode),
    /// The connection is over.
    GiveUp,
    Close(CloseCode),
    /// Let the guest read the response, then close.
    CloseAfterGrace(CloseCode),
}

/// Takes the connection of an unauthorised peer a step further, limiting it to the only
/// valid action it can take at this point: activation. Whatever its stream carried, the
/// state database says whether the key is a guest now. If not, the response (if any) had
/// the reason.
pub fn activate(event: ActivateEvent) -> (r: ActivateAction)
    ensures
        r == (match event {
            ActivateEvent::Opened => ActivateAction::HandleStream,
            ActivateEvent::WentAway => ActivateAction::GiveUp,
            ActivateEvent::TimedOut => ActivateAction::Close(CloseCode::Unknown),
            ActivateEvent::Handled(Some(StreamOutcome::Refused)) => ActivateAction::Close(
                CloseCode::Unknown,
            ),
            ActivateEvent::Handled(_) => ActivateAction::LookUp,
            ActivateEvent::LookedUp(PeerLookup::Guest(guest)) => if guest.revoked_at is None {
                ActivateAction::Serve(guest)
            } else {
                ActivateAction::CloseAfterGrace(CloseCode::Unknown)
            },
            ActivateEvent::LookedUp(PeerLookup::Nobody) => ActivateAction::CloseAfterGrace(
                CloseCode::Unknown,
            ),
            ActivateEvent::LookedUp(PeerLookup::Failed) => ActivateAction::Close(
                CloseCode::Closing,
            ),
        }),
{
    match event {
        ActivateEvent::Opened => ActivateAction::HandleStream,
        ActivateEvent::WentAway => ActivateAction::GiveUp,
        ActivateEvent::TimedOut => ActivateAction::Close(CloseCode::Unknown),
        ActivateEvent::Handled(outcome) => match outcome {
            Some(StreamOutcome::Refused) => ActivateAction::Close(CloseCode::Unknown),
            _ => ActivateAction::LookUp,
        },
        ActivateEvent::LookedUp(lookup) => match lookup {
            PeerLookup::Guest(guest) => {
                if guest.revoked_at.is_none() {
                    ActivateAction::Serve(guest)
                } else {
                    ActivateAction::CloseAfterGrace(CloseCode::Unknown)
                }
            },
            PeerLookup::Nobody => ActivateAction::CloseAfterGrace(CloseCode::Unknown),
            PeerLookup::Failed => ActivateAction::Close(CloseCode::Closing),
        },
    }
}

/// A guest as the other end of its streams. Identity is the guest's, resolved once when it
/// connects and never looked up again. A bound guest posting an activation again gets the
/// idempotent answer.
pub fn guest_peer(guest: &GuestNode) -> (r: Peer)
    ensures
        r.peer_id@ == guest.peer_id@,
        r.user_id.deep_view() == Some(guest.user_id@),
{
    Peer {
        peer_id: text::copied(guest.peer_id.as_str()),
        user_id: Some(text::copied(guest.user_id.as_str())),
    }
}

/// A peer that is no guest as the other end of its stream: only its key is known.
pub fn unbound_peer(peer_id: &str) -> (r: Peer)
    ensures
        r.peer_id@ == peer_id@,
        r.user_id is None,
{
    Peer { peer_id: text::copied(peer_id), user_id: None }
}

/// What a peer's key is, in the state database.
pub fn look_up(db: &StateDb, peer_id: &str) -> (r: PeerLookup)
    ensures
        match storage::guest_of_peer(db.guests@, peer_id@) {
            Some(g) => r matches PeerLookup::Guest(node) && node.deep_view()
                == db.guests@[g].node.deep_view(),
            None => r == PeerLookup::Nobody,
        },
{
    match db.guest_by_peer(peer_id) {
        Some(guest) => PeerLookup::Guest(guest),
        None => PeerLookup::Nobody,
    }
}

//-- Invites ----------------------------------------------------------------------
/// How long an iroh invite can be redeemed: a day, in seconds.
pub const INVITE_VALIDITY: i64 = 86400;

/// `rand::random`: sixteen bytes of chance. Nothing is claimed of them.
#[verifier::external_body]
fn random_bytes() -> (r: [u8; 16]) {
    rand::random()
}

/// Records an invite with that secret, redeemable for a day from `now` on.
pub fn record_invite(
    db: &mut StateDb,
    secret: InviteSecret,
    node_name: &str,
    user_id: &str,
    now: i64,
) -> (r: Result<i64, storage::Error>)
    requires
        old(db).wf(),
        now + INVITE_VALIDITY <= i64::MAX,
    ensures
        final(db).wf(),
        match r {
            Ok(id) => {
                &&& storage::invite_of_hash(
                    old(db).invites@,
                    storage::sha256_digest(secret.0@),
                ) is None
                &&& exists|invite: NewInvite|
                    #[trigger] old(db).creates_to(invite, now, id, *final(db)) && invite.secret
                        == secret && invite.user_id@ == user_id@ && invite.node_name@ == node_name@
                        && invite.expires_at == now + INVITE_VALIDITY
            },
            Err(e) => {
                &&& *final(db) == *old(db)
                &&& e matches storage::Error::Db(why) && if storage::used_up(
                    storage::invite_ids(old(db).invites@),
                ) {
                    why@ == "database or disk is full"@
                } else {
                    &&& storage::invite_of_hash(
                        old(db).invites@,
                        storage::sha256_digest(secret.0@),
                    ) is Some
                    &&& why@ == "UNIQUE constraint failed: invites.secret_hash"@
                }
            },
        },
{
    let invite = NewInvite {
        secret,
        user_id: text::copied(user_id),
        node_name: text::copied(node_name),
        expires_at: now + INVITE_VALIDITY,
    };
    let ghost made = invite;
    let r = db.create_invite(invite, now);
    proof {
        if let Ok(id) = r {
            assert(old(db).creates_to(made, now, id, *db));
        }
    }
    r
}

/// Records a one-time invite with a random secret, and hands the secret out. It fails only
/// where no ID is left, or where chance picked a secret that is already recorded.
pub fn mint_invite(db: &mut StateDb, node_name: &str, user_id: &str, now: i64) -> (r: Result<
    InviteSecret,
    storage::Error,
>)
    requires
        old(db).wf(),
        now + INVITE_VALIDITY <= i64::MAX,
    ensures
        final(db).wf(),
        match r {
            Ok(secret) => {
                &&& storage::invite_of_hash(
                    old(db).invites@,
                    storage::sha256_digest(secret.0@),
                ) is None
                &&& exists|invite: NewInvite, id: i64|
                    #[trigger] old(db).creates_to(invite, now, id, *final(db)) && invite.secret
                        == secret && invite.user_id@ == user_id@ && invite.node_name@ == node_name@
                        && invite.expires_at == now + INVITE_VALIDITY
            },
            Err(e) => {
                &&& *final(db) == *old(db)
                &&& e matches storage::Error::Db(why) && if storage::used_up(
                    storage::invite_ids(old(db).invites@),
                ) {
                    why@ == "database or disk is full"@
                } else {
                    &&& why@ == "UNIQUE constraint failed: invites.secret_hash"@
                    &&& exists|secret: InviteSecret|
                        (#[trigger] storage::invite_of_hash(
                            old(db).invites@,
                            storage::sha256_digest(secret.0@),
                        )) is Some
                }
            },
        },
        storage::used_up(storage::invite_ids(old(db).invites@)) ==> r is Err,
        old(db).invites@.len() == 0 ==> r is Ok,
{
    let secret = InviteSecret(random_bytes());
    match record_invite(db, secret, node_name, user_id, now) {
        Ok(_) => Ok(secret),
        Err(e) => Err(e),
    }
}

//-- `waserver revoke` ------------------------------------------------------------
/// What is left to do about a guest that is to be revoked.
#[derive(Clone, Copy, Debug, PartialEq, Eq, Structural)]
pub enum RevokeStep {
    /// No server runs: the state database is told directly, and the guest learns about it on
    /// its next dial.
    TellDatabase,
    /// The server revoked the guest, and closed its live connections.
    Done,
}

/// How a guest is revoked, by what asking the running server for it came to.
pub fn revoke(asked: Asked) -> (r: Result<RevokeStep, String>)
    ensures
        match asked {
            Asked::NoServer => r == Ok::<RevokeStep, String>(RevokeStep::TellDatabase),
            Asked::Answered(Response::Success { .. }) => r == Ok::<RevokeStep, String>(
                RevokeStep::Done,
            ),
            Asked::Answered(Response::Error { error, .. }) => r == Err::<RevokeStep, String>(error),
            Asked::Failed(e) => r matches Err(why) && why@ == "error sending command to server: "@
                + e@,
        },
{
    match asked {
        Asked::NoServer => Ok(RevokeStep::TellDatabase),
        Asked::Answered(Response::Success { .. }) => Ok(RevokeStep::Done),
        Asked::Answered(Response::Error { error, .. }) => Err(error),
        Asked::Failed(e) => {
            let mut out = text::copied("error sending command to server: ");
            out.append(e.as_str());
            Err(out)
        },
    }
}

/// What is printed once a guest is revoked.
pub fn revoked_line(number: i64) -> (r: String)
    ensures
        r@ == "Guest "@ + text::signed_decimal(number as int) + " is now revoked"@,
{
    let mut out = text::copied("Guest ");
    text::push_signed(&mut out, number);
    out.append(" is now revoked");
    assert(out@ =~= "Guest "@ + text::signed_decimal(number as int) + " is now revoked"@);
    out
}

//-- Status -----------------------------------------------------------------------
/// Whether a guest of the report is that guest node.
pub open spec fn is_guest(g: GuestNode, r: GuestStatus) -> bool {
    &&& r.node_number == g.number as i32
    &&& r.name.deep_view() == Some(g.display_name@)
    &&& r.user_id.deep_view() == Some(g.user_id@)
    &&& r.created_at@ == clock::unix_text(g.activated_at)
    &&& r.last_seen_at.deep_view() == unix_opt(g.last_seen_at)
    &&& r.connected_to_server is None
    &&& r.connected_since is None
    &&& r.revoked == g.revoked_at is Some
    &&& r.revoked_at.deep_view() == unix_opt(g.revoked_at)
}

/// An optional second as a text.
pub open spec fn unix_opt(secs: Option<i64>) -> Option<Seq<char>> {
    match secs {
        Some(s) => Some(clock::unix_text(s)),
        None => None,
    }
}

fn fmt_unix_opt(secs: Option<i64>) -> (r: Option<String>)
    ensures
        r.deep_view() == unix_opt(secs),
{
    match secs {
        Some(s) => Some(clock::fmt_unix(s)),
        None => None,
    }
}

pub fn guest_status(g: &GuestNode) -> (r: GuestStatus)
    ensures
        is_guest(*g, r),
{
    GuestStatus {
        node_number: g.number as i32,
        name: Some(text::copied(g.display_name.as_str())),
        user_id: Some(text::copied(g.user_id.as_str())),
        created_at: clock::fmt_unix(g.activated_at),
        last_seen_at: fmt_unix_opt(g.last_seen_at),
        connected_to_server: None,
        connected_since: None,
        revoked: g.revoked_at.is_some(),
        revoked_at: fmt_unix_opt(g.revoked_at),
    }
}

/// How an invite of the state database stands at `now`: used once it is consumed, and
/// else expired from the second on that it expires.
pub open spec fn row_state(consumed: bool, expires_at: i64, now: Timestamp) -> Seq<char> {
    if consumed {
        "used"@
    } else if (Timestamp { secs: expires_at, nanos: 0 }).not_after(now) {
        "expired"@
    } else {
        "pending"@
    }
}

/// Whether an invite of the report is that row, as it stands at `now`.
pub open spec fn is_invite(i: InviteRow, r: InviteStatus, now: Timestamp) -> bool {
    &&& r.node_name.deep_view() == Some(i.node_name@)
    &&& r.user_id.deep_view() == Some(i.user_id@)
    &&& r.created_at@ == clock::unix_text(i.created_at)
    &&& r.expires_at@ == clock::unix_text(i.expires_at)
    &&& r.used_at.deep_view() == unix_opt(i.consumed_at)
    &&& r.status@ == status::invite_state(
        i.consumed_at is Some,
        clock::unix_text(i.expires_at),
        now,
    )
    &&& -62167219200 <= i.expires_at <= 253402300799 ==> r.status@ == row_state(
        i.consumed_at is Some,
        i.expires_at,
        now,
    )
}

pub fn invite_row_status(i: &InviteRow, now: Timestamp) -> (r: InviteStatus)
    ensures
        is_invite(*i, r, now),
{
    let expires_at = clock::fmt_unix(i.expires_at);
    let used_at = fmt_unix_opt(i.consumed_at);
    let used = match &used_at {
        Some(s) => Some(s.as_str()),
        None => None,
    };
    let status = status::invite_status(used, expires_at.as_str(), now);
    InviteStatus {
        status,
        node_name: Some(text::copied(i.node_name.as_str())),
        user_id: Some(text::copied(i.user_id.as_str())),
        created_at: clock::fmt_unix(i.created_at),
        expires_at,
        used_at,
    }
}

/// What a share without a state database reports.
pub const NO_STATE: &'static str = "share has no state database (init incomplete?)";

fn guest_statuses(db: &StateDb) -> (r: Vec<GuestStatus>)
    ensures
        r@.len() == db.guests@.len(),
        forall|i: int| 0 <= i < r@.len() ==> is_guest(db.guests@[i].node, #[trigger] r@[i]),
{
    let mut out: Vec<GuestStatus> = Vec::new();
    let mut i: usize = 0;
    while i < db.guests.len()
        invariant
            i <= db.guests@.len(),
            out@.len() == i,
            forall|j: int| 0 <= j < i ==> is_guest(db.guests@[j].node, #[trigger] out@[j]),
        decreases db.guests@.len() - i,
    {
        out.push(guest_status(&db.guests[i].node));
        i = i + 1;
    }
    out
}

/// Whether invites are as rows of a state database, as they stand at `now`.
pub open spec fn is_invite_of(v: storage::InviteRowView, r: InviteStatus, now: Timestamp) -> bool {
    &&& r.node_name.deep_view() == Some(v.node_name)
    &&& r.user_id.deep_view() == Some(v.user_id)
    &&& r.created_at@ == clock::unix_text(v.created_at)
    &&& r.expires_at@ == clock::unix_text(v.expires_at)
    &&& r.used_at.deep_view() == unix_opt(v.consumed_at)
    &&& r.status@ == status::invite_state(
        v.consumed_at is Some,
        clock::unix_text(v.expires_at),
        now,
    )
    &&& -62167219200 <= v.expires_at <= 253402300799 ==> r.status@ == row_state(
        v.consumed_at is Some,
        v.expires_at,
        now,
    )
}

fn invite_statuses(rows: &Vec<InviteRow>, now: Timestamp) -> (r: Vec<InviteStatus>)
    ensures
        r@.len() == rows@.len(),
        forall|i: int|
            0 <= i < r@.len() ==> is_invite_of(rows.deep_view()[i], #[trigger] r@[i], now),
{
    let mut out: Vec<InviteStatus> = Vec::new();
    let mut i: usize = 0;
    while i < rows.len()
        invariant
            i <= rows@.len(),
            out@.len() == i,
            forall|j: int|
                0 <= j < i ==> is_invite_of(rows.deep_view()[j], #[trigger] out@[j], now),
        decreases rows@.len() - i,
    {
        assert(rows.deep_view()[i as int] == rows@[i as int].deep_view());
        out.push(invite_row_status(&rows[i], now));
        i = i + 1;
    }
    out
}

/// Fills in the transport's report, by the share's state database. `endpoint_id` is that
/// of the key in it, where there is one.
pub fn report(state: Option<&StateDb>, endpoint_id: Option<String>, now: Timestamp) -> (r:
    TransportReport)
    requires
        now.secs - storage::INVITE_HISTORY >= i64::MIN,
    ensures
        match state {
            None => {
                &&& r.guests matches Err(e) && e@ == NO_STATE@
                &&& r.invites matches Err(e) && e@ == NO_STATE@
                &&& r.transport == Some(TransportStatus::Iroh { endpoint_id: None })
            },
            Some(db) => {
                let shown = storage::shown_invites(
                    db.invites@,
                    db.invites@.len() as int,
                    now.secs,
                );
                &&& r.guests matches Ok(guests) && guests@.len() == db.guests@.len() && (forall|
                    i: int,
                |
                    0 <= i < guests@.len() ==> is_guest(db.guests@[i].node, #[trigger] guests@[i]))
                &&& r.invites matches Ok(invites) && invites@.len() == shown.len() && (forall|i: int|
                    0 <= i < invites@.len() ==> is_invite_of(shown[i], #[trigger] invites@[i], now))
                &&& r.transport == Some(TransportStatus::Iroh { endpoint_id })
            },
        },
{
    match state {
        None => TransportReport {
            guests: Err(text::copied(NO_STATE)),
            invites: Err(text::copied(NO_STATE)),
            transport: Some(TransportStatus::Iroh { endpoint_id: None }),
        },
        Some(db) => {
            let rows = db.recent_invites(now.secs);
            TransportReport {
                guests: Ok(guest_statuses(db)),
                invites: Ok(invite_statuses(&rows, now)),
                transport: Some(TransportStatus::Iroh { endpoint_id }),
            }
        },
    }
}

//-- What the report says of the rows ---------------------------------------------
/// An invite of the state database is used once it is consumed, and otherwise expired from
/// the second on that it expires.
pub proof fn recorded_invites_expire_to_the_second(consumed: bool, expires_at: i64, now: Timestamp)
    ensures
        row_state(consumed, expires_at, now) == if consumed {
            "used"@
        } else if expires_at <= now.secs {
            "expired"@
        } else {
            "pending"@
        },
{
}

/// A guest is reported under its own number, name and user, with the times of its row, and as
/// revoked where its row says so; an invite with its own name and user, and as used where it
/// was.
pub proof fn rows_are_reported_as_they_are(
    g: GuestNode,
    s: GuestStatus,
    i: InviteRow,
    v: InviteStatus,
    now: Timestamp,
)
    ensures
        is_guest(g, s) ==> {
            &&& -0x8000_0000 <= g.number <= 0x7fff_ffff ==> s.node_number == g.number
            &&& s.name matches Some(name) && name@ == g.display_name@
            &&& s.user_id matches Some(user) && user@ == g.user_id@
            &&& s.created_at@ == clock::unix_text(g.activated_at)
            &&& s.last_seen_at is Some <==> g.last_seen_at is Some
            &&& s.last_seen_at matches Some(t) ==> t@ == clock::unix_text(g.last_seen_at->0)
            &&& s.revoked <==> g.revoked_at is Some
            &&& s.revoked_at is Some <==> g.revoked_at is Some
            &&& s.revoked_at matches Some(t) ==> t@ == clock::unix_text(g.revoked_at->0)
        },
        is_invite(i, v, now) ==> {
            &&& v.node_name matches Some(name) && name@ == i.node_name@
            &&& v.user_id matches Some(user) && user@ == i.user_id@
            &&& v.created_at@ == clock::unix_text(i.created_at)
            &&& v.expires_at@ == clock::unix_text(i.expires_at)
            &&& v.used_at is Some <==> i.consumed_at is Some
            &&& v.used_at matches Some(t) ==> t@ == clock::unix_text(i.consumed_at->0)
            &&& i.consumed_at is Some ==> v.status@ == "used"@
        },
{
}

/// An invite that is reported is the one that was recorded: its name, its user, its times, and
/// whether it can still be redeemed.
pub proof fn recorded_invites_are_reported(
    v: storage::InviteRowView,
    r: InviteStatus,
    now: Timestamp,
)
    requires
        is_invite_of(v, r, now),
    ensures
        r.node_name matches Some(name) && name@ == v.node_name,
        r.user_id matches Some(user) && user@ == v.user_id,
        r.created_at@ == clock::unix_text(v.created_at),
        r.expires_at@ == clock::unix_text(v.expires_at),
        r.used_at is Some <==> v.consumed_at is Some,
        r.used_at matches Some(t) ==> t@ == clock::unix_text(v.consumed_at->0),
        v.consumed_at is Some ==> r.status@ == "used"@,
        v.consumed_at is None && -62167219200 <= v.expires_at <= 253402300799 ==> r.status@
            == if v.expires_at <= now.secs {
            "expired"@
        } else {
            "pending"@
        },
{
}

} // verus!
