//! The `status` command.
//!
//! Overview with `waserver status`, per-share status with `waserver status <share>`.
//! Both forms gather into the same report, so `--json` and the human rendering never
//! disagree.
use crate::clock::{self, Timestamp};
use crate::server::config::{AppKind, ShareConfig, TransportConfig};
use crate::server::connect::SERVER_NODE_NUMBER;
use crate::server::ipc;
use crate::server::storage;
use crate::server::wcbe;
use crate::text;
use vstd::prelude::*;

verus! {

//-- Report shape -----------------------------------------------------------------
#[derive(Debug, PartialEq, Eq)]
pub struct StatusReport {
    pub shares: Vec<ShareStatus>,
    /// Domain-wide connectivity-group quota, one entry per distinct backend + API key
    /// among the shares. Fleet view only; omitted when no stats query succeeded.
    pub groups_quota: Option<Vec<GroupsQuota>>,
}

/// One backend's connectivity-group quota usage.
#[derive(Debug, PartialEq, Eq)]
pub struct GroupsQuota {
    /// Custom backend URL, `None` for the managed backend.
    pub backend: Option<String>,
    /// The local shares whose API key counts against this quota. Two shares with
    /// different keys live in different domains: each gets its own entry, even on the
    /// same backend.
    pub shares: Vec<String>,
    /// The API key's public ID part (`wc_<env>_<id>`, everything before the dot; the
    /// secret half is never shown). Matches the key listing in the backend's console.
    /// `None` when the key doesn't have the expected shape.
    pub key_id: Option<String>,
    pub count: i32,
    /// `None` = unlimited.
    pub max: Option<i32>,
}

#[derive(Debug, PartialEq, Eq)]
pub struct ShareStatus {
    pub name: String,
    /// Display name from `share.toml`, `None` when the file failed to load (see
    /// `config_error`).
    pub display_name: Option<String>,
    pub config_error: Option<String>,
    /// The transport and what is specific to it; `None` when the config failed to
    /// load.
    pub transport: Option<TransportStatus>,
    pub server: ServerStatus,
    /// The apps: the running server's list while it runs, else the file's.
    pub apps: Vec<AppStatus>,
    /// The guests; the host itself is not listed. `None` when the query failed (see
    /// `guests_error`).
    pub guests: Option<Vec<GuestStatus>>,
    pub guests_error: Option<String>,
    /// `None` when the query failed (see `invites_error`).
    pub invites: Option<Vec<InviteStatus>>,
    pub invites_error: Option<String>,
}

/// What only one transport has, tagged by `kind` as in `share.toml`.
#[derive(Debug, PartialEq, Eq)]
pub enum TransportStatus {
    WispersConnect {
        /// Custom backend URL, `None` for the managed backend.
        backend: Option<String>,
        connectivity_group_id: Option<String>,
        /// In the form of RFC 3339.
        group_created_at: Option<String>,
        /// Node-quota usage of the group: `current` (this host node, guest nodes, and
        /// pending invites) vs `limit` (`None` = unlimited). Absent when the backend
        /// doesn't report it.
        node_quota: Option<wcbe::NodeQuota>,
    },
    Iroh {
        /// The host node's endpoint ID.
        endpoint_id: Option<String>,
    },
}

#[derive(Debug, PartialEq, Eq)]
pub struct ServerStatus {
    /// `serving` | `connecting` | `offline` | `error`
    pub state: &'static str,
    pub error: Option<String>,
    /// Reachable by guests.
    pub reachable: Option<bool>,
    pub pid: Option<u32>,
    /// In the form of RFC 3339.
    pub started_at: Option<String>,
    /// In the form of RFC 3339.
    pub connected_since: Option<String>,
    /// `share.toml` on disk differs from what the server serves. `None` when the
    /// server is down or the file is broken.
    pub reload_pending: Option<bool>,
}

#[derive(Debug, PartialEq, Eq)]
pub struct AppStatus {
    pub id: String,
    pub name: String,
    pub kind: AppKind,
    pub upstream: String,
    /// A TCP connection to the upstream succeeded just now.
    pub upstream_reachable: bool,
}

/// A recent invite. An invite showing `used` with no matching guest means the join
/// was rolled back: issue a new invite. The times are in the form of RFC 3339.
#[derive(Debug, PartialEq, Eq)]
pub struct InviteStatus {
    pub node_name: Option<String>,
    pub user_id: Option<String>,
    pub created_at: String,
    pub expires_at: String,
    pub used_at: Option<String>,
    /// `pending` | `used` | `expired`
    pub status: &'static str,
}

/// A guest. The times are in the form of RFC 3339.
#[derive(Debug, PartialEq, Eq)]
pub struct GuestStatus {
    /// The node number (Wispers Connect) or guest number (iroh).
    pub node_number: i32,
    pub name: Option<String>,
    pub user_id: Option<String>,
    pub created_at: String,
    pub last_seen_at: Option<String>,
    /// Does the guest have a live P2P connection to this host node right now?
    pub connected_to_server: Option<bool>,
    pub connected_since: Option<String>,
    /// The host node revoked the guest; its key is never served again. A guest that
    /// left is simply gone. iroh only: the hub's integrator API does not expose the
    /// roster's node state, and a revoked node is deregistered there anyway.
    pub revoked: bool,
    /// When, where known (iroh; the hub's roster carries no time).
    pub revoked_at: Option<String>,
}

/// The transport's part of the status report.
pub struct TransportReport {
    pub guests: Result<Vec<GuestStatus>, String>,
    pub invites: Result<Vec<InviteStatus>, String>,
    pub transport: Option<TransportStatus>,
}

impl ServerStatus {
    pub open spec fn is_offline(self) -> bool {
        &&& self.state@ == "offline"@
        &&& self.error is None
        &&& self.reachable is None
        &&& self.pid is None
        &&& self.started_at is None
        &&& self.connected_since is None
        &&& self.reload_pending is None
    }

    pub open spec fn is_error(self, msg: Seq<char>) -> bool {
        &&& self.state@ == "error"@
        &&& self.error.deep_view() == Some(msg)
        &&& self.reachable is None
        &&& self.pid is None
        &&& self.started_at is None
        &&& self.connected_since is None
        &&& self.reload_pending is None
    }

    /// The status of a server that is not running.
    pub fn offline() -> (r: ServerStatus)
        ensures
            r.is_offline(),
    {
        ServerStatus {
            state: "offline",
            error: None,
            reachable: None,
            pid: None,
            started_at: None,
            connected_since: None,
            reload_pending: None,
        }
    }

    /// The status of a server that answers with an error.
    pub fn error(msg: String) -> (r: ServerStatus)
        ensures
            r.is_error(msg@),
    {
        ServerStatus {
            state: "error",
            error: Some(msg),
            reachable: None,
            pid: None,
            started_at: None,
            connected_since: None,
            reload_pending: None,
        }
    }
}

//-- Gathering --------------------------------------------------------------------
/// Only a share that was initialised has a status.
pub fn require_share(share: &str, initialised: bool) -> (r: Result<(), String>)
    ensures
        r is Ok <==> initialised,
        r matches Err(e) ==> e@ == "Share "@ + share@ + " is not initialised"@,
{
    if initialised {
        return Ok(());
    }
    let mut out = text::copied("Share ");
    out.append(share);
    out.append(" is not initialised");
    Err(out)
}

/// The shares of the overview, in the order in which it shows them: by name.
pub fn fleet_order(names: Vec<String>) -> (r: Vec<String>)
    ensures
        text::sorted(r.deep_view()),
        r@.to_multiset() == names@.to_multiset(),
{
    let mut names = names;
    text::sort(&mut names);
    names
}

/// What a share's files hold.
pub struct Loaded {
    pub config: ShareConfig,
    pub wcs: Option<storage::WispersConnectState>,
}

/// What a share's files come to. A config that fails to load is an error; a missing
/// `state.db` (an `init` that did not complete) only leaves `wcs` empty, so the apps
/// still show.
pub fn load_share(
    config: Result<ShareConfig, storage::Error>,
    state: Result<storage::StateDb, storage::Error>,
) -> (r: Result<Loaded, storage::Error>)
    requires
        state is Ok ==> state->Ok_0.wf(),
    ensures
        match config {
            Err(e) => r == Err::<Loaded, storage::Error>(e),
            Ok(cfg) => match state {
                Ok(db) => r matches Ok(loaded) && loaded.config == cfg && match loaded.wcs {
                    Some(wcs) => storage::connect_state(db.kv@) == Some(
                        (wcs.api_key@, wcs.connectivity_group_id@),
                    ),
                    None => storage::connect_state(db.kv@) is None,
                },
                Err(e) => if e is NotInitialised {
                    r == Ok::<Loaded, storage::Error>(Loaded { config: cfg, wcs: None })
                } else {
                    r == Err::<Loaded, storage::Error>(e)
                },
            },
        },
{
    let config = match config {
        Ok(cfg) => cfg,
        Err(e) => {
            return Err(e);
        },
    };
    match state {
        Ok(db) => Ok(Loaded { config, wcs: db.wispers_connect_state() }),
        Err(storage::Error::NotInitialised(_)) => Ok(Loaded { config, wcs: None }),
        Err(e) => Err(e),
    }
}

/// What a query of the daemon came to.
pub enum ServerReply {
    /// Nothing listens, or it went down just now.
    Down,
    Answered(ipc::Response),
}

/// What is known of the daemon: its status, the guests connected to it, and the apps
/// it serves (the latter two `None` when the daemon is down).
pub struct ServerView {
    pub status: ServerStatus,
    pub guests: Option<Vec<ipc::GuestData>>,
    pub apps: Option<Vec<ipc::AppData>>,
}

/// What the daemon's answer tells.
pub fn query_server(reply: ServerReply, config: Option<&ShareConfig>) -> (r: ServerView)
    ensures
        match reply {
            ServerReply::Down => r.status.is_offline() && r.guests is None && r.apps is None,
            ServerReply::Answered(ipc::Response::Error { error, .. }) => r.status.is_error(error@)
                && r.guests is None && r.apps is None,
            ServerReply::Answered(ipc::Response::Success { data, .. }) => match data {
                ipc::ResponseData::Status(s) => {
                    &&& r.status.state@ == if s.reachable {
                        "serving"@
                    } else {
                        "connecting"@
                    }
                    &&& r.status.error is None
                    &&& r.status.reachable == Some(s.reachable)
                    &&& r.status.pid == Some(s.pid)
                    &&& r.status.started_at == Some(s.started_at)
                    &&& r.status.connected_since == s.connected_since
                    &&& r.status.reload_pending == (match config {
                        Some(c) => Some(c.hash_spec() != s.config_hash),
                        None => None,
                    })
                    &&& r.guests == s.connected_guests
                    &&& r.apps == Some(s.apps)
                },
                _ => r.status.is_error("unexpected response from server"@) && r.guests is None
                    && r.apps is None,
            },
        },
{
    match reply {
        ServerReply::Down => ServerView {
            status: ServerStatus::offline(),
            guests: None,
            apps: None,
        },
        ServerReply::Answered(ipc::Response::Error { error, .. }) => ServerView {
            status: ServerStatus::error(error),
            guests: None,
            apps: None,
        },
        ServerReply::Answered(ipc::Response::Success { data, .. }) => match data {
            ipc::ResponseData::Status(s) => ServerView {
                status: ServerStatus {
                    state: if s.reachable {
                        "serving"
                    } else {
                        "connecting"
                    },
                    error: None,
                    reachable: Some(s.reachable),
                    pid: Some(s.pid),
                    started_at: Some(s.started_at),
                    connected_since: s.connected_since,
                    reload_pending: match config {
                        Some(c) => Some(c.config_hash() != s.config_hash),
                        None => None,
                    },
                },
                guests: s.connected_guests,
                apps: Some(s.apps),
            },
            _ => ServerView {
                status: ServerStatus::error(text::copied("unexpected response from server")),
                guests: None,
                apps: None,
            },
        },
    }
}

/// The transport's part of the report where the config failed to load.
pub fn no_transport_report() -> (r: TransportReport)
    ensures
        r.guests matches Err(e) && e@ == "share config failed to load"@,
        r.invites matches Err(e) && e@ == "share config failed to load"@,
        r.transport is None,
{
    TransportReport {
        guests: Err(text::copied("share config failed to load")),
        invites: Err(text::copied("share config failed to load")),
        transport: None,
    }
}

/// Where the live entry of that node first stands, from the `i`th on.
pub open spec fn live_entry(connected: Seq<ipc::GuestData>, number: i32, i: int) -> Option<int>
    decreases connected.len() - i,
{
    if i >= connected.len() {
        None
    } else if connected[i].node_number == number {
        Some(i)
    } else {
        live_entry(connected, number, i + 1)
    }
}

/// Whether `after` is `before` with the server's live view laid over it. A revoked
/// guest stays as it is.
pub open spec fn overlaid(
    before: GuestStatus,
    after: GuestStatus,
    connected: Seq<ipc::GuestData>,
) -> bool {
    if before.revoked {
        after == before
    } else {
        match live_entry(connected, before.node_number, 0) {
            Some(k) => {
                &&& after.connected_since.deep_view() == connected[k].connected_since.deep_view()
                &&& after == (GuestStatus {
                    connected_to_server: Some(true),
                    connected_since: after.connected_since,
                    ..before
                })
            },
            None => after == (GuestStatus { connected_to_server: Some(false), ..before }),
        }
    }
}

/// Overlay the server's live view onto the guest list: while the daemon runs it knows
/// authoritatively which guests are connected to it.
pub fn apply_live_connections(guests: &mut Vec<GuestStatus>, connected: &Vec<ipc::GuestData>)
    ensures
        final(guests)@.len() == old(guests)@.len(),
        forall|i: int|
            0 <= i < old(guests)@.len() ==> overlaid(
                #[trigger] old(guests)@[i],
                final(guests)@[i],
                connected@,
            ),
{
    let ghost start = guests@;
    let mut i: usize = 0;
    while i < guests.len()
        invariant
            i <= guests@.len(),
            guests@.len() == start.len(),
            forall|j: int| 0 <= j < i ==> overlaid(#[trigger] start[j], guests@[j], connected@),
            forall|j: int| i <= j < start.len() ==> #[trigger] guests@[j] == start[j],
        decreases guests@.len() - i,
    {
        assert(guests@[i as int] == start[i as int]);
        if !guests[i].revoked {
            let number: i32 = guests[i].node_number;
            let mut k: usize = 0;
            while k < connected.len() && connected[k].node_number != number
                invariant
                    k <= connected@.len(),
                    live_entry(connected@, number, 0) == live_entry(connected@, number, k as int),
                decreases connected@.len() - k,
            {
                k = k + 1;
            }
            if k < connected.len() {
                let since = text::copied_opt(&connected[k].connected_since);
                guests[i].connected_to_server = Some(true);
                guests[i].connected_since = since;
            } else {
                guests[i].connected_to_server = Some(false);
            }
        }
        i = i + 1;
    }
}

/// The apps of the report: the running server's app list wins; a stopped server shows
/// the file's.
pub fn shown_apps(served: Option<Vec<ipc::AppData>>, config: Option<&ShareConfig>) -> (r: Vec<
    ipc::AppData,
>)
    ensures
        match (served, config) {
            (Some(apps), _) => r == apps,
            (None, Some(cfg)) => ipc::lists_apps(*cfg, r@),
            (None, None) => r@.len() == 0,
        },
{
    match served {
        Some(apps) => apps,
        None => match config {
            Some(cfg) => ipc::app_data(cfg),
            None => Vec::new(),
        },
    }
}

/// The apps with what probing each one's upstream came to.
pub fn probe_apps(apps: Vec<ipc::AppData>, reachable: &Vec<bool>) -> (r: Vec<AppStatus>)
    requires
        reachable@.len() == apps@.len(),
    ensures
        r@.len() == apps@.len(),
        forall|i: int|
            0 <= i < apps@.len() ==> {
                &&& (#[trigger] r@[i]).id@ == apps@[i].id@
                &&& r@[i].name@ == apps@[i].name@
                &&& r@[i].kind == apps@[i].kind
                &&& r@[i].upstream@ == apps@[i].upstream@
                &&& r@[i].upstream_reachable == reachable@[i]
            },
{
    let mut out: Vec<AppStatus> = Vec::new();
    let mut i: usize = 0;
    while i < apps.len()
        invariant
            i <= apps@.len(),
            reachable@.len() == apps@.len(),
            out@.len() == i,
            forall|j: int|
                0 <= j < i ==> {
                    &&& (#[trigger] out@[j]).id@ == apps@[j].id@
                    &&& out@[j].name@ == apps@[j].name@
                    &&& out@[j].kind == apps@[j].kind
                    &&& out@[j].upstream@ == apps@[j].upstream@
                    &&& out@[j].upstream_reachable == reachable@[j]
                },
        decreases apps@.len() - i,
    {
        let s = &apps[i];
        out.push(
            AppStatus {
                id: text::copied(s.id.as_str()),
                name: text::copied(s.name.as_str()),
                kind: s.kind,
                upstream: text::copied(s.upstream.as_str()),
                upstream_reachable: reachable[i],
            },
        );
        i = i + 1;
    }
    out
}

/// Whether a report's guest is the transport's guest with what the daemon knows: its
/// live view, or, where it is not running, that nobody is connected.
pub open spec fn merged(
    before: GuestStatus,
    after: GuestStatus,
    live: Option<Vec<ipc::GuestData>>,
    offline: bool,
) -> bool {
    match live {
        Some(connected) => overlaid(before, after, connected@),
        None => if offline {
            after == (GuestStatus { connected_to_server: Some(false), ..before })
        } else {
            after == before
        },
    }
}

/// Whether a server runs or not, it only tells who is connected: whatever else is reported of
/// a guest comes from the transport, and a running server tells nothing of a revoked one.
pub proof fn servers_only_tell_who_is_connected(
    before: GuestStatus,
    after: GuestStatus,
    live: Option<Vec<ipc::GuestData>>,
    offline: bool,
)
    requires
        merged(before, after, live, offline),
    ensures
        after == (GuestStatus {
            connected_to_server: after.connected_to_server,
            connected_since: after.connected_since,
            ..before
        }),
        live is Some && before.revoked ==> after == before,
{
}

/// A stopped server has no connections.
fn disconnect_all(guests: &mut Vec<GuestStatus>)
    ensures
        final(guests)@.len() == old(guests)@.len(),
        forall|i: int|
            0 <= i < old(guests)@.len() ==> final(guests)@[i] == (GuestStatus {
                connected_to_server: Some(false),
                ..#[trigger] old(guests)@[i]
            }),
{
    let ghost start = guests@;
    let mut i: usize = 0;
    while i < guests.len()
        invariant
            i <= guests@.len(),
            guests@.len() == start.len(),
            forall|j: int|
                0 <= j < i ==> guests@[j] == (GuestStatus {
                    connected_to_server: Some(false),
                    ..#[trigger] start[j]
                }),
            forall|j: int| i <= j < start.len() ==> #[trigger] guests@[j] == start[j],
        decreases guests@.len() - i,
    {
        assert(guests@[i as int] == start[i as int]);
        guests[i].connected_to_server = Some(false);
        i = i + 1;
    }
}

/// One share's status, from what its files, its daemon, its transport and the probes
/// of its apps tell.
pub fn gather_share(
    name: &str,
    loaded: Result<Loaded, String>,
    server: ServerView,
    report: TransportReport,
    apps: Vec<AppStatus>,
) -> (r: ShareStatus)
    ensures
        r.name@ == name@,
        match loaded {
            Ok(l) => r.display_name.deep_view() == Some(l.config.name@) && r.config_error is None,
            Err(e) => r.display_name is None && r.config_error == Some(e),
        },
        r.transport == report.transport,
        r.server == server.status,
        r.apps == apps,
        match report.guests {
            Ok(before) => {
                &&& r.guests_error is None
                &&& r.guests matches Some(after) && after@.len() == before@.len() && (forall|i: int|
                    0 <= i < before@.len() ==> merged(
                        #[trigger] before@[i],
                        after@[i],
                        server.guests,
                        server.status.state@ == "offline"@,
                    ))
            },
            Err(e) => r.guests is None && r.guests_error == Some(e),
        },
        match report.invites {
            Ok(invites) => r.invites == Some(invites) && r.invites_error is None,
            Err(e) => r.invites is None && r.invites_error == Some(e),
        },
{
    let (display_name, config_error) = match loaded {
        Ok(l) => (Some(text::copied(l.config.name.as_str())), None),
        Err(e) => (None, Some(e)),
    };
    let (guests, guests_error) = match report.guests {
        Ok(g) => {
            let mut guests = g;
            match &server.guests {
                Some(connected) => {
                    apply_live_connections(&mut guests, connected);
                },
                None => {
                    if text::same_text(server.status.state, "offline") {
                        disconnect_all(&mut guests);
                    }
                },
            }
            (Some(guests), None)
        },
        Err(e) => (None, Some(e)),
    };
    let (invites, invites_error) = match report.invites {
        Ok(i) => (Some(i), None),
        Err(e) => (None, Some(e)),
    };
    ShareStatus {
        name: text::copied(name),
        display_name,
        config_error,
        transport: report.transport,
        server: server.status,
        apps,
        guests,
        guests_error,
        invites,
        invites_error,
    }
}

//-- Group quotas -----------------------------------------------------------------
/// One backend and API key, and the shares that use them.
#[derive(Debug, PartialEq, Eq)]
pub struct Target {
    pub api_base: String,
    pub api_key: String,
    pub backend: Option<String>,
    pub shares: Vec<String>,
}

/// A [`Target`] with its texts as character sequences.
pub struct TargetView {
    pub api_base: Seq<char>,
    pub api_key: Seq<char>,
    pub backend: Option<Seq<char>>,
    pub shares: Seq<Seq<char>>,
}

impl DeepView for Target {
    type V = TargetView;

    open spec fn deep_view(&self) -> TargetView {
        TargetView {
            api_base: self.api_base@,
            api_key: self.api_key@,
            backend: self.backend.deep_view(),
            shares: self.shares.deep_view(),
        }
    }
}

/// Where the target of that backend and API key first stands, from the `i`th on.
pub open spec fn target_index(
    targets: Seq<TargetView>,
    api_base: Seq<char>,
    api_key: Seq<char>,
    i: int,
) -> Option<int>
    decreases targets.len() - i,
{
    if i >= targets.len() {
        None
    } else if targets[i].api_base == api_base && targets[i].api_key == api_key {
        Some(i)
    } else {
        target_index(targets, api_base, api_key, i + 1)
    }
}

/// The targets with one more share: on the target of its backend and API key, or on a
/// new one.
pub open spec fn add_target(
    targets: Seq<TargetView>,
    name: Seq<char>,
    backend: Option<Seq<char>>,
    api_key: Seq<char>,
) -> Seq<TargetView> {
    let api_base = wcbe::api_base_of(backend);
    match target_index(targets, api_base, api_key, 0) {
        Some(k) => targets.update(
            k,
            TargetView { shares: targets[k].shares.push(name), ..targets[k] },
        ),
        None => targets.push(TargetView { api_base, api_key, backend, shares: seq![name] }),
    }
}

/// The targets of the first `n` shares. A share counts where its files loaded, its
/// transport is Wispers Connect and its credentials are there.
pub open spec fn targets_of(loaded: Seq<(String, Result<Loaded, String>)>, n: int) -> Seq<
    TargetView,
>
    decreases n,
{
    if n <= 0 {
        Seq::empty()
    } else {
        let before = targets_of(loaded, n - 1);
        match loaded[n - 1].1 {
            Ok(l) => match (l.config.transport, l.wcs) {
                (TransportConfig::WispersConnect { backend }, Some(wcs)) => add_target(
                    before,
                    loaded[n - 1].0@,
                    backend.deep_view(),
                    wcs.api_key@,
                ),
                _ => before,
            },
            Err(_) => before,
        }
    }
}

fn find_target(targets: &Vec<Target>, api_base: &str, api_key: &str) -> (r: Option<usize>)
    ensures
        match r {
            Some(k) => k < targets@.len() && target_index(
                targets.deep_view(),
                api_base@,
                api_key@,
                0,
            ) == Some(k as int),
            None => target_index(targets.deep_view(), api_base@, api_key@, 0) is None,
        },
{
    let mut i: usize = 0;
    while i < targets.len()
        invariant
            i <= targets@.len(),
            target_index(targets.deep_view(), api_base@, api_key@, 0) == target_index(
                targets.deep_view(),
                api_base@,
                api_key@,
                i as int,
            ),
        decreases targets@.len() - i,
    {
        assert(targets.deep_view()[i as int] == targets@[i as int].deep_view());
        if text::same_text(targets[i].api_base.as_str(), api_base) && text::same_text(
            targets[i].api_key.as_str(),
            api_key,
        ) {
            return Some(i);
        }
        i = i + 1;
    }
    None
}

/// The distinct backends and API keys among the shares, each with its shares: what
/// `GET /stats` is queried of, once each.
pub fn quota_targets(loaded: &Vec<(String, Result<Loaded, String>)>) -> (r: Vec<Target>)
    ensures
        r.deep_view() == targets_of(loaded@, loaded@.len() as int),
{
    let mut targets: Vec<Target> = Vec::new();
    let mut i: usize = 0;
    assert(targets.deep_view() =~= targets_of(loaded@, 0));
    while i < loaded.len()
        invariant
            i <= loaded@.len(),
            targets.deep_view() == targets_of(loaded@, i as int),
        decreases loaded@.len() - i,
    {
        let ghost before = targets.deep_view();
        match &loaded[i].1 {
            Ok(l) => match (&l.config.transport, &l.wcs) {
                (TransportConfig::WispersConnect { backend }, Some(wcs)) => {
                    let name = text::copied(loaded[i].0.as_str());
                    let api_base = wcbe::api_base(
                        match backend {
                            Some(b) => Some(b.as_str()),
                            None => None,
                        },
                    );
                    match find_target(&targets, api_base.as_str(), wcs.api_key.as_str()) {
                        Some(k) => {
                            let ghost had = targets@[k as int];
                            let ghost all = targets@;
                            targets[k].shares.push(name);
                            proof {
                                let now = targets@[k as int];
                                assert(now.shares.deep_view() =~= had.shares.deep_view().push(
                                    name@,
                                ));
                                assert(now.deep_view() == (TargetView {
                                    shares: had.shares.deep_view().push(name@),
                                    ..had.deep_view()
                                }));
                                assert(targets@ =~= all.update(k as int, now));
                                assert(targets.deep_view() =~= before.update(
                                    k as int,
                                    now.deep_view(),
                                ));
                            }
                        },
                        None => {
                            let mut shares: Vec<String> = Vec::new();
                            shares.push(name);
                            assert(shares.deep_view() =~= seq![name@]);
                            let target = Target {
                                api_base,
                                api_key: text::copied(wcs.api_key.as_str()),
                                backend: text::copied_opt(backend),
                                shares,
                            };
                            let ghost added = target.deep_view();
                            targets.push(target);
                            assert(targets.deep_view() =~= before.push(added));
                        },
                    }
                },
                _ => {},
            },
            Err(_) => {},
        }
        i = i + 1;
    }
    targets
}

/// A backend and API key are queried once, however many shares use them.
pub proof fn targets_are_distinct(loaded: Seq<(String, Result<Loaded, String>)>, n: int)
    requires
        0 <= n <= loaded.len(),
    ensures
        forall|i: int, j: int|
            0 <= i < j < targets_of(loaded, n).len() ==> (#[trigger] targets_of(
                loaded,
                n,
            )[i]).api_base != (#[trigger] targets_of(loaded, n)[j]).api_base || targets_of(
                loaded,
                n,
            )[i].api_key != targets_of(loaded, n)[j].api_key,
    decreases n,
{
    if n > 0 {
        targets_are_distinct(loaded, n - 1);
        let before = targets_of(loaded, n - 1);
        match loaded[n - 1].1 {
            Ok(l) => match (l.config.transport, l.wcs) {
                (TransportConfig::WispersConnect { backend }, Some(wcs)) => {
                    lemma_target_index(
                        before,
                        wcbe::api_base_of(backend.deep_view()),
                        wcs.api_key@,
                        0,
                    );
                },
                _ => {},
            },
            Err(_) => {},
        }
    }
}

proof fn lemma_target_index(
    targets: Seq<TargetView>,
    api_base: Seq<char>,
    api_key: Seq<char>,
    i: int,
)
    requires
        0 <= i <= targets.len(),
    ensures
        match target_index(targets, api_base, api_key, i) {
            Some(k) => i <= k < targets.len() && targets[k].api_base == api_base
                && targets[k].api_key == api_key,
            None => forall|j: int|
                i <= j < targets.len() ==> (#[trigger] targets[j]).api_base != api_base
                    || targets[j].api_key != api_key,
        },
    decreases targets.len() - i,
{
    if i < targets.len() && !(targets[i].api_base == api_base && targets[i].api_key == api_key) {
        lemma_target_index(targets, api_base, api_key, i + 1);
    }
}

/// Every share that counts stands on the target of its own backend and API key.
pub proof fn targets_cover_every_share(
    loaded: Seq<(String, Result<Loaded, String>)>,
    n: int,
    i: int,
    backend: Option<String>,
)
    requires
        0 <= i < n <= loaded.len(),
        loaded[i].1 is Ok,
        loaded[i].1->Ok_0.config.transport == (TransportConfig::WispersConnect { backend }),
        loaded[i].1->Ok_0.wcs is Some,
    ensures
        exists|k: int|
            0 <= k < targets_of(loaded, n).len() && {
                let t = #[trigger] targets_of(loaded, n)[k];
                &&& t.api_base == wcbe::api_base_of(backend.deep_view())
                &&& t.api_key == loaded[i].1->Ok_0.wcs->0.api_key@
                &&& t.shares.contains(loaded[i].0@)
            },
    decreases n,
{
    let base = wcbe::api_base_of(backend.deep_view());
    let key = loaded[i].1->Ok_0.wcs->0.api_key@;
    let before = targets_of(loaded, n - 1);
    let after = targets_of(loaded, n);
    if i == n - 1 {
        lemma_target_index(before, base, key, 0);
        match target_index(before, base, key, 0) {
            Some(k) => {
                assert(after[k].shares.last() == loaded[i].0@);
                assert(after[k].shares.contains(loaded[i].0@));
            },
            None => {
                assert(after[before.len() as int].shares[0] == loaded[i].0@);
            },
        }
    } else {
        targets_cover_every_share(loaded, n - 1, i, backend);
        let k = choose|k: int|
            0 <= k < before.len() && {
                let t = #[trigger] before[k];
                &&& t.api_base == base
                &&& t.api_key == key
                &&& t.shares.contains(loaded[i].0@)
            };
        match loaded[n - 1].1 {
            Ok(l) => match (l.config.transport, l.wcs) {
                (TransportConfig::WispersConnect { backend: other }, Some(wcs)) => {
                    lemma_target_index(
                        before,
                        wcbe::api_base_of(other.deep_view()),
                        wcs.api_key@,
                        0,
                    );
                    let w = before[k].shares.index_of(loaded[i].0@);
                    assert(after[k].shares[w] == loaded[i].0@);
                },
                _ => {},
            },
            Err(_) => {},
        }
        assert(after[k].api_base == base);
    }
}

/// What a target's stats come to.
pub open spec fn quota_of(target: Target, stats: wcbe::Stats, quota: GroupsQuota) -> bool {
    &&& quota.backend.deep_view() == target.backend.deep_view()
    &&& quota.shares.deep_view() == target.shares.deep_view()
    &&& quota.key_id.deep_view() == wcbe::public_key_id(target.api_key@)
    &&& quota.count == stats.connectivity_groups.count
    &&& quota.max == stats.connectivity_groups.max
}

/// Which of the first `n` targets answered.
pub open spec fn answered(stats: Seq<Option<wcbe::Stats>>, n: int) -> Seq<int>
    decreases n,
{
    if n <= 0 {
        Seq::empty()
    } else if stats[n - 1] is Some {
        answered(stats, n - 1).push(n - 1)
    } else {
        answered(stats, n - 1)
    }
}

proof fn lemma_answered(stats: Seq<Option<wcbe::Stats>>, n: int)
    requires
        0 <= n <= stats.len(),
    ensures
        forall|i: int|
            0 <= i < answered(stats, n).len() ==> 0 <= #[trigger] answered(stats, n)[i] < n
                && stats[answered(stats, n)[i]] is Some,
    decreases n,
{
    if n > 0 {
        lemma_answered(stats, n - 1);
    }
}

/// A copy of texts.
fn copied_texts(v: &Vec<String>) -> (r: Vec<String>)
    ensures
        r.deep_view() == v.deep_view(),
{
    let mut out: Vec<String> = Vec::new();
    let mut i: usize = 0;
    while i < v.len()
        invariant
            i <= v@.len(),
            out@.len() == i,
            forall|j: int| 0 <= j < i ==> (#[trigger] out@[j])@ == v@[j]@,
        decreases v@.len() - i,
    {
        out.push(text::copied(v[i].as_str()));
        i = i + 1;
    }
    assert(out.deep_view() =~= v.deep_view());
    out
}

/// The quotas of the targets whose stats query succeeded, in the targets' order.
/// `None` when no query succeeded (connectivity trouble already surfaces per share as
/// `guests_error`).
///
/// The group count is domain-wide, so it can exceed the number of local shares (other
/// machines and integrations mint into the same domain).
pub fn gather_groups_quota(targets: &Vec<Target>, stats: &Vec<Option<wcbe::Stats>>) -> (r: Option<
    Vec<GroupsQuota>,
>)
    requires
        stats@.len() == targets@.len(),
    ensures
        match r {
            None => answered(stats@, stats@.len() as int).len() == 0,
            Some(quotas) => {
                &&& quotas@.len() > 0
                &&& quotas@.len() == answered(stats@, stats@.len() as int).len()
                &&& forall|i: int|
                    0 <= i < quotas@.len() ==> {
                        let k = answered(stats@, stats@.len() as int)[i];
                        quota_of(targets@[k], stats@[k]->0, #[trigger] quotas@[i])
                    }
            },
        },
{
    let mut quotas: Vec<GroupsQuota> = Vec::new();
    let mut n: usize = 0;
    while n < targets.len()
        invariant
            n <= targets@.len(),
            stats@.len() == targets@.len(),
            quotas@.len() == answered(stats@, n as int).len(),
            forall|i: int|
                0 <= i < quotas@.len() ==> {
                    let k = answered(stats@, n as int)[i];
                    quota_of(targets@[k], stats@[k]->0, #[trigger] quotas@[i])
                },
        decreases targets@.len() - n,
    {
        let t = &targets[n];
        if let Some(s) = &stats[n] {
            let ghost before = quotas@;
            quotas.push(
                GroupsQuota {
                    backend: text::copied_opt(&t.backend),
                    shares: copied_texts(&t.shares),
                    key_id: wcbe::key_id(t.api_key.as_str()),
                    count: s.connectivity_groups.count,
                    max: s.connectivity_groups.max,
                },
            );
            proof {
                lemma_answered(stats@, n as int);
                assert forall|i: int| 0 <= i < quotas@.len() implies {
                    let k = answered(stats@, n + 1)[i];
                    quota_of(targets@[k], stats@[k]->0, #[trigger] quotas@[i])
                } by {
                    if i < before.len() {
                        assert(quotas@[i] == before[i]);
                        assert(answered(stats@, n + 1)[i] == answered(stats@, n as int)[i]);
                    }
                }
            }
        }
        n = n + 1;
    }
    if quotas.len() == 0 {
        None
    } else {
        Some(quotas)
    }
}

/// How an invite stands: `used`, `expired` or `pending`.
pub open spec fn invite_state(used: bool, expires_at: Seq<char>, now: Timestamp) -> Seq<char> {
    if used {
        "used"@
    } else {
        match clock::read_instant(expires_at) {
            Some(expiry) => if expiry.not_after(now) {
                "expired"@
            } else {
                "pending"@
            },
            None => "pending"@,
        }
    }
}

/// How an invite stands, by when it was used and when it expires.
pub fn invite_status(used_at: Option<&str>, expires_at: &str, now: Timestamp) -> (r: &'static str)
    ensures
        r@ == invite_state(used_at is Some, expires_at@, now),
{
    if used_at.is_some() {
        return "used";
    }
    match clock::parse_rfc3339(expires_at) {
        Some(expiry) => {
            if expiry.at_or_before(now) {
                "expired"
            } else {
                "pending"
            }
        },
        None => "pending",
    }
}

//-- What the report shows --------------------------------------------------------
/// A guest that is not revoked is shown as connected exactly where an entry of the running
/// server's list, whichever it is, has its number, and then since when such an entry says.
/// Nothing else of it changes, and a revoked guest stays as it is.
pub proof fn connected_guests_are_those_the_server_lists(
    before: GuestStatus,
    after: GuestStatus,
    connected: Seq<ipc::GuestData>,
)
    requires
        overlaid(before, after, connected),
    ensures
        before.revoked ==> after == before,
        !before.revoked ==> {
            &&& after.connected_to_server == Some(true) <==> exists|k: int|
                0 <= k < connected.len() && (#[trigger] connected[k]).node_number
                    == before.node_number
            &&& after.connected_to_server == Some(false) <==> forall|k: int|
                0 <= k < connected.len() ==> (#[trigger] connected[k]).node_number
                    != before.node_number
            &&& after.connected_to_server == Some(true) ==> exists|k: int|
                0 <= k < connected.len() && (#[trigger] connected[k]).node_number
                    == before.node_number && after.connected_since.deep_view()
                    == connected[k].connected_since.deep_view() && forall|j: int|
                    0 <= j < k ==> (#[trigger] connected[j]).node_number != before.node_number
            &&& after.connected_to_server == Some(false) ==> after.connected_since
                == before.connected_since
            &&& after == (GuestStatus {
                connected_to_server: after.connected_to_server,
                connected_since: after.connected_since,
                ..before
            })
        },
{
    lemma_live_entry(connected, before.node_number, 0);
}

proof fn lemma_live_entry(connected: Seq<ipc::GuestData>, number: i32, i: int)
    requires
        0 <= i,
    ensures
        match live_entry(connected, number, i) {
            Some(k) => i <= k < connected.len() && connected[k].node_number == number && forall|
                j: int,
            |
                i <= j < k ==> (#[trigger] connected[j]).node_number != number,
            None => forall|j: int|
                i <= j < connected.len() ==> (#[trigger] connected[j]).node_number != number,
        },
    decreases connected.len() - i,
{
    if i < connected.len() && connected[i].node_number != number {
        lemma_live_entry(connected, number, i + 1);
    }
}

/// An invite is used once it was redeemed, whenever that was; one that was not is expired from
/// the moment on that it expires, and pending before.
pub proof fn invites_expire_when_their_time_is_up(used: bool, expires_at: Seq<char>, now: Timestamp)
    ensures
        used ==> invite_state(used, expires_at, now) == "used"@,
        !used ==> match clock::rfc3339_instant(expires_at) {
            Some((secs, nanos)) => if secs < now.secs || (secs == now.secs && nanos <= now.nanos) {
                invite_state(used, expires_at, now) == "expired"@
            } else {
                invite_state(used, expires_at, now) == "pending"@
            },
            None => invite_state(used, expires_at, now) == "pending"@,
        },
{
}

/// Every API key whose usage could be queried is reported, in the order of the keys, and no
/// other: the entries are those that were answered.
pub proof fn answered_queries_are_reported(stats: Seq<Option<wcbe::Stats>>, n: int)
    requires
        0 <= n <= stats.len(),
    ensures
        forall|k: int|
            0 <= k < n ==> ((#[trigger] stats[k]) is Some <==> answered(stats, n).contains(k)),
        forall|i: int|
            0 <= i < answered(stats, n).len() ==> 0 <= #[trigger] answered(stats, n)[i] < n,
        forall|i: int, j: int|
            0 <= i < j < answered(stats, n).len() ==> #[trigger] answered(stats, n)[i]
                < #[trigger] answered(stats, n)[j],
    decreases n,
{
    if n > 0 {
        answered_queries_are_reported(stats, n - 1);
        let before = answered(stats, n - 1);
        let all = answered(stats, n);
        if stats[n - 1] is Some {
            assert(all == before.push(n - 1));
            assert(all.last() == n - 1);
            assert(all.contains(n - 1)) by {
                assert(all[before.len() as int] == n - 1);
            }
            assert forall|k: int| 0 <= k < n implies ((#[trigger] stats[k]) is Some
                <==> all.contains(k)) by {
                if k < n - 1 {
                    if before.contains(k) {
                        let i = before.index_of(k);
                        assert(all[i] == k);
                    }
                    if all.contains(k) {
                        let i = all.index_of(k);
                        assert(before[i] == k);
                    }
                }
            }
        } else {
            assert(all == before);
            assert(!before.contains(n - 1));
        }
    }
}

/// What is reported of an API key is what its backend answered, under the shares that use the
/// key and the public part of it.
pub proof fn usage_is_reported_as_answered(target: Target, stats: wcbe::Stats, quota: GroupsQuota)
    requires
        quota_of(target, stats, quota),
    ensures
        quota.count == stats.connectivity_groups.count,
        quota.max == stats.connectivity_groups.max,
        quota.shares.deep_view() == target.shares.deep_view(),
        quota.backend.deep_view() == target.backend.deep_view(),
        quota.key_id.deep_view() == wcbe::public_key_id(target.api_key@),
{
}

/// A target lists the shares of its own backend and API key, and no other.
pub proof fn targets_list_their_own_shares(
    loaded: Seq<(String, Result<Loaded, String>)>,
    n: int,
    k: int,
    name: Seq<char>,
)
    requires
        0 <= n <= loaded.len(),
        0 <= k < targets_of(loaded, n).len(),
        targets_of(loaded, n)[k].shares.contains(name),
    ensures
        exists|i: int|
            0 <= i < n && (#[trigger] loaded[i]).0@ == name && loaded[i].1 is Ok && {
                let l = loaded[i].1->Ok_0;
                &&& l.config.transport is WispersConnect
                &&& l.wcs is Some
                &&& l.wcs->0.api_key@ == targets_of(loaded, n)[k].api_key
                &&& wcbe::api_base_of(l.config.transport->WispersConnect_backend.deep_view())
                    == targets_of(loaded, n)[k].api_base
            },
    decreases n,
{
    if n > 0 {
        let before = targets_of(loaded, n - 1);
        let after = targets_of(loaded, n);
        match loaded[n - 1].1 {
            Ok(l) => match (l.config.transport, l.wcs) {
                (TransportConfig::WispersConnect { backend }, Some(wcs)) => {
                    let base = wcbe::api_base_of(backend.deep_view());
                    lemma_target_index(before, base, wcs.api_key@, 0);
                    match target_index(before, base, wcs.api_key@, 0) {
                        Some(w) => {
                            if k == w {
                                let i = after[k].shares.index_of(name);
                                if i < before[k].shares.len() {
                                    assert(before[k].shares[i] == name);
                                    targets_list_their_own_shares(loaded, n - 1, k, name);
                                } else {
                                    assert(loaded[n - 1].0@ == name);
                                }
                            } else {
                                assert(after[k] == before[k]);
                                targets_list_their_own_shares(loaded, n - 1, k, name);
                            }
                        },
                        None => {
                            if k < before.len() {
                                assert(after[k] == before[k]);
                                targets_list_their_own_shares(loaded, n - 1, k, name);
                            } else {
                                let i = after[k].shares.index_of(name);
                                assert(i == 0);
                                assert(loaded[n - 1].0@ == name);
                            }
                        },
                    }
                },
                _ => {
                    targets_list_their_own_shares(loaded, n - 1, k, name);
                },
            },
            Err(_) => {
                targets_list_their_own_shares(loaded, n - 1, k, name);
            },
        }
    }
}

/// With a running server, a guest is shown as it tells; with none, nobody is connected; and
/// where that could not be found out, nothing is claimed.
pub proof fn stopped_servers_have_no_connections(
    before: GuestStatus,
    after: GuestStatus,
    live: Option<Vec<ipc::GuestData>>,
    offline: bool,
)
    requires
        merged(before, after, live, offline),
    ensures
        live is None && offline ==> after.connected_to_server == Some(false),
        live is None && !offline ==> after == before,
        live matches Some(connected) && !before.revoked ==> (after.connected_to_server == Some(true)
            <==> exists|k: int|
            0 <= k < live->0@.len() && (#[trigger] live->0@[k]).node_number == before.node_number),
{
    if let Some(connected) = live {
        connected_guests_are_those_the_server_lists(before, after, connected@);
    }
}

/// What is known of a server that does not run, or that fails, is that and nothing else.
pub proof fn servers_that_tell_nothing_are_shown_so(s: ServerStatus, msg: Seq<char>)
    ensures
        s.is_offline() ==> s.state@ == "offline"@ && s.error is None && s.pid is None
            && s.reachable is None && s.reload_pending is None,
        s.is_error(msg) ==> s.state@ == "error"@ && (s.error matches Some(e) && e@ == msg)
            && s.pid is None && s.reachable is None,
{
}

/// A target's view holds every part of it.
pub proof fn targets_are_seen_whole(t: Target)
    ensures
        t.deep_view().api_base == t.api_base@,
        t.deep_view().api_key == t.api_key@,
        t.deep_view().backend == t.backend.deep_view(),
        t.deep_view().shares == t.shares.deep_view(),
{
}

} // verus!
