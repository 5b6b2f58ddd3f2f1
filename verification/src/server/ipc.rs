//! Inter-process communication between server and cli tool: what is asked of a
//! running server, and what it answers.
use crate::clock;
use crate::server::config::{AppKind, ShareConfig};
use crate::server::serving::{self, ConnectedGuest, ReloadOutcome, ServingHandle};
use crate::server::wcbe::BackendError;
use crate::text;
use vstd::prelude::*;

verus! {

/// Request from CLI to running server.
#[derive(Debug, PartialEq, Eq)]
pub enum Request {
    Status,
    GetInvite { node_name: String, user_id: String },
    /// iroh only: mark a guest revoked and close its live connections.
    RevokeGuest { number: i64 },
    Reload,
    Shutdown,
}

/// Response from running server to CLI.
#[derive(Debug, PartialEq, Eq)]
pub enum Response {
    Success { ok: bool, data: ResponseData },
    Error { ok: bool, error: String },
}

/// Data payload for successful responses.
#[derive(Debug, PartialEq, Eq)]
pub enum ResponseData {
    Status(StatusData),
    Invite(InviteData),
    Reload(ReloadData),
    Empty,
}

#[derive(Debug, PartialEq, Eq)]
pub struct StatusData {
    /// Reachable by guests: connected to the hub (Wispers Connect), or online with a
    /// home relay (iroh).
    pub reachable: bool,
    /// The apps as currently served, in config order.
    pub apps: Vec<AppData>,
    /// Hash of the served app list. Differs from the file's when a `reload` is
    /// pending.
    pub config_hash: u64,
    pub pid: u32,
    /// In the form of RFC 3339.
    pub started_at: String,
    /// Since when the daemon has been reachable; `None` while it is not.
    pub connected_since: Option<String>,
    /// Guests with a live P2P connection to this host node right now.
    pub connected_guests: Option<Vec<GuestData>>,
}

#[derive(Debug, PartialEq, Eq)]
pub struct GuestData {
    /// The node number (Wispers Connect) or guest number (iroh).
    pub node_number: i32,
    pub user_id: Option<String>,
    /// In the form of RFC 3339.
    pub connected_since: Option<String>,
}

#[derive(Debug, PartialEq, Eq)]
pub struct AppData {
    pub id: String,
    pub name: String,
    pub kind: AppKind,
    pub upstream: String,
}

#[derive(Debug, PartialEq, Eq)]
pub struct InviteData {
    /// The invite code, ready to show.
    pub code: String,
}

#[derive(Debug, PartialEq, Eq)]
pub struct ReloadData {
    pub changed: bool,
    pub apps: Vec<AppData>,
}

impl Response {
    pub fn success(data: ResponseData) -> (r: Response)
        ensures
            r == (Response::Success { ok: true, data }),
    {
        Response::Success { ok: true, data }
    }

    pub fn error(msg: String) -> (r: Response)
        ensures
            r == (Response::Error { ok: false, error: msg }),
    {
        Response::Error { ok: false, error: msg }
    }
}

/// Whether the answer lists an app as the config has it.
pub open spec fn same_app(app: crate::server::config::AppConfig, data: AppData) -> bool {
    &&& data.id@ == app.id@
    &&& data.name@ == app.name@
    &&& data.kind == app.kind
    &&& data.upstream@ == app.upstream@
}

/// Whether an answer lists the apps of a config, in config order.
pub open spec fn lists_apps(config: ShareConfig, apps: Seq<AppData>) -> bool {
    &&& apps.len() == config.apps@.len()
    &&& forall|i: int| 0 <= i < apps.len() ==> same_app(config.apps@[i], #[trigger] apps[i])
}

/// The apps of a config, for an answer.
pub fn app_data(config: &ShareConfig) -> (r: Vec<AppData>)
    ensures
        lists_apps(*config, r@),
{
    let mut out: Vec<AppData> = Vec::new();
    let mut i: usize = 0;
    while i < config.apps.len()
        invariant
            i <= config.apps@.len(),
            out@.len() == i,
            forall|j: int| 0 <= j < i ==> same_app(config.apps@[j], #[trigger] out@[j]),
        decreases config.apps@.len() - i,
    {
        let s = &config.apps[i];
        out.push(
            AppData {
                id: text::copied(s.id.as_str()),
                name: text::copied(s.name.as_str()),
                kind: s.kind,
                upstream: text::copied(s.upstream.as_str()),
            },
        );
        i = i + 1;
    }
    out
}

/// Whether an answer's entry is about that guest.
pub open spec fn describes(guest: ConnectedGuest, data: GuestData) -> bool {
    &&& data.node_number == guest.number
    &&& data.user_id.deep_view() == Some(guest.user_id@)
    &&& data.connected_since.deep_view() == Some(
        clock::rfc3339_text(guest.connected_since.secs, guest.connected_since.nanos),
    )
}

/// Whether `data` is about the connections of one guest.
pub open spec fn reports(handle: ServingHandle, data: GuestData) -> bool {
    exists|guest: ConnectedGuest| #[trigger]
        serving::sums_up(handle.connections@, guest) && describes(guest, data)
}

/// Whether an entry is about the guest of that number.
pub open spec fn names_guest(guests: Seq<GuestData>, number: i32) -> bool {
    exists|i: int| 0 <= i < guests.len() && (#[trigger] guests[i]).node_number == number
}

/// Whether a list is that of the connected guests: by ascending number, an entry for
/// every guest that has a connection, and each entry about a guest's connections.
pub open spec fn reports_guests(handle: ServingHandle, guests: Seq<GuestData>) -> bool {
    &&& forall|i: int, j: int|
        0 <= i < j < guests.len() ==> (#[trigger] guests[i]).node_number < (
        #[trigger] guests[j]).node_number
    &&& forall|i: int| 0 <= i < guests.len() ==> reports(handle, #[trigger] guests[i])
    &&& forall|id: u64| #[trigger]
        handle.connections@.dom().contains(id) ==> names_guest(
            guests,
            handle.connections@[id].number,
        )
}

/// The connected guests, for an answer.
fn guest_data(handle: &ServingHandle) -> (r: Vec<GuestData>)
    requires
        handle.wf(),
    ensures
        reports_guests(*handle, r@),
{
    let connected = handle.connected_guests();
    let mut guests: Vec<GuestData> = Vec::new();
    let mut i: usize = 0;
    while i < connected.len()
        invariant
            i <= connected@.len(),
            handle.wf(),
            guests@.len() == i,
            forall|g: int|
                0 <= g < connected@.len() ==> serving::sums_up(
                    handle.connections@,
                    #[trigger] connected@[g],
                ),
            forall|j: int| 0 <= j < i ==> describes(connected@[j], #[trigger] guests@[j]),
        decreases connected@.len() - i,
    {
        let p = &connected[i];
        proof {
            lemma_since_wf(*handle, connected@[i as int]);
        }
        guests.push(
            GuestData {
                node_number: p.number,
                user_id: Some(text::copied(p.user_id.as_str())),
                connected_since: Some(clock::fmt_rfc3339(p.connected_since)),
            },
        );
        i = i + 1;
    }
    proof {
        assert forall|j: int| 0 <= j < guests@.len() implies reports(
            *handle,
            #[trigger] guests@[j],
        ) by {
            assert(serving::sums_up(handle.connections@, connected@[j]));
            assert(describes(connected@[j], guests@[j]));
        }
        assert forall|a: int, b: int| 0 <= a < b < guests@.len() implies (
        #[trigger] guests@[a]).node_number < (#[trigger] guests@[b]).node_number by {
            assert(describes(connected@[a], guests@[a]));
            assert(describes(connected@[b], guests@[b]));
            assert(connected@[a].number < connected@[b].number);
        }
        assert forall|id: u64| #[trigger] handle.connections@.dom().contains(id) implies names_guest(
            guests@,
            handle.connections@[id].number,
        ) by {
            assert(serving::lists(connected@, handle.connections@[id].number));
            let g = choose|g: int|
                0 <= g < connected@.len() && (#[trigger] connected@[g]).number
                    == handle.connections@[id].number;
            assert(describes(connected@[g], guests@[g]));
        }
    }
    guests
}

proof fn lemma_since_wf(handle: ServingHandle, guest: ConnectedGuest)
    requires
        handle.wf(),
        serving::sums_up(handle.connections@, guest),
    ensures
        guest.connected_since.wf(),
{
    let id = choose|id: u64| #[trigger]
        serving::of_guest(handle.connections@, id, guest.number)
            && handle.connections@[id].connected_since == guest.connected_since;
    assert(handle.connections@.dom().contains(id));
}

/// Answers a request for the server's status.
pub fn handle_status(handle: &ServingHandle, pid: u32) -> (r: Response)
    requires
        handle.wf(),
    ensures
        r matches Response::Success { ok, data: ResponseData::Status(s) } && {
            &&& ok
            &&& s.reachable == handle.reachable_since is Some
            &&& lists_apps(handle.config, s.apps@)
            &&& s.config_hash == handle.config.hash_spec()
            &&& s.pid == pid
            &&& s.started_at@ == clock::rfc3339_text(
                handle.started_at.secs,
                handle.started_at.nanos,
            )
            &&& s.connected_since.deep_view() == (match handle.reachable_since {
                Some(t) => Some(clock::rfc3339_text(t.secs, t.nanos)),
                None => None,
            })
            &&& s.connected_guests matches Some(guests) && reports_guests(*handle, guests@)
        },
{
    let guests = guest_data(handle);
    let connected_since = match handle.reachable_since {
        Some(t) => Some(clock::fmt_rfc3339(t)),
        None => None,
    };
    Response::success(
        ResponseData::Status(
            StatusData {
                reachable: handle.reachable(),
                apps: app_data(&handle.config),
                config_hash: handle.config.config_hash(),
                pid,
                started_at: clock::fmt_rfc3339(handle.started_at),
                connected_since,
                connected_guests: Some(guests),
            },
        ),
    )
}

/// How a failed `invite` is explained: a full share with its way out, anything else
/// as it is.
pub open spec fn invite_error_text(e: BackendError) -> Seq<char> {
    match e {
        BackendError::Quota(q) if q.quota@ == "nodes_per_group"@ => "the share is full: "@
            + text::signed_decimal(q.current as int) + " of "@ + text::signed_decimal(
            q.limit as int,
        )
            + " node quota used (this host, guests and pending invites). Revoke nodes with `waserver revoke` or wait for a pending\n             invite to expire. `waserver status <share>` shows the available quota."@,
        _ => "error generating registration token: "@ + e.text(),
    }
}

/// Explain a quota rejection after an `invite` if it happens.
pub fn invite_error_message(e: &BackendError) -> (r: String)
    ensures
        r@ == invite_error_text(*e),
{
    if let BackendError::Quota(q) = e {
        if text::same_text(q.quota.as_str(), "nodes_per_group") {
            let mut out = text::copied("the share is full: ");
            text::push_signed(&mut out, q.current as i64);
            out.append(" of ");
            text::push_signed(&mut out, q.limit as i64);
            out.append(
                " node quota used (this host, guests and pending invites). Revoke nodes with `waserver revoke` or wait for a pending\n             invite to expire. `waserver status <share>` shows the available quota.",
            );
            return out;
        }
    }
    let mut out = text::copied("error generating registration token: ");
    out.append(e.message().as_str());
    out
}

/// Answers a request for an invite, by what minting one came to.
pub fn handle_invite(minted: Result<String, BackendError>) -> (r: Response)
    ensures
        match minted {
            Ok(code) => r == (Response::Success {
                ok: true,
                data: ResponseData::Invite(InviteData { code }),
            }),
            Err(e) => r matches Response::Error { ok, error } && !ok && error@
                == invite_error_text(e),
        },
{
    match minted {
        Ok(code) => Response::success(ResponseData::Invite(InviteData { code })),
        Err(e) => Response::error(invite_error_message(&e)),
    }
}

/// Answers a request to revoke a guest, by what revoking it came to.
pub fn handle_revoke(revoked: Result<(), String>) -> (r: Response)
    ensures
        match revoked {
            Ok(()) => r == (Response::Success { ok: true, data: ResponseData::Empty }),
            Err(error) => r == (Response::Error { ok: false, error }),
        },
{
    match revoked {
        Ok(()) => Response::success(ResponseData::Empty),
        Err(e) => Response::error(e),
    }
}

/// Answers a request to reload, by what reloading came to.
pub fn handle_reload(reloaded: Result<ReloadOutcome, String>) -> (r: Response)
    ensures
        match reloaded {
            Ok(outcome) => r matches Response::Success {
                ok,
                data: ResponseData::Reload(d),
            } && ok && d.changed == outcome.changed && lists_apps(outcome.config, d.apps@),
            Err(error) => r == (Response::Error { ok: false, error }),
        },
{
    match reloaded {
        Ok(outcome) => Response::success(
            ResponseData::Reload(
                ReloadData { changed: outcome.changed, apps: app_data(&outcome.config) },
            ),
        ),
        Err(e) => Response::error(e),
    }
}

/// Answers a request to stop. The server stops whatever came of it.
pub fn handle_shutdown() -> (r: Response)
    ensures
        r == (Response::Success { ok: true, data: ResponseData::Empty }),
{
    Response::success(ResponseData::Empty)
}

/// What a server does about a request.
pub enum Task {
    Status,
    Invite { node_name: String, user_id: String },
    Revoke(i64),
    Reload,
    Stop,
    /// Answer at once.
    Answer(Response),
}

/// What a server does about what was read from a client, and whether it stops
/// afterwards. What is no request is answered with the reason.
pub fn handle_request(request: Result<Request, String>) -> (r: (Task, bool))
    ensures
        r.1 == (request is Ok && request->Ok_0 is Shutdown),
        r.0 == (match request {
            Ok(Request::Status) => Task::Status,
            Ok(Request::GetInvite { node_name, user_id }) => Task::Invite { node_name, user_id },
            Ok(Request::RevokeGuest { number }) => Task::Revoke(number),
            Ok(Request::Reload) => Task::Reload,
            Ok(Request::Shutdown) => Task::Stop,
            Err(error) => Task::Answer(Response::Error { ok: false, error }),
        }),
{
    match request {
        Ok(Request::Status) => (Task::Status, false),
        Ok(Request::GetInvite { node_name, user_id }) => (
            Task::Invite { node_name, user_id },
            false,
        ),
        Ok(Request::RevokeGuest { number }) => (Task::Revoke(number), false),
        Ok(Request::Reload) => (Task::Reload, false),
        Ok(Request::Shutdown) => (Task::Stop, true),
        Err(e) => (Task::Answer(Response::error(e)), false),
    }
}

/// What a port file says: the port, and the password that clients send first.
pub open spec fn port_file(contents: Seq<char>) -> Option<(nat, Seq<char>)> {
    match text::cut_first(text::trimmed(contents), ':') {
        Some((port, password)) => match text::parsed_number(port, 10, 65535) {
            Some(n) => Some((n, password)),
            None => None,
        },
        None => None,
    }
}

/// Reads a port file: `<port>:<password>`.
pub fn parse_port_file(contents: &str) -> (r: Option<(u16, String)>)
    ensures
        match r {
            Some((port, password)) => port_file(contents@) == Some((port as nat, password@)),
            None => port_file(contents@) is None,
        },
{
    let contents = text::trim(contents);
    match text::split_once(contents.as_str(), ':') {
        Some((port, password)) => match text::parse_number(port.as_str(), 10, 65535) {
            Some(n) => Some((n as u16, password)),
            None => None,
        },
        None => None,
    }
}

/// Writes a port file.
pub fn write_port_file(port: u16, password: &str) -> (r: String)
    ensures
        r@ == text::decimal(port as nat) + ":"@ + password@,
{
    let mut out = String::new();
    text::push_decimal(&mut out, port as u64);
    out.append(":");
    out.append(password);
    assert(out@ =~= text::decimal(port as nat) + ":"@ + password@);
    out
}

/// A port file reads back as it was written.
pub proof fn port_files_round_trip(port: u16, password: Seq<char>)
    requires
        password.len() > 0 ==> !text::white(password.last()),
    ensures
        port_file(text::decimal(port as nat) + ":"@ + password) == Some((port as nat, password)),
{
    reveal_strlit(":");
    let digits = text::decimal(port as nat);
    let contents = digits + ":"@ + password;
    text::lemma_decimal(port as nat);
    text::lemma_decimal_parses(port as nat, 65535);
    assert(contents[0] == digits[0]);
    assert(contents.last() == if password.len() == 0 {
        ':'
    } else {
        password.last()
    });
    text::lemma_trimmed(contents);
    text::lemma_first_index(contents, ':');
    let at = digits.len() as int;
    assert(contents[at] == ':');
    assert forall|j: int| 0 <= j < at implies contents[j] != ':' by {
        assert(contents[j] == digits[j]);
    }
    assert(contents.take(at) =~= digits);
    assert(contents.skip(at + 1) =~= password);
}

/// Whether the line that a client sends first is the password.
pub fn is_password(line: &str, password: &str) -> (r: bool)
    ensures
        r == (text::trimmed(line@) == password@),
{
    text::same_text(text::trim(line).as_str(), password)
}

/// What is where a server is about to listen.
#[derive(Clone, Copy, Debug, PartialEq, Eq, Structural)]
pub enum Socket {
    Nothing,
    /// A server answers there.
    Answers,
    /// A server that is gone left it behind.
    Stale,
}

/// What is done to listen where a socket may be.
#[derive(Clone, Copy, Debug, PartialEq, Eq, Structural)]
pub enum BindStep {
    Listen,
    RemoveAndListen,
    /// Another server serves this share.
    AlreadyRunning,
}

/// How a server comes to listen: never beside another one.
pub fn bind(found: Socket) -> (r: BindStep)
    ensures
        r == (match found {
            Socket::Nothing => BindStep::Listen,
            Socket::Answers => BindStep::AlreadyRunning,
            Socket::Stale => BindStep::RemoveAndListen,
        }),
{
    match found {
        Socket::Nothing => BindStep::Listen,
        Socket::Answers => BindStep::AlreadyRunning,
        Socket::Stale => BindStep::RemoveAndListen,
    }
}

/// Where a server listens for the CLI, under the user's home directory.
pub fn ipc_path(home: &str, share: &str) -> (r: String)
    ensures
        r@ == home@ + "/.waserver/sockets/"@ + share@ + ".sock"@,
{
    let mut out = text::copied(home);
    out.append("/.waserver/sockets/");
    out.append(share);
    out.append(".sock");
    out
}

//-- What an answer says ----------------------------------------------------------
/// A running server reports every guest that has a connection, once and by number, and each
/// as connected since the first of its connections.
pub proof fn servers_report_every_connected_guest(
    handle: ServingHandle,
    guests: Seq<GuestData>,
    id: u64,
)
    requires
        reports_guests(handle, guests),
        handle.connections@.dom().contains(id),
    ensures
        exists|i: int|
            0 <= i < guests.len() && (#[trigger] guests[i]).node_number
                == handle.connections@[id].number && exists|first: u64|
                #![trigger handle.connections@[first]]
                handle.connections@.dom().contains(first) && handle.connections@[first].number
                    == handle.connections@[id].number && guests[i].connected_since.deep_view()
                    == Some(
                    clock::rfc3339_text(
                        handle.connections@[first].connected_since.secs,
                        handle.connections@[first].connected_since.nanos,
                    ),
                ) && handle.connections@[first].connected_since.not_after(
                    handle.connections@[id].connected_since,
                ),
        forall|i: int, j: int|
            0 <= i < j < guests.len() ==> (#[trigger] guests[i]).node_number < (
            #[trigger] guests[j]).node_number,
{
    let number = handle.connections@[id].number;
    assert(names_guest(guests, number));
    let i = choose|i: int| 0 <= i < guests.len() && (#[trigger] guests[i]).node_number == number;
    assert(reports(handle, guests[i]));
    let guest = choose|guest: ConnectedGuest| #[trigger]
        serving::sums_up(handle.connections@, guest) && describes(guest, guests[i]);
    serving::connected_guests_have_connections(handle.connections@, guest);
    let first = choose|first: u64| #[trigger]
        handle.connections@.dom().contains(first) && handle.connections@[first].number
            == guest.number && handle.connections@[first].connected_since == guest.connected_since;
    let since = handle.connections@[first].connected_since;
    assert(guests[i].node_number == number);
}

/// The apps are listed as they are configured: all of them, in their order.
pub proof fn apps_are_listed_as_configured(config: ShareConfig, apps: Seq<AppData>)
    requires
        lists_apps(config, apps),
    ensures
        apps.len() == config.apps@.len(),
        forall|i: int|
            0 <= i < apps.len() ==> {
                &&& (#[trigger] apps[i]).id@ == config.apps@[i].id@
                &&& apps[i].name@ == config.apps@[i].name@
                &&& apps[i].kind == config.apps@[i].kind
                &&& apps[i].upstream@ == config.apps@[i].upstream@
            },
{
}

/// A failed invite is explained: a share that is full by how much of it is used, anything
/// else as the backend told it.
pub proof fn failed_invites_are_explained(e: BackendError)
    ensures
        match e {
            BackendError::Quota(q) if q.quota@ == "nodes_per_group"@ => exists|rest: Seq<char>|
                invite_error_text(e) == "the share is full: "@ + text::signed_decimal(
                    q.current as int,
                ) + " of "@ + text::signed_decimal(q.limit as int) + #[trigger] (
                " node quota used"@ + rest),
            _ => invite_error_text(e) == "error generating registration token: "@ + e.text(),
        },
{
    if let BackendError::Quota(q) = e {
        if q.quota@ == "nodes_per_group"@ {
            let tail = " node quota used (this host, guests and pending invites). Revoke nodes with `waserver revoke` or wait for a pending\n             invite to expire. `waserver status <share>` shows the available quota."@;
            reveal_strlit(" node quota used (this host, guests and pending invites). Revoke nodes with `waserver revoke` or wait for a pending\n             invite to expire. `waserver status <share>` shows the available quota.");
            reveal_strlit(" node quota used");
            let rest = tail.skip(16);
            assert(tail =~= " node quota used"@ + rest);
        }
    }
}

/// A guest is reported under the user that one of its connections is for.
pub proof fn servers_report_who_is_connected(handle: ServingHandle, data: GuestData)
    requires
        reports(handle, data),
    ensures
        exists|id: u64| #[trigger]
            handle.connections@.dom().contains(id) && handle.connections@[id].number
                == data.node_number && (data.user_id matches Some(user) && user@
                == handle.connections@[id].user_id@),
{
    let guest = choose|guest: ConnectedGuest| #[trigger]
        serving::sums_up(handle.connections@, guest) && describes(guest, data);
    serving::connected_guests_have_connections(handle.connections@, guest);
    let id = choose|id: u64| #[trigger]
        handle.connections@.dom().contains(id) && handle.connections@[id].number == guest.number
            && handle.connections@[id].user_id@ == guest.user_id@;
    assert(handle.connections@.dom().contains(id));
}

} // verus!
