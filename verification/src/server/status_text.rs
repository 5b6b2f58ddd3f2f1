//! How a status report is shown to people.
//!
//! Tables are written with a tab between columns, and then aligned.
use crate::clock::{self, Timestamp};
use crate::server::connect::SERVER_NODE_NUMBER;
use crate::server::status::{
    AppStatus, GroupsQuota, GuestStatus, InviteStatus, ServerStatus, ShareStatus, StatusReport,
    TransportStatus,
};
use crate::server::wcbe;
use crate::table::{align_tabs, tab_aligned};
use crate::text;
use vstd::prelude::*;

verus! {

//-- All shares -------------------------------------------------------------------
/// How a server's reachability is shown.
pub open spec fn network_text(reachable: Option<bool>) -> Seq<char> {
    match reachable {
        Some(true) => "connected"@,
        Some(false) => "not connected"@,
        None => "-"@,
    }
}

/// Of how many of the first `n` guests it is known whether they are connected.
pub open spec fn known_count(guests: Seq<GuestStatus>, n: int) -> nat
    decreases n,
{
    if n <= 0 {
        0
    } else {
        known_count(guests, n - 1) + if guests[n - 1].connected_to_server is Some {
            1nat
        } else {
            0nat
        }
    }
}

/// How many of the first `n` guests are connected.
pub open spec fn connected_count(guests: Seq<GuestStatus>, n: int) -> nat
    decreases n,
{
    if n <= 0 {
        0
    } else {
        connected_count(guests, n - 1) + if guests[n - 1].connected_to_server == Some(true) {
            1nat
        } else {
            0nat
        }
    }
}

/// How the guests of a share are counted: connected of those known, where the daemon
/// tells; else all of them.
pub open spec fn nodes_text(guests: Option<Vec<GuestStatus>>) -> Seq<char> {
    match guests {
        Some(m) => {
            let n = m@.len() as int;
            if known_count(m@, n) > 0 {
                text::decimal(connected_count(m@, n)) + "/"@ + text::decimal(known_count(m@, n))
                    + " connected"@
            } else {
                text::decimal(m@.len()) + " guests"@
            }
        },
        None => "?"@,
    }
}

fn push_nodes(out: &mut String, guests: &Option<Vec<GuestStatus>>)
    ensures
        final(out)@ == old(out)@ + nodes_text(*guests),
{
    match guests {
        Some(m) => {
            let mut known: u64 = 0;
            let mut connected: u64 = 0;
            let mut i: usize = 0;
            while i < m.len()
                invariant
                    i <= m@.len(),
                    known == known_count(m@, i as int),
                    connected == connected_count(m@, i as int),
                    known <= i,
                    connected <= i,
                decreases m@.len() - i,
            {
                if m[i].connected_to_server.is_some() {
                    known = known + 1;
                }
                if let Some(true) = m[i].connected_to_server {
                    connected = connected + 1;
                }
                i = i + 1;
            }
            if known > 0 {
                text::push_decimal(out, connected);
                out.append("/");
                text::push_decimal(out, known);
                out.append(" connected");
            } else {
                text::push_decimal(out, m.len() as u64);
                out.append(" guests");
            }
            assert(out@ =~= old(out)@ + nodes_text(*guests));
        },
        None => {
            out.append("?");
        },
    }
}

/// The IDs of the apps.
pub open spec fn app_ids(apps: Seq<AppStatus>) -> Seq<Seq<char>> {
    apps.map_values(|a: AppStatus| a.id@)
}

/// How a share's apps are listed in one cell.
pub open spec fn apps_text(apps: Seq<AppStatus>) -> Seq<char> {
    if apps.len() == 0 {
        "-"@
    } else {
        text::joined(app_ids(apps), ", "@)
    }
}

fn push_apps(out: &mut String, apps: &Vec<AppStatus>)
    ensures
        final(out)@ == old(out)@ + apps_text(apps@),
{
    if apps.len() == 0 {
        out.append("-");
        return;
    }
    let mut ids: Vec<String> = Vec::new();
    let mut i: usize = 0;
    while i < apps.len()
        invariant
            i <= apps@.len(),
            ids@.len() == i,
            forall|j: int| 0 <= j < i ==> (#[trigger] ids@[j])@ == apps@[j].id@,
        decreases apps@.len() - i,
    {
        ids.push(text::copied(apps[i].id.as_str()));
        i = i + 1;
    }
    assert(ids.deep_view() =~= app_ids(apps@));
    out.append(text::join(&ids, ", ").as_str());
}

/// How a server's state is shown in one cell.
pub open spec fn state_text(server: ServerStatus) -> Seq<char> {
    if server.reload_pending == Some(true) {
        server.state@ + " (reload pending)"@
    } else {
        server.state@
    }
}

/// A share's line in the overview.
pub open spec fn fleet_row(c: ShareStatus) -> Seq<char> {
    c.name@ + "\t"@ + state_text(c.server) + "\t"@ + network_text(c.server.reachable) + "\t"@
        + apps_text(c.apps@) + "\t"@ + nodes_text(c.guests) + "\n"@
}

fn push_state(out: &mut String, server: &ServerStatus)
    ensures
        final(out)@ == old(out)@ + state_text(*server) + "\t"@ + network_text(server.reachable),
{
    out.append(server.state);
    if let Some(true) = server.reload_pending {
        out.append(" (reload pending)");
    }
    assert(out@ =~= old(out)@ + state_text(*server));
    out.append("\t");
    match server.reachable {
        Some(true) => out.append("connected"),
        Some(false) => out.append("not connected"),
        None => out.append("-"),
    }
}

fn push_fleet_row(out: &mut String, c: &ShareStatus)
    ensures
        final(out)@ == old(out)@ + fleet_row(*c),
{
    out.append(c.name.as_str());
    out.append("\t");
    push_state(out, &c.server);
    out.append("\t");
    push_apps(out, &c.apps);
    out.append("\t");
    push_nodes(out, &c.guests);
    out.append("\n");
    assert(out@ =~= old(out)@ + fleet_row(*c));
}

/// The lines of the first `n` shares.
pub open spec fn fleet_rows(shares: Seq<ShareStatus>, n: int) -> Seq<char>
    decreases n,
{
    if n <= 0 {
        Seq::empty()
    } else {
        fleet_rows(shares, n - 1) + fleet_row(shares[n - 1])
    }
}

/// The overview's table.
pub open spec fn fleet_table(shares: Seq<ShareStatus>) -> Seq<char> {
    "SHARE\tSTATE\tNETWORK\tAPPS\tNODES\n"@ + fleet_rows(shares, shares.len() as int)
}

/// The overview's table, its columns separated by tabs.
pub fn fleet_lines(shares: &Vec<ShareStatus>) -> (r: String)
    ensures
        r@ == fleet_table(shares@),
{
    let mut out = text::copied("SHARE\tSTATE\tNETWORK\tAPPS\tNODES\n");
    let ghost head = out@;
    let mut i: usize = 0;
    assert(out@ =~= head + fleet_rows(shares@, 0));
    while i < shares.len()
        invariant
            i <= shares@.len(),
            out@ == head + fleet_rows(shares@, i as int),
        decreases shares@.len() - i,
    {
        push_fleet_row(&mut out, &shares[i]);
        i = i + 1;
        assert(out@ =~= head + fleet_rows(shares@, i as int));
    }
    out
}

/// How a quota's limit is shown.
pub open spec fn limit_text(max: Option<i32>) -> Seq<char> {
    match max {
        Some(n) => text::signed_decimal(n as int),
        None => "∞"@,
    }
}

/// One API key's line.
pub open spec fn quota_row(q: GroupsQuota) -> Seq<char> {
    "   "@ + text::text_or(q.key_id, "unknown key"@) + " ("@ + text::joined(
        q.shares.deep_view(),
        ", "@,
    ) + "): "@ + text::signed_decimal(q.count as int) + " of "@ + limit_text(q.max) + "\n"@
}

/// The lines of the first `n` API keys.
pub open spec fn quota_rows(quotas: Seq<GroupsQuota>, n: int) -> Seq<char>
    decreases n,
{
    if n <= 0 {
        Seq::empty()
    } else {
        quota_rows(quotas, n - 1) + quota_row(quotas[n - 1])
    }
}

/// The usage per API key, where it is known.
pub open spec fn quotas_text(quotas: Option<Vec<GroupsQuota>>) -> Seq<char> {
    match quotas {
        Some(q) => "\nShare usage per API key\n"@ + quota_rows(q@, q@.len() as int),
        None => Seq::empty(),
    }
}

fn push_quotas(out: &mut String, quotas: &Option<Vec<GroupsQuota>>)
    ensures
        final(out)@ == old(out)@ + quotas_text(*quotas),
{
    let ghost start = out@;
    if let Some(q) = quotas {
        out.append("\nShare usage per API key\n");
        let ghost head = out@;
        let mut i: usize = 0;
        assert(out@ =~= head + quota_rows(q@, 0));
        while i < q.len()
            invariant
                i <= q@.len(),
                out@ == head + quota_rows(q@, i as int),
            decreases q@.len() - i,
        {
            let ghost before = out@;
            let e = &q[i];
            out.append("   ");
            text::push_or(out, &e.key_id, "unknown key");
            out.append(" (");
            out.append(text::join(&e.shares, ", ").as_str());
            out.append("): ");
            text::push_signed(out, e.count as i64);
            out.append(" of ");
            match e.max {
                Some(max) => text::push_signed(out, max as i64),
                None => out.append("∞"),
            }
            out.append("\n");
            i = i + 1;
            assert(out@ =~= before + quota_row(*e));
            assert(out@ =~= head + quota_rows(q@, i as int));
        }
    }
    assert(out@ =~= start + quotas_text(*quotas));
}

/// The overview as it is shown.
pub open spec fn fleet_output(report: StatusReport) -> Seq<char> {
    if report.shares@.len() == 0 {
        "No shares found\n"@
    } else {
        tab_aligned(fleet_table(report.shares@)) + quotas_text(report.groups_quota)
    }
}

/// The overview of all shares.
pub fn print_fleet(report: &StatusReport) -> (r: String)
    ensures
        r@ == fleet_output(*report),
{
    if report.shares.len() == 0 {
        return text::copied("No shares found\n");
    }
    let mut out = align_tabs(fleet_lines(&report.shares).as_str());
    push_quotas(&mut out, &report.groups_quota);
    out
}

//-- One share --------------------------------------------------------------------
/// The host of the managed backend.
pub const MANAGED_HOST: &'static str = "connect.wispers.dev";

/// The managed backend's API is on its host.
pub proof fn managed_host_serves_the_api()
    ensures
        wcbe::MANAGED_API_BASE@ == "https://"@ + MANAGED_HOST@ + "/api/v1"@,
{
    reveal_strlit("https://connect.wispers.dev/api/v1");
    reveal_strlit("https://");
    reveal_strlit("connect.wispers.dev");
    reveal_strlit("/api/v1");
    assert(wcbe::MANAGED_API_BASE@ =~= "https://"@ + MANAGED_HOST@ + "/api/v1"@);
}

pub open spec fn backend_text(backend: Option<String>) -> Seq<char> {
    match backend {
        Some(b) => "self-hosted ("@ + b@ + ")"@,
        None => "managed ("@ + MANAGED_HOST@ + ")"@,
    }
}

/// `managed (connect.wispers.dev)`, or `self-hosted (<url>)` for a custom backend.
pub fn backend_label(backend: &Option<String>) -> (r: String)
    ensures
        r@ == backend_text(*backend),
{
    match backend {
        Some(b) => {
            let mut out = text::copied("self-hosted (");
            out.append(b.as_str());
            out.append(")");
            out
        },
        None => {
            let mut out = text::copied("managed (");
            out.append(MANAGED_HOST);
            out.append(")");
            out
        },
    }
}

pub open spec fn used_text(current: i32, limit: Option<i32>) -> Seq<char> {
    match limit {
        Some(n) => text::signed_decimal(current as int) + " of "@ + text::signed_decimal(n as int)
            + " used"@,
        None => text::signed_decimal(current as int) + " used (no limit)"@,
    }
}

/// `11 of 12 used`, or `11 used (no limit)` on an unlimited backend.
pub fn fmt_used(current: i32, limit: Option<i32>) -> (r: String)
    ensures
        r@ == used_text(current, limit),
{
    let mut out = String::new();
    text::push_signed(&mut out, current as i64);
    match limit {
        Some(n) => {
            out.append(" of ");
            text::push_signed(&mut out, n as i64);
            out.append(" used");
        },
        None => {
            out.append(" used (no limit)");
        },
    }
    assert(out@ =~= used_text(current, limit));
    out
}

/// How many invites a quota's usage leaves to explain: all but the host and its
/// guests.
pub open spec fn pending_invites(current: i32, guest_count: nat) -> nat {
    if current > guest_count + 1 {
        (current - guest_count - 1) as nat
    } else {
        0
    }
}

/// The plural's `s`.
pub open spec fn plural(n: nat) -> Seq<char> {
    if n == 1 {
        ""@
    } else {
        "s"@
    }
}

pub open spec fn quota_text(quota: wcbe::NodeQuota, guest_count: nat) -> Seq<char> {
    let used = used_text(quota.current, quota.limit);
    let pending = pending_invites(quota.current, guest_count);
    if pending == 0 {
        used
    } else {
        used + " (this host + "@ + text::decimal(guest_count) + " guest node"@ + plural(guest_count)
            + " + "@ + text::decimal(pending) + " pending invite"@ + plural(pending) + ")"@
    }
}

/// Renders node-quota usage, e.g. `11 of 12 used (this host node + 8 guest nodes + 2
/// pending invites)`. The hub counts the host as one node of the group.
pub fn fmt_quota(quota: &wcbe::NodeQuota, guest_count: usize) -> (r: String)
    ensures
        r@ == quota_text(*quota, guest_count as nat),
{
    let mut out = fmt_used(quota.current, quota.limit);
    let current: u64 = if quota.current > 0 {
        quota.current as u64
    } else {
        0
    };
    let guests: u64 = guest_count as u64;
    let pending: u64 = if current > guests {
        current - guests - 1
    } else {
        0
    };
    if pending == 0 {
        return out;
    }
    out.append(" (this host + ");
    text::push_decimal(&mut out, guests);
    out.append(" guest node");
    out.append(
        if guests == 1 {
            ""
        } else {
            "s"
        },
    );
    out.append(" + ");
    text::push_decimal(&mut out, pending);
    out.append(" pending invite");
    out.append(
        if pending == 1 {
            ""
        } else {
            "s"
        },
    );
    out.append(")");
    out
}

/// The share's transport: its kind, and what is specific to it.
pub open spec fn transport_text(c: ShareStatus) -> Seq<char> {
    match c.transport {
        Some(
            TransportStatus::WispersConnect {
                backend,
                connectivity_group_id,
                group_created_at,
                node_quota,
            },
        ) => "  Transport\twispers-connect\n"@ + "  Backend\t"@ + backend_text(backend) + "\n"@
            + "  Connectivity group\t"@ + text::text_or(connectivity_group_id, "-"@) + "\n"@ + (
        match group_created_at {
            Some(at) => "  Created\t"@ + clock::utc_text(at@) + "\n"@,
            None => Seq::empty(),
        }) + (match node_quota {
            Some(quota) => "  Quota\t"@ + quota_text(
                quota,
                match c.guests {
                    Some(g) => g@.len(),
                    None => 0,
                },
            ) + "\n"@,
            None => Seq::empty(),
        }),
        Some(TransportStatus::Iroh { endpoint_id }) => "  Transport\tiroh\n"@
            + "  Endpoint ID\t"@ + text::text_or(endpoint_id, "-"@) + "\n"@,
        None => "  Transport\t-\n"@,
    }
}

fn push_group(out: &mut String, backend: &Option<String>, group_id: &Option<String>)
    ensures
        final(out)@ == old(out)@ + "  Transport\twispers-connect\n"@ + "  Backend\t"@ + backend_text(
            *backend,
        ) + "\n"@ + "  Connectivity group\t"@ + text::text_or(*group_id, "-"@) + "\n"@,
{
    out.append("  Transport\twispers-connect\n");
    out.append("  Backend\t");
    out.append(backend_label(backend).as_str());
    out.append("\n");
    out.append("  Connectivity group\t");
    text::push_or(out, group_id, "-");
    out.append("\n");
}

fn push_created(out: &mut String, created_at: &Option<String>)
    ensures
        final(out)@ == old(out)@ + match *created_at {
            Some(at) => "  Created\t"@ + clock::utc_text(at@) + "\n"@,
            None => Seq::empty(),
        },
{
    if let Some(at) = created_at {
        out.append("  Created\t");
        out.append(clock::fmt_utc(at.as_str()).as_str());
        out.append("\n");
    }
    assert(out@ =~= old(out)@ + match *created_at {
        Some(at) => "  Created\t"@ + clock::utc_text(at@) + "\n"@,
        None => Seq::empty(),
    });
}

fn push_quota(out: &mut String, node_quota: &Option<wcbe::NodeQuota>, guests: usize)
    ensures
        final(out)@ == old(out)@ + match *node_quota {
            Some(quota) => "  Quota\t"@ + quota_text(quota, guests as nat) + "\n"@,
            None => Seq::empty(),
        },
{
    if let Some(quota) = node_quota {
        out.append("  Quota\t");
        out.append(fmt_quota(quota, guests).as_str());
        out.append("\n");
    }
    assert(out@ =~= old(out)@ + match *node_quota {
        Some(quota) => "  Quota\t"@ + quota_text(quota, guests as nat) + "\n"@,
        None => Seq::empty(),
    });
}

fn push_transport(out: &mut String, c: &ShareStatus)
    ensures
        final(out)@ == old(out)@ + transport_text(*c),
{
    match &c.transport {
        Some(
            TransportStatus::WispersConnect {
                backend,
                connectivity_group_id,
                group_created_at,
                node_quota,
            },
        ) => {
            let guests: usize = match &c.guests {
                Some(g) => g.len(),
                None => 0,
            };
            push_group(out, backend, connectivity_group_id);
            push_created(out, group_created_at);
            push_quota(out, node_quota, guests);
        },
        Some(TransportStatus::Iroh { endpoint_id }) => {
            out.append("  Transport\tiroh\n");
            out.append("  Endpoint ID\t");
            text::push_or(out, endpoint_id, "-");
            out.append("\n");
        },
        None => {
            out.append("  Transport\t-\n");
        },
    }
    assert(out@ =~= old(out)@ + transport_text(*c));
}

/// The first section: what the share is.
pub open spec fn share_section(c: ShareStatus) -> Seq<char> {
    "Share\n"@ + "  Name\t"@ + c.name@ + (match c.display_name {
        Some(dn) => " ("@ + dn@ + ")"@,
        None => Seq::empty(),
    }) + "\n"@ + (match c.config_error {
        Some(e) => "  Config\tERROR: "@ + e@ + "\n"@,
        None => Seq::empty(),
    }) + transport_text(c)
}

fn push_share_section(out: &mut String, c: &ShareStatus)
    ensures
        final(out)@ == old(out)@ + share_section(*c),
{
    out.append("Share\n");
    out.append("  Name\t");
    out.append(c.name.as_str());
    if let Some(dn) = &c.display_name {
        out.append(" (");
        out.append(dn.as_str());
        out.append(")");
    }
    out.append("\n");
    if let Some(e) = &c.config_error {
        out.append("  Config\tERROR: ");
        out.append(e.as_str());
        out.append("\n");
    }
    push_transport(out, c);
    assert(out@ =~= old(out)@ + share_section(*c));
}

/// The server's state: with its process and age where it runs, with the error where
/// there is one.
pub open spec fn server_state(server: ServerStatus, now: Timestamp) -> Seq<char> {
    server.state@ + (match (server.pid, server.started_at) {
        (Some(pid), Some(started)) => " (pid "@ + text::decimal(pid as nat) + ", up "@
            + clock::age_text(started@, now) + ")"@,
        _ => Seq::empty(),
    }) + (match server.error {
        Some(e) => ": "@ + e@,
        None => Seq::empty(),
    })
}

/// The network line: connected to the hub or a relay, and since when.
pub open spec fn network_line(c: ShareStatus, now: Timestamp) -> Seq<char> {
    match c.server.reachable {
        Some(connected) => "  "@ + (match c.transport {
            Some(TransportStatus::Iroh { .. }) => "Relay"@,
            _ => "Hub"@,
        }) + "\t"@ + (if connected {
            match c.server.connected_since {
                Some(since) => "connected (for "@ + clock::age_text(since@, now) + ")"@,
                None => "connected"@,
            }
        } else {
            "not connected"@
        }) + "\n"@,
        None => Seq::empty(),
    }
}

/// The second section: the daemon.
pub open spec fn server_section(c: ShareStatus, now: Timestamp) -> Seq<char> {
    "\nServer\n"@ + "  State\t"@ + server_state(c.server, now) + "\n"@ + network_line(c, now) + (
    if c.server.reload_pending == Some(true) {
        "  Config\tchanged on disk; run `waserver reload "@ + c.name@ + "`\n"@
    } else {
        Seq::empty()
    })
}

fn push_server_state(out: &mut String, server: &ServerStatus, now: Timestamp)
    requires
        now.wf(),
    ensures
        final(out)@ == old(out)@ + server_state(*server, now),
{
    out.append(server.state);
    if let (Some(pid), Some(started)) = (&server.pid, &server.started_at) {
        out.append(" (pid ");
        text::push_decimal(out, *pid as u64);
        out.append(", up ");
        out.append(clock::fmt_age(started.as_str(), now).as_str());
        out.append(")");
    }
    if let Some(e) = &server.error {
        out.append(": ");
        out.append(e.as_str());
    }
    assert(out@ =~= old(out)@ + server_state(*server, now));
}

fn push_network_line(out: &mut String, c: &ShareStatus, now: Timestamp)
    requires
        now.wf(),
    ensures
        final(out)@ == old(out)@ + network_line(*c, now),
{
    if let Some(connected) = c.server.reachable {
        out.append("  ");
        match &c.transport {
            Some(TransportStatus::Iroh { .. }) => out.append("Relay"),
            _ => out.append("Hub"),
        }
        out.append("\t");
        if connected {
            match &c.server.connected_since {
                Some(since) => {
                    out.append("connected (for ");
                    out.append(clock::fmt_age(since.as_str(), now).as_str());
                    out.append(")");
                },
                None => out.append("connected"),
            }
        } else {
            out.append("not connected");
        }
        out.append("\n");
    }
    assert(out@ =~= old(out)@ + network_line(*c, now));
}

fn push_server_section(out: &mut String, c: &ShareStatus, now: Timestamp)
    requires
        now.wf(),
    ensures
        final(out)@ == old(out)@ + server_section(*c, now),
{
    out.append("\nServer\n");
    out.append("  State\t");
    push_server_state(out, &c.server, now);
    out.append("\n");
    push_network_line(out, c, now);
    if let Some(true) = c.server.reload_pending {
        out.append("  Config\tchanged on disk; run `waserver reload ");
        out.append(c.name.as_str());
        out.append("`\n");
    }
    assert(out@ =~= old(out)@ + server_section(*c, now));
}

/// An app's line.
pub open spec fn app_row(s: AppStatus) -> Seq<char> {
    "  "@ + s.id@ + "\t"@ + s.name@ + "\t"@ + s.upstream@ + (if s.upstream_reachable {
        " (reachable)"@
    } else {
        " (unreachable!)"@
    }) + "\t"@ + s.kind.name() + "\n"@
}

/// The lines of the first `n` apps.
pub open spec fn app_rows(apps: Seq<AppStatus>, n: int) -> Seq<char>
    decreases n,
{
    if n <= 0 {
        Seq::empty()
    } else {
        app_rows(apps, n - 1) + app_row(apps[n - 1])
    }
}

/// The third section: the apps.
pub open spec fn apps_section(apps: Seq<AppStatus>) -> Seq<char> {
    "\nApps\n"@ + if apps.len() == 0 {
        "  (none configured)\n"@
    } else {
        "  ID\tNAME\tUPSTREAM\tKIND\n"@ + app_rows(apps, apps.len() as int)
    }
}

fn push_apps_section(out: &mut String, apps: &Vec<AppStatus>)
    ensures
        final(out)@ == old(out)@ + apps_section(apps@),
{
    let ghost start = out@;
    out.append("\nApps\n");
    if apps.len() == 0 {
        out.append("  (none configured)\n");
    } else {
        out.append("  ID\tNAME\tUPSTREAM\tKIND\n");
        let ghost head = out@;
        let mut i: usize = 0;
        assert(out@ =~= head + app_rows(apps@, 0));
        while i < apps.len()
            invariant
                i <= apps@.len(),
                out@ == head + app_rows(apps@, i as int),
            decreases apps@.len() - i,
        {
            let ghost before = out@;
            let s = &apps[i];
            out.append("  ");
            out.append(s.id.as_str());
            out.append("\t");
            out.append(s.name.as_str());
            out.append("\t");
            out.append(s.upstream.as_str());
            out.append(
                if s.upstream_reachable {
                    " (reachable)"
                } else {
                    " (unreachable!)"
                },
            );
            out.append("\t");
            out.append(s.kind.as_str());
            out.append("\n");
            i = i + 1;
            assert(out@ =~= before + app_row(*s));
            assert(out@ =~= head + app_rows(apps@, i as int));
        }
    }
    assert(out@ =~= start + apps_section(apps@));
}

/// When a guest was last seen.
pub open spec fn last_seen_text(g: GuestStatus, now: Timestamp) -> Seq<char> {
    if g.connected_to_server == Some(true) {
        "now"@
    } else {
        match g.last_seen_at {
            Some(at) => clock::ago_text(at@, now),
            None => "-"@,
        }
    }
}

/// How a guest stands: revoked, connected, not connected, or unknown.
pub open spec fn guest_state(g: GuestStatus, now: Timestamp) -> Seq<char> {
    if g.revoked {
        match g.revoked_at {
            Some(at) => "revoked ("@ + clock::ago_text(at@, now) + ")"@,
            None => "revoked"@,
        }
    } else {
        match g.connected_to_server {
            Some(true) => match g.connected_since {
                Some(since) => "connected ("@ + clock::age_text(since@, now) + ")"@,
                None => "connected"@,
            },
            Some(false) => "-"@,
            None => "?"@,
        }
    }
}

/// A guest's line.
pub open spec fn guest_row(g: GuestStatus, now: Timestamp) -> Seq<char> {
    "  "@ + text::signed_decimal(g.node_number as int) + "\t"@ + text::text_or(g.name, "-"@)
        + "\t"@ + text::text_or(g.user_id, "-"@) + "\t"@ + last_seen_text(g, now) + "\t"@
        + guest_state(g, now) + "\n"@
}

/// The lines of the first `n` guests.
pub open spec fn guest_rows(guests: Seq<GuestStatus>, n: int, now: Timestamp) -> Seq<char>
    decreases n,
{
    if n <= 0 {
        Seq::empty()
    } else {
        guest_rows(guests, n - 1, now) + guest_row(guests[n - 1], now)
    }
}

/// What stands for a list that could not be queried.
pub open spec fn unavailable(error: Option<String>) -> Seq<char> {
    match error {
        Some(e) => "  (unavailable: "@ + e@ + ")\n"@,
        None => "  (unavailable)\n"@,
    }
}

fn push_unavailable(out: &mut String, error: &Option<String>)
    ensures
        final(out)@ == old(out)@ + unavailable(*error),
{
    match error {
        Some(e) => {
            out.append("  (unavailable: ");
            out.append(e.as_str());
            out.append(")\n");
        },
        None => out.append("  (unavailable)\n"),
    }
    assert(out@ =~= old(out)@ + unavailable(*error));
}

/// The fourth section: the guests.
pub open spec fn guests_section(c: ShareStatus, now: Timestamp) -> Seq<char> {
    "\nGuests\n"@ + match c.guests {
        Some(guests) => "  #\tNAME\tUSER\tLAST SEEN\tSTATUS\n"@ + guest_rows(
            guests@,
            guests@.len() as int,
            now,
        ) + (match c.transport {
            Some(TransportStatus::WispersConnect { .. }) => "  (node "@ + text::signed_decimal(
                SERVER_NODE_NUMBER as int,
            ) + " is the host)\n"@,
            _ => Seq::empty(),
        }),
        None => unavailable(c.guests_error),
    }
}

fn push_last_seen(out: &mut String, g: &GuestStatus, now: Timestamp)
    requires
        now.wf(),
    ensures
        final(out)@ == old(out)@ + last_seen_text(*g, now),
{
    let connected = match g.connected_to_server {
        Some(b) => b,
        None => false,
    };
    if connected {
        out.append("now");
    } else {
        match &g.last_seen_at {
            Some(at) => out.append(clock::fmt_ago(at.as_str(), now).as_str()),
            None => out.append("-"),
        }
    }
}

fn push_guest_state(out: &mut String, g: &GuestStatus, now: Timestamp)
    requires
        now.wf(),
    ensures
        final(out)@ == old(out)@ + guest_state(*g, now),
{
    if g.revoked {
        match &g.revoked_at {
            Some(at) => {
                out.append("revoked (");
                out.append(clock::fmt_ago(at.as_str(), now).as_str());
                out.append(")");
            },
            None => out.append("revoked"),
        }
    } else {
        match g.connected_to_server {
            Some(true) => match &g.connected_since {
                Some(since) => {
                    out.append("connected (");
                    out.append(clock::fmt_age(since.as_str(), now).as_str());
                    out.append(")");
                },
                None => out.append("connected"),
            },
            Some(false) => out.append("-"),
            None => out.append("?"),
        }
    }
    assert(out@ =~= old(out)@ + guest_state(*g, now));
}

fn push_guest(out: &mut String, g: &GuestStatus, now: Timestamp)
    requires
        now.wf(),
    ensures
        final(out)@ == old(out)@ + guest_row(*g, now),
{
    out.append("  ");
    text::push_signed(out, g.node_number as i64);
    out.append("\t");
    text::push_or(out, &g.name, "-");
    out.append("\t");
    text::push_or(out, &g.user_id, "-");
    out.append("\t");
    push_last_seen(out, g, now);
    out.append("\t");
    push_guest_state(out, g, now);
    out.append("\n");
    assert(out@ =~= old(out)@ + guest_row(*g, now));
}

fn push_guests_section(out: &mut String, c: &ShareStatus, now: Timestamp)
    requires
        now.wf(),
    ensures
        final(out)@ == old(out)@ + guests_section(*c, now),
{
    let ghost start = out@;
    out.append("\nGuests\n");
    match &c.guests {
        Some(guests) => {
            out.append("  #\tNAME\tUSER\tLAST SEEN\tSTATUS\n");
            let ghost head = out@;
            let mut i: usize = 0;
            assert(out@ =~= head + guest_rows(guests@, 0, now));
            while i < guests.len()
                invariant
                    i <= guests@.len(),
                    now.wf(),
                    out@ == head + guest_rows(guests@, i as int, now),
                decreases guests@.len() - i,
            {
                push_guest(out, &guests[i], now);
                i = i + 1;
                assert(out@ =~= head + guest_rows(guests@, i as int, now));
            }
            if let Some(TransportStatus::WispersConnect { .. }) = &c.transport {
                out.append("  (node ");
                text::push_signed(out, SERVER_NODE_NUMBER as i64);
                out.append(" is the host)\n");
            }
        },
        None => push_unavailable(out, &c.guests_error),
    }
    assert(out@ =~= start + guests_section(*c, now));
}

/// How an invite stands, with what is left of a pending one's time.
pub open spec fn invite_text(i: InviteStatus, now: Timestamp) -> Seq<char> {
    if i.status@ == "pending"@ {
        "pending (expires in "@ + clock::until_text(i.expires_at@, now) + ")"@
    } else {
        i.status@
    }
}

/// An invite's line.
pub open spec fn invite_row(i: InviteStatus, now: Timestamp) -> Seq<char> {
    "  "@ + text::text_or(i.node_name, "-"@) + "\t"@ + text::text_or(i.user_id, "-"@) + "\t"@
        + clock::ago_text(i.created_at@, now) + "\t"@ + invite_text(i, now) + "\n"@
}

/// The lines of the first `n` invites.
pub open spec fn invite_rows(invites: Seq<InviteStatus>, n: int, now: Timestamp) -> Seq<char>
    decreases n,
{
    if n <= 0 {
        Seq::empty()
    } else {
        invite_rows(invites, n - 1, now) + invite_row(invites[n - 1], now)
    }
}

/// The last section: the invites.
pub open spec fn invites_section(c: ShareStatus, now: Timestamp) -> Seq<char> {
    "\nInvites\n"@ + match c.invites {
        Some(invites) => if invites@.len() == 0 {
            "  (none in the last 7 days)\n"@
        } else {
            "  NODE NAME\tUSER\tCREATED\tSTATUS\n"@ + invite_rows(
                invites@,
                invites@.len() as int,
                now,
            )
        },
        None => unavailable(c.invites_error),
    }
}

fn push_invites_section(out: &mut String, c: &ShareStatus, now: Timestamp)
    requires
        now.wf(),
    ensures
        final(out)@ == old(out)@ + invites_section(*c, now),
{
    let ghost start = out@;
    out.append("\nInvites\n");
    match &c.invites {
        Some(invites) => {
            if invites.len() == 0 {
                out.append("  (none in the last 7 days)\n");
            } else {
                out.append("  NODE NAME\tUSER\tCREATED\tSTATUS\n");
                let ghost head = out@;
                let mut k: usize = 0;
                assert(out@ =~= head + invite_rows(invites@, 0, now));
                while k < invites.len()
                    invariant
                        k <= invites@.len(),
                        now.wf(),
                        out@ == head + invite_rows(invites@, k as int, now),
                    decreases invites@.len() - k,
                {
                    let ghost before = out@;
                    let i = &invites[k];
                    out.append("  ");
                    text::push_or(out, &i.node_name, "-");
                    out.append("\t");
                    text::push_or(out, &i.user_id, "-");
                    out.append("\t");
                    out.append(clock::fmt_ago(i.created_at.as_str(), now).as_str());
                    out.append("\t");
                    if text::same_text(i.status, "pending") {
                        out.append("pending (expires in ");
                        out.append(clock::fmt_until(i.expires_at.as_str(), now).as_str());
                        out.append(")");
                    } else {
                        out.append(i.status);
                    }
                    out.append("\n");
                    k = k + 1;
                    assert(out@ =~= before + invite_row(*i, now));
                    assert(out@ =~= head + invite_rows(invites@, k as int, now));
                }
            }
        },
        None => push_unavailable(out, &c.invites_error),
    }
    assert(out@ =~= start + invites_section(*c, now));
}

/// One share in full, before its columns are aligned.
pub open spec fn details_text(c: ShareStatus, now: Timestamp) -> Seq<char> {
    share_section(c) + server_section(c, now) + apps_section(c.apps@) + guests_section(c, now)
        + invites_section(c, now)
}

/// One share in full, its columns separated by tabs.
pub fn share_details(c: &ShareStatus, now: Timestamp) -> (r: String)
    requires
        now.wf(),
    ensures
        r@ == details_text(*c, now),
{
    let mut out = String::new();
    push_share_section(&mut out, c);
    push_server_section(&mut out, c, now);
    push_apps_section(&mut out, &c.apps);
    push_guests_section(&mut out, c, now);
    push_invites_section(&mut out, c, now);
    assert(out@ =~= details_text(*c, now));
    out
}

/// One share in full.
pub fn print_share_details(c: &ShareStatus, now: Timestamp) -> (r: String)
    requires
        now.wf(),
    ensures
        r@ == tab_aligned(details_text(*c, now)),
{
    align_tabs(share_details(c, now).as_str())
}

//-- What the status shows --------------------------------------------------------
/// The lines of a table stand below one another: every entry has its own, in its place, and
/// there is no other.
pub proof fn tables_have_a_line_for_every_entry(
    shares: Seq<ShareStatus>,
    quotas: Seq<GroupsQuota>,
    apps: Seq<AppStatus>,
    guests: Seq<GuestStatus>,
    invites: Seq<InviteStatus>,
    now: Timestamp,
)
    ensures
        fleet_table(shares) == "SHARE\tSTATE\tNETWORK\tAPPS\tNODES\n"@ + text::joined(
            shares.map_values(|c: ShareStatus| fleet_row(c)),
            ""@,
        ),
        quota_rows(quotas, quotas.len() as int) == text::joined(
            quotas.map_values(|q: GroupsQuota| quota_row(q)),
            ""@,
        ),
        app_rows(apps, apps.len() as int) == text::joined(
            apps.map_values(|a: AppStatus| app_row(a)),
            ""@,
        ),
        guest_rows(guests, guests.len() as int, now) == text::joined(
            guests.map_values(|g: GuestStatus| guest_row(g, now)),
            ""@,
        ),
        invite_rows(invites, invites.len() as int, now) == text::joined(
            invites.map_values(|i: InviteStatus| invite_row(i, now)),
            ""@,
        ),
{
    lemma_fleet_rows(shares, shares.len() as int);
    lemma_quota_rows(quotas, quotas.len() as int);
    lemma_app_rows(apps, apps.len() as int);
    lemma_guest_rows(guests, guests.len() as int, now);
    lemma_invite_rows(invites, invites.len() as int, now);
    assert(shares.take(shares.len() as int) =~= shares);
    assert(quotas.take(quotas.len() as int) =~= quotas);
    assert(apps.take(apps.len() as int) =~= apps);
    assert(guests.take(guests.len() as int) =~= guests);
    assert(invites.take(invites.len() as int) =~= invites);
}

/// Parts without anything between them are one after the other.
proof fn lemma_one_after_the_other(parts: Seq<Seq<char>>, last: Seq<char>)
    ensures
        text::joined(parts.push(last), ""@) == text::joined(parts, ""@) + last,
        text::joined(Seq::empty(), ""@) == Seq::<char>::empty(),
{
    reveal_strlit("");
    assert(parts.push(last).drop_last() =~= parts);
    assert(text::joined(parts, ""@) + ""@ + last =~= text::joined(parts, ""@) + last);
    if parts.len() == 0 {
        assert(text::joined(parts, ""@) + last =~= last);
    }
}

proof fn lemma_fleet_rows(shares: Seq<ShareStatus>, n: int)
    requires
        0 <= n <= shares.len(),
    ensures
        fleet_rows(shares, n) == text::joined(
            shares.take(n).map_values(|x: ShareStatus| fleet_row(x)),
            ""@,
        ),
    decreases n,
{
    let f = |x: ShareStatus| fleet_row(x);
    if n > 0 {
        lemma_fleet_rows(shares, n - 1);
        lemma_one_after_the_other(shares.take(n - 1).map_values(f), fleet_row(shares[n - 1]));
        assert(shares.take(n).map_values(f) =~= shares.take(n - 1).map_values(f).push(
            fleet_row(shares[n - 1]),
        ));
    } else {
        lemma_one_after_the_other(Seq::empty(), Seq::empty());
        assert(shares.take(0).map_values(f) =~= Seq::<Seq<char>>::empty());
    }
}

proof fn lemma_quota_rows(quotas: Seq<GroupsQuota>, n: int)
    requires
        0 <= n <= quotas.len(),
    ensures
        quota_rows(quotas, n) == text::joined(
            quotas.take(n).map_values(|x: GroupsQuota| quota_row(x)),
            ""@,
        ),
    decreases n,
{
    let f = |x: GroupsQuota| quota_row(x);
    if n > 0 {
        lemma_quota_rows(quotas, n - 1);
        lemma_one_after_the_other(quotas.take(n - 1).map_values(f), quota_row(quotas[n - 1]));
        assert(quotas.take(n).map_values(f) =~= quotas.take(n - 1).map_values(f).push(
            quota_row(quotas[n - 1]),
        ));
    } else {
        lemma_one_after_the_other(Seq::empty(), Seq::empty());
        assert(quotas.take(0).map_values(f) =~= Seq::<Seq<char>>::empty());
    }
}

proof fn lemma_app_rows(apps: Seq<AppStatus>, n: int)
    requires
        0 <= n <= apps.len(),
    ensures
        app_rows(apps, n) == text::joined(
            apps.take(n).map_values(|x: AppStatus| app_row(x)),
            ""@,
        ),
    decreases n,
{
    let f = |x: AppStatus| app_row(x);
    if n > 0 {
        lemma_app_rows(apps, n - 1);
        lemma_one_after_the_other(apps.take(n - 1).map_values(f), app_row(apps[n - 1]));
        assert(apps.take(n).map_values(f) =~= apps.take(n - 1).map_values(f).push(
            app_row(apps[n - 1]),
        ));
    } else {
        lemma_one_after_the_other(Seq::empty(), Seq::empty());
        assert(apps.take(0).map_values(f) =~= Seq::<Seq<char>>::empty());
    }
}

proof fn lemma_guest_rows(guests: Seq<GuestStatus>, n: int, now: Timestamp)
    requires
        0 <= n <= guests.len(),
    ensures
        guest_rows(guests, n, now) == text::joined(
            guests.take(n).map_values(|x: GuestStatus| guest_row(x, now)),
            ""@,
        ),
    decreases n,
{
    let f = |x: GuestStatus| guest_row(x, now);
    if n > 0 {
        lemma_guest_rows(guests, n - 1, now);
        lemma_one_after_the_other(guests.take(n - 1).map_values(f), guest_row(guests[n - 1], now));
        assert(guests.take(n).map_values(f) =~= guests.take(n - 1).map_values(f).push(
            guest_row(guests[n - 1], now),
        ));
    } else {
        lemma_one_after_the_other(Seq::empty(), Seq::empty());
        assert(guests.take(0).map_values(f) =~= Seq::<Seq<char>>::empty());
    }
}

proof fn lemma_invite_rows(invites: Seq<InviteStatus>, n: int, now: Timestamp)
    requires
        0 <= n <= invites.len(),
    ensures
        invite_rows(invites, n, now) == text::joined(
            invites.take(n).map_values(|x: InviteStatus| invite_row(x, now)),
            ""@,
        ),
    decreases n,
{
    let f = |x: InviteStatus| invite_row(x, now);
    if n > 0 {
        lemma_invite_rows(invites, n - 1, now);
        lemma_one_after_the_other(invites.take(n - 1).map_values(f), invite_row(invites[n - 1], now));
        assert(invites.take(n).map_values(f) =~= invites.take(n - 1).map_values(f).push(
            invite_row(invites[n - 1], now),
        ));
    } else {
        lemma_one_after_the_other(Seq::empty(), Seq::empty());
        assert(invites.take(0).map_values(f) =~= Seq::<Seq<char>>::empty());
    }
}

/// A share's line in the overview tells its name, the state of its server, whether that is
/// connected, all of its apps, and how many of its guests are connected out of those of whom
/// that is known, or how many there are where it is known of none.
pub proof fn overview_lines_tell_the_share(c: ShareStatus)
    ensures
        fleet_row(c) == c.name@ + "\t"@ + (if c.server.reload_pending == Some(true) {
            c.server.state@ + " (reload pending)"@
        } else {
            c.server.state@
        }) + "\t"@ + (match c.server.reachable {
            Some(true) => "connected"@,
            Some(false) => "not connected"@,
            None => "-"@,
        }) + "\t"@ + (if c.apps@.len() == 0 {
            "-"@
        } else {
            text::joined(c.apps@.map_values(|a: AppStatus| a.id@), ", "@)
        }) + "\t"@ + (match c.guests {
            Some(guests) => {
                let known = guests@.filter(|g: GuestStatus| g.connected_to_server is Some).len();
                let connected = guests@.filter(
                    |g: GuestStatus| g.connected_to_server == Some(true),
                ).len();
                if known == 0 {
                    text::decimal(guests@.len()) + " guests"@
                } else {
                    text::decimal(connected) + "/"@ + text::decimal(known) + " connected"@
                }
            },
            None => "?"@,
        }) + "\n"@,
{
    if let Some(guests) = c.guests {
        lemma_counts(guests@, guests@.len() as int);
        assert(guests@.take(guests@.len() as int) =~= guests@);
    }
}

proof fn lemma_counts(guests: Seq<GuestStatus>, n: int)
    requires
        0 <= n <= guests.len(),
    ensures
        known_count(guests, n) == guests.take(n).filter(
            |g: GuestStatus| g.connected_to_server is Some,
        ).len(),
        connected_count(guests, n) == guests.take(n).filter(
            |g: GuestStatus| g.connected_to_server == Some(true),
        ).len(),
    decreases n,
{
    reveal(Seq::filter);
    if n > 0 {
        lemma_counts(guests, n - 1);
        assert(guests.take(n).drop_last() =~= guests.take(n - 1));
        assert(guests.take(n).last() == guests[n - 1]);
    }
}

/// The overview lists the shares, and below them the usage of every API key where that is
/// known.
pub proof fn the_overview_is_shares_and_usage(report: StatusReport)
    ensures
        report.shares@.len() == 0 ==> fleet_output(report) == "No shares found\n"@,
        report.shares@.len() > 0 ==> fleet_output(report) == tab_aligned(
            fleet_table(report.shares@),
        ) + match report.groups_quota {
            Some(q) => "\nShare usage per API key\n"@ + quota_rows(q@, q@.len() as int),
            None => Seq::empty(),
        },
{
}

/// An API key's line tells the key, every share that uses it, and how much of its plan is
/// used.
pub proof fn usage_lines_tell_the_key(q: GroupsQuota)
    ensures
        quota_row(q) == "   "@ + (match q.key_id {
            Some(id) => id@,
            None => "unknown key"@,
        }) + " ("@ + text::joined(q.shares.deep_view(), ", "@) + "): "@ + text::signed_decimal(
            q.count as int,
        ) + " of "@ + (match q.max {
            Some(n) => text::signed_decimal(n as int),
            None => "\u{221e}"@,
        }) + "\n"@,
{
}

/// An app's line tells its ID, its name, where it runs and whether that answers, and its
/// kind.
pub proof fn app_lines_tell_the_app(s: AppStatus)
    ensures
        app_row(s) == "  "@ + s.id@ + "\t"@ + s.name@ + "\t"@ + s.upstream@ + (
        if s.upstream_reachable {
            " (reachable)"@
        } else {
            " (unreachable!)"@
        }) + "\t"@ + s.kind.name() + "\n"@,
        apps_section(Seq::empty()) == "\nApps\n"@ + "  (none configured)\n"@,
{
}

/// A guest's line tells its number, its name, its user, when it was last seen and how it
/// stands: one that is connected is seen now, and one that is revoked is shown as that,
/// connected or not.
pub proof fn guest_lines_tell_the_guest(g: GuestStatus, now: Timestamp)
    ensures
        guest_row(g, now) == "  "@ + text::signed_decimal(g.node_number as int) + "\t"@ + (
        match g.name {
            Some(name) => name@,
            None => "-"@,
        }) + "\t"@ + (match g.user_id {
            Some(user) => user@,
            None => "-"@,
        }) + "\t"@ + (match (g.connected_to_server, g.last_seen_at) {
            (Some(true), _) => "now"@,
            (_, Some(at)) => clock::ago_text(at@, now),
            (_, None) => "-"@,
        }) + "\t"@ + (match (g.revoked, g.revoked_at, g.connected_to_server, g.connected_since) {
            (true, Some(at), _, _) => "revoked ("@ + clock::ago_text(at@, now) + ")"@,
            (true, None, _, _) => "revoked"@,
            (false, _, Some(true), Some(since)) => "connected ("@ + clock::age_text(since@, now)
                + ")"@,
            (false, _, Some(true), None) => "connected"@,
            (false, _, Some(false), _) => "-"@,
            (false, _, None, _) => "?"@,
        }) + "\n"@,
{
}

/// An invite's line tells its node name, its user, when it was made and how it stands, with
/// the time that is left of one that is pending.
pub proof fn invite_lines_tell_the_invite(i: InviteStatus, now: Timestamp)
    ensures
        invite_row(i, now) == "  "@ + (match i.node_name {
            Some(name) => name@,
            None => "-"@,
        }) + "\t"@ + (match i.user_id {
            Some(user) => user@,
            None => "-"@,
        }) + "\t"@ + clock::ago_text(i.created_at@, now) + "\t"@ + (if i.status@ == "pending"@ {
            "pending (expires in "@ + clock::until_text(i.expires_at@, now) + ")"@
        } else {
            i.status@
        }) + "\n"@,
{
}

/// A share is shown in full: what it is, its server, its apps, its guests and its invites, in
/// that order, and for a list that could not be had the reason.
pub proof fn details_show_every_section(c: ShareStatus, now: Timestamp)
    ensures
        details_text(c, now) == share_section(c) + server_section(c, now) + apps_section(c.apps@)
            + guests_section(c, now) + invites_section(c, now),
        c.apps@.len() > 0 ==> apps_section(c.apps@) == "\nApps\n"@ + (
        "  ID\tNAME\tUPSTREAM\tKIND\n"@ + app_rows(c.apps@, c.apps@.len() as int)),
        guests_section(c, now) == "\nGuests\n"@ + match c.guests {
            Some(guests) => "  #\tNAME\tUSER\tLAST SEEN\tSTATUS\n"@ + guest_rows(
                guests@,
                guests@.len() as int,
                now,
            ) + (match c.transport {
                Some(TransportStatus::WispersConnect { .. }) => "  (node "@ + text::signed_decimal(
                    1,
                ) + " is the host)\n"@,
                _ => Seq::empty(),
            }),
            None => match c.guests_error {
                Some(e) => "  (unavailable: "@ + e@ + ")\n"@,
                None => "  (unavailable)\n"@,
            },
        },
        invites_section(c, now) == "\nInvites\n"@ + match c.invites {
            Some(invites) => if invites@.len() == 0 {
                "  (none in the last 7 days)\n"@
            } else {
                "  NODE NAME\tUSER\tCREATED\tSTATUS\n"@ + invite_rows(
                    invites@,
                    invites@.len() as int,
                    now,
                )
            },
            None => match c.invites_error {
                Some(e) => "  (unavailable: "@ + e@ + ")\n"@,
                None => "  (unavailable)\n"@,
            },
        },
        share_section(c) == "Share\n"@ + "  Name\t"@ + c.name@ + (match c.display_name {
            Some(dn) => " ("@ + dn@ + ")"@,
            None => Seq::empty(),
        }) + "\n"@ + (match c.config_error {
            Some(e) => "  Config\tERROR: "@ + e@ + "\n"@,
            None => Seq::empty(),
        }) + transport_text(c),
{
}

/// The server's section tells its state, with its process and how long it has run, what went
/// wrong, whether and since when it is connected, and whether the config was changed since.
pub proof fn the_servers_section_tells_how_it_stands(c: ShareStatus, now: Timestamp)
    ensures
        server_section(c, now) == "\nServer\n"@ + "  State\t"@ + (c.server.state@ + (match (
            c.server.pid,
            c.server.started_at,
        ) {
            (Some(pid), Some(started)) => " (pid "@ + text::decimal(pid as nat) + ", up "@
                + clock::age_text(started@, now) + ")"@,
            _ => Seq::empty(),
        }) + (match c.server.error {
            Some(e) => ": "@ + e@,
            None => Seq::empty(),
        })) + "\n"@ + (match c.server.reachable {
            Some(connected) => "  "@ + (match c.transport {
                Some(TransportStatus::Iroh { .. }) => "Relay"@,
                _ => "Hub"@,
            }) + "\t"@ + (match (connected, c.server.connected_since) {
                (true, Some(since)) => "connected (for "@ + clock::age_text(since@, now) + ")"@,
                (true, None) => "connected"@,
                (false, _) => "not connected"@,
            }) + "\n"@,
            None => Seq::empty(),
        }) + (if c.server.reload_pending == Some(true) {
            "  Config\tchanged on disk; run `waserver reload "@ + c.name@ + "`\n"@
        } else {
            Seq::empty()
        }),
{
}

/// The transport's lines tell its kind, and the backend, the group, its age and its quota on
/// the one, or the endpoint on the other.
pub proof fn the_transports_lines_tell_what_it_is(c: ShareStatus)
    ensures
        match c.transport {
            Some(
                TransportStatus::WispersConnect {
                    backend,
                    connectivity_group_id,
                    group_created_at,
                    node_quota,
                },
            ) => transport_text(c) == "  Transport\twispers-connect\n"@ + "  Backend\t"@ + (
            match backend {
                Some(b) => "self-hosted ("@ + b@ + ")"@,
                None => "managed ("@ + MANAGED_HOST@ + ")"@,
            }) + "\n"@ + "  Connectivity group\t"@ + (match connectivity_group_id {
                Some(id) => id@,
                None => "-"@,
            }) + "\n"@ + (match group_created_at {
                Some(at) => "  Created\t"@ + clock::utc_text(at@) + "\n"@,
                None => Seq::empty(),
            }) + (match node_quota {
                Some(quota) => "  Quota\t"@ + quota_text(
                    quota,
                    match c.guests {
                        Some(g) => g@.len(),
                        None => 0,
                    },
                ) + "\n"@,
                None => Seq::empty(),
            }),
            Some(TransportStatus::Iroh { endpoint_id }) => transport_text(c)
                == "  Transport\tiroh\n"@ + "  Endpoint ID\t"@ + (match endpoint_id {
                Some(id) => id@,
                None => "-"@,
            }) + "\n"@,
            None => transport_text(c) == "  Transport\t-\n"@,
        },
{
}

/// What a quota counts is the host, its guests and the invites that are pending: the invites
/// are what is left of the count.
pub proof fn quotas_count_host_guests_and_invites(
    quota: wcbe::NodeQuota,
    guests: nat,
    pending: nat,
)
    ensures
        ({
            let used = match quota.limit {
                Some(n) => text::signed_decimal(quota.current as int) + " of "@
                    + text::signed_decimal(n as int) + " used"@,
                None => text::signed_decimal(quota.current as int) + " used (no limit)"@,
            };
            &&& quota.current <= 1 + guests ==> quota_text(quota, guests) == used
            &&& pending > 0 && quota.current == 1 + guests + pending ==> quota_text(quota, guests)
                == used + " (this host + "@ + text::decimal(guests) + " guest node"@ + (if guests
                == 1 {
                ""@
            } else {
                "s"@
            }) + " + "@ + text::decimal(pending) + " pending invite"@ + (if pending == 1 {
                ""@
            } else {
                "s"@
            }) + ")"@
        }),
{
}

} // verus!
