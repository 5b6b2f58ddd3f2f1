//! The Wispers Connect transport: what the host makes of the hub's answers.
use crate::clock::Timestamp;
use crate::server::protocol::Peer;
use crate::server::status::{
    self, GuestStatus, InviteStatus, TransportReport, TransportStatus,
};
use crate::server::storage::WispersConnectState;
use crate::server::wcbe::{self, BackendError, GroupDetail, GroupNode, NodeMetadata, RegistrationToken};
use crate::text;
use vstd::prelude::*;

verus! {

/// The host node is always the first node of its connectivity group: `init` registers
/// it before any invite exists. Guests dial it by this number.
pub const SERVER_NODE_NUMBER: i32 = 1;

//-- Identity ---------------------------------------------------------------------
/// The user that metadata names: none where the name is empty.
pub open spec fn named_user(metadata: Option<NodeMetadata>) -> Option<Seq<char>> {
    match metadata {
        Some(m) => if m.user_id@.len() == 0 {
            None
        } else {
            Some(m.user_id@)
        },
        None => None,
    }
}

/// The user that a node's metadata names. `metadata` is `None` where there is none, or
/// it does not read as such.
pub fn parse_user_id(metadata: &Option<NodeMetadata>) -> (r: Option<String>)
    ensures
        r.deep_view() == named_user(*metadata),
{
    match metadata {
        Some(m) => {
            if m.user_id.as_str().is_empty() {
                None
            } else {
                Some(text::copied(m.user_id.as_str()))
            }
        },
        None => None,
    }
}

/// Where the node of that number first stands, from the `i`th on.
pub open spec fn node_index(nodes: Seq<GroupNode>, number: i32, i: int) -> Option<int>
    decreases nodes.len() - i,
{
    if i >= nodes.len() {
        None
    } else if nodes[i].node_number == number {
        Some(i)
    } else {
        node_index(nodes, number, i + 1)
    }
}

/// The identity of a peer among the nodes of its group.
pub open spec fn identity_of(nodes: Seq<GroupNode>, peer: i32) -> Option<Seq<char>> {
    match node_index(nodes, peer, 0) {
        Some(i) => named_user(nodes[i].metadata),
        None => None,
    }
}

/// The peer's `user_id` from its node metadata, as the hub lists it. `None` (no such
/// node, no metadata, or no user ID) means the guest is not served. The metadata is what
/// `invite` attached to the registration token, so identity is trusted to the hub here
/// while membership is not.
pub fn resolve_identity(nodes: &Vec<GroupNode>, peer: i32) -> (r: Option<String>)
    ensures
        r.deep_view() == identity_of(nodes@, peer),
{
    let mut i: usize = 0;
    while i < nodes.len()
        invariant
            i <= nodes@.len(),
            node_index(nodes@, peer, 0) == node_index(nodes@, peer, i as int),
        decreases nodes@.len() - i,
    {
        if nodes[i].node_number == peer {
            return parse_user_id(&nodes[i].metadata);
        }
        i = i + 1;
    }
    None
}

/// Who is on the other end of a connection from a node of the group, and whether that node
/// is served at all. Without an identity it is not: the app relies on the identity header.
/// `nodes` is `None` where the hub could not be asked.
pub fn let_in(peer: i32, nodes: Option<&Vec<GroupNode>>) -> (r: Option<Peer>)
    ensures
        match nodes {
            None => r is None,
            Some(n) => match identity_of(n@, peer) {
                None => r is None,
                Some(user) => r matches Some(p) && p.peer_id@ == text::signed_decimal(peer as int)
                    && p.user_id.deep_view() == Some(user),
            },
        },
{
    match nodes {
        None => None,
        Some(n) => match resolve_identity(n, peer) {
            None => None,
            Some(user) => {
                // The node number, authenticated against the group's cryptographic roster.
                let mut peer_id = String::new();
                text::push_signed(&mut peer_id, peer as i64);
                assert(peer_id@ =~= text::signed_decimal(peer as int));
                Some(Peer { peer_id, user_id: Some(user) })
            },
        },
    }
}

//-- Sessions ---------------------------------------------------------------------
/// How a hub session ended.
pub enum SessionEnd {
    Normal,
    Failed(String),
    Panicked(String),
}

/// What the end of the hub session means for the server.
pub fn handle_session_end(end: SessionEnd) -> (r: Result<(), String>)
    ensures
        match end {
            SessionEnd::Normal => r is Ok,
            SessionEnd::Failed(e) => r matches Err(why) && why@ == "Session error: "@ + e@,
            SessionEnd::Panicked(e) => r matches Err(why) && why@ == "Session task panicked: "@ + e@,
        },
{
    match end {
        SessionEnd::Normal => Ok(()),
        SessionEnd::Failed(e) => {
            let mut out = text::copied("Session error: ");
            out.append(e.as_str());
            Err(out)
        },
        SessionEnd::Panicked(e) => {
            let mut out = text::copied("Session task panicked: ");
            out.append(e.as_str());
            Err(out)
        },
    }
}

//-- CLI without the daemon -------------------------------------------------------
/// Group creation is where the plan's connectivity-group quota bites. Make the error
/// actionable; any other error passes through untouched.
pub fn explain_group_quota(e: BackendError) -> (r: BackendError)
    ensures
        match e {
            BackendError::Quota(q) if q.quota@ == "groups_per_domain"@ => {
                &&& r is Server
                &&& r.text()
                    == "cannot create a new share: your plan's connectivity-group quota is used up ("@
                    + text::signed_decimal(q.current as int) + " of "@ + text::signed_decimal(
                    q.limit as int,
                )
                    + "). Delete an unused share with `waserver deinit <share>` or upgrade your plan."@
            },
            _ => r == e,
        },
{
    match e {
        BackendError::Quota(q) => {
            if text::same_text(q.quota.as_str(), "groups_per_domain") {
                let mut out = text::copied(
                    "cannot create a new share: your plan's connectivity-group quota is used up (",
                );
                text::push_signed(&mut out, q.current as i64);
                out.append(" of ");
                text::push_signed(&mut out, q.limit as i64);
                out.append(
                    "). Delete an unused share with `waserver deinit <share>` or upgrade your plan.",
                );
                BackendError::Server(out)
            } else {
                BackendError::Quota(q)
            }
        },
        other => other,
    }
}

/// What the hub says of a node.
#[derive(Clone, Copy, Debug, PartialEq, Eq, Structural)]
pub enum NodeState {
    Activated,
    Revoked,
    /// Registered, but never activated.
    Other,
}

/// What is left to do about a node that is to be revoked.
#[derive(Clone, Copy, Debug, PartialEq, Eq, Structural)]
pub enum RevokeStep {
    /// The standard case. The node is both activated and registered: revoke it, then
    /// deregister it.
    Revoke,
    /// The node was already revoked but not yet deregistered.
    Deregister,
}

/// Why a node cannot be revoked, if so.
pub open spec fn revoke_refusal(node_number: i32, state: Option<NodeState>) -> Option<Seq<char>> {
    let n = text::signed_decimal(node_number as int);
    if node_number == SERVER_NODE_NUMBER {
        Some("Node "@ + n + " is the host and cannot be revoked"@)
    } else {
        match state {
            None => Some("Node "@ + n + " is unknown"@),
            Some(NodeState::Other) => Some("node "@ + n + " has never been activated."@),
            Some(_) => None,
        }
    }
}

/// Decides how a node is revoked, by what its group says of it: `None` where the group
/// does not know it. The host itself is never revoked.
pub fn revoke(node_number: i32, state: Option<NodeState>) -> (r: Result<RevokeStep, String>)
    ensures
        match r {
            Ok(step) => revoke_refusal(node_number, state) is None && step == (if state == Some(
                NodeState::Activated,
            ) {
                RevokeStep::Revoke
            } else {
                RevokeStep::Deregister
            }),
            Err(e) => revoke_refusal(node_number, state) == Some(e@),
        },
{
    let mut out = String::new();
    if node_number == SERVER_NODE_NUMBER {
        out.append("Node ");
        text::push_signed(&mut out, node_number as i64);
        out.append(" is the host and cannot be revoked");
        assert(out@ =~= revoke_refusal(node_number, state)->0);
        return Err(out);
    }
    match state {
        Some(NodeState::Activated) => Ok(RevokeStep::Revoke),
        Some(NodeState::Revoked) => Ok(RevokeStep::Deregister),
        Some(NodeState::Other) => {
            out.append("node ");
            text::push_signed(&mut out, node_number as i64);
            out.append(" has never been activated.");
            assert(out@ =~= revoke_refusal(node_number, state)->0);
            Err(out)
        },
        None => {
            out.append("Node ");
            text::push_signed(&mut out, node_number as i64);
            out.append(" is unknown");
            assert(out@ =~= revoke_refusal(node_number, state)->0);
            Err(out)
        },
    }
}

/// The credentials that a share needs on this transport.
pub fn require_credentials(share: &str, wcs: Option<WispersConnectState>) -> (r: Result<
    WispersConnectState,
    String,
>)
    ensures
        match wcs {
            Some(w) => r == Ok::<WispersConnectState, String>(w),
            None => r matches Err(e) && e@ == "Share "@ + share@
                + " has no Wispers Connect credentials"@,
        },
{
    match wcs {
        Some(w) => Ok(w),
        None => {
            let mut out = text::copied("Share ");
            out.append(share);
            out.append(" has no Wispers Connect credentials");
            Err(out)
        },
    }
}

/// The API key that `init` needs on this transport.
pub fn require_api_key(api_key: Option<String>) -> (r: Result<String, String>)
    ensures
        match api_key {
            Some(k) => r == Ok::<String, String>(k),
            None => r matches Err(e) && e@
                == "--api-key (or WC_API_KEY) is required for the wispers-connect transport"@,
        },
{
    match api_key {
        Some(k) => Ok(k),
        None => Err(
            text::copied(
                "--api-key (or WC_API_KEY) is required for the wispers-connect transport",
            ),
        ),
    }
}

//-- Status -----------------------------------------------------------------------
/// The share has a config but no usable state: an `init` that did not complete, or a
/// broken config file (reported separately).
pub const NOT_INITIALISED: &'static str =
    "share has no Wispers Connect credentials (init incomplete?)";

/// Whether a guest of the report is that node.
pub open spec fn is_guest(n: GroupNode, g: GuestStatus) -> bool {
    &&& g.node_number == n.node_number
    &&& g.name.deep_view() == n.name.deep_view()
    &&& g.user_id.deep_view() == named_user(n.metadata)
    &&& g.created_at@ == n.created_at@
    &&& g.last_seen_at.deep_view() == n.last_seen_at.deep_view()
    &&& g.connected_to_server is None
    &&& g.connected_since is None
    &&& !g.revoked
    &&& g.revoked_at is None
}

/// The nodes in the order of the report: by ascending number, those of one number in
/// the order in which they came, and the host left out.
pub open spec fn guest_order(nodes: Seq<GroupNode>, n: int) -> Seq<int>
    decreases n,
{
    if n <= 0 {
        Seq::empty()
    } else if nodes[n - 1].node_number == SERVER_NODE_NUMBER {
        guest_order(nodes, n - 1)
    } else {
        let before = guest_order(nodes, n - 1);
        before.insert(place_of(nodes, before, nodes[n - 1].node_number), n - 1)
    }
}

/// Where a node of that number is placed: behind all whose number is not greater.
pub open spec fn place_of(nodes: Seq<GroupNode>, order: Seq<int>, number: i32) -> int
    decreases order.len(),
{
    if order.len() == 0 {
        0
    } else if nodes[order.last()].node_number <= number {
        order.len() as int
    } else {
        place_of(nodes, order.drop_last(), number)
    }
}

proof fn lemma_place(nodes: Seq<GroupNode>, order: Seq<int>, number: i32)
    ensures
        0 <= place_of(nodes, order, number) <= order.len(),
    decreases order.len(),
{
    if order.len() > 0 && nodes[order.last()].node_number > number {
        lemma_place(nodes, order.drop_last(), number);
    }
}

proof fn lemma_guest_order(nodes: Seq<GroupNode>, n: int)
    requires
        0 <= n <= nodes.len(),
    ensures
        forall|i: int|
            0 <= i < guest_order(nodes, n).len() ==> 0 <= #[trigger] guest_order(nodes, n)[i] < n,
    decreases n,
{
    if n > 0 {
        lemma_guest_order(nodes, n - 1);
        let before = guest_order(nodes, n - 1);
        lemma_place(nodes, before, nodes[n - 1].node_number);
    }
}

proof fn lemma_place_splits(nodes: Seq<GroupNode>, order: Seq<int>, number: i32)
    requires
        forall|i: int, j: int|
            0 <= i < j < order.len() ==> nodes[#[trigger] order[i]].node_number <= nodes[
                #[trigger] order[j]].node_number,
    ensures
        forall|i: int|
            0 <= i < place_of(nodes, order, number) ==> nodes[#[trigger] order[i]].node_number
                <= number,
        forall|i: int|
            place_of(nodes, order, number) <= i < order.len() ==> nodes[
                #[trigger] order[i]].node_number > number,
    decreases order.len(),
{
    if order.len() > 0 && nodes[order.last()].node_number > number {
        let rest = order.drop_last();
        assert(forall|i: int| 0 <= i < rest.len() ==> rest[i] == order[i]);
        lemma_place_splits(nodes, rest, number);
        lemma_place(nodes, rest, number);
    } else if order.len() > 0 {
        assert forall|i: int| 0 <= i < order.len() implies nodes[#[trigger] order[i]].node_number
            <= number by {
            if i < order.len() - 1 {
                assert(nodes[order[i]].node_number <= nodes[order[order.len() - 1]].node_number);
            }
        }
    }
}

/// The report lists the guests by number, all of them, and never the host.
pub proof fn guests_are_listed_by_number(nodes: Seq<GroupNode>, n: int)
    requires
        0 <= n <= nodes.len(),
    ensures
        forall|i: int, j: int|
            0 <= i < j < guest_order(nodes, n).len() ==> nodes[#[trigger] guest_order(
                nodes,
                n,
            )[i]].node_number <= nodes[#[trigger] guest_order(nodes, n)[j]].node_number,
        forall|k: int|
            0 <= k < n ==> (guest_order(nodes, n).contains(k) <==> (
            #[trigger] nodes[k]).node_number != SERVER_NODE_NUMBER),
    decreases n,
{
    if n > 0 {
        guests_are_listed_by_number(nodes, n - 1);
        lemma_guest_order(nodes, n - 1);
        let before = guest_order(nodes, n - 1);
        let after = guest_order(nodes, n);
        if nodes[n - 1].node_number == SERVER_NODE_NUMBER {
            assert(!before.contains(n - 1));
        } else {
            let number = nodes[n - 1].node_number;
            let p = place_of(nodes, before, number);
            lemma_place(nodes, before, number);
            lemma_place_splits(nodes, before, number);
            assert(after == before.insert(p, n - 1));
            assert(after[p] == n - 1);
            assert forall|k: int| 0 <= k < n implies (after.contains(k) <==> (
            #[trigger] nodes[k]).node_number != SERVER_NODE_NUMBER) by {
                if k < n - 1 {
                    if before.contains(k) {
                        let i = before.index_of(k);
                        assert(after[if i < p { i } else { i + 1 }] == k);
                    }
                    if after.contains(k) {
                        let i = after.index_of(k);
                        assert(before[if i < p { i } else { i - 1 }] == k);
                    }
                }
            }
        }
    }
}

/// The group's nodes minus the host node itself, which the hub lists as one of them.
pub fn to_guests(group: &GroupDetail) -> (r: Vec<GuestStatus>)
    ensures
        r@.len() == guest_order(group.nodes@, group.nodes@.len() as int).len(),
        forall|i: int|
            0 <= i < r@.len() ==> is_guest(
                group.nodes@[guest_order(group.nodes@, group.nodes@.len() as int)[i]],
                #[trigger] r@[i],
            ),
{
    let mut guests: Vec<GuestStatus> = Vec::new();
    let ghost nodes = group.nodes@;
    let mut n: usize = 0;
    while n < group.nodes.len()
        invariant
            n <= nodes.len(),
            nodes == group.nodes@,
            guests@.len() == guest_order(nodes, n as int).len(),
            forall|i: int|
                0 <= i < guests@.len() ==> is_guest(
                    nodes[guest_order(nodes, n as int)[i]],
                    #[trigger] guests@[i],
                ),
        decreases nodes.len() - n,
    {
        let node = &group.nodes[n];
        let ghost order = guest_order(nodes, n as int);
        if node.node_number != SERVER_NODE_NUMBER {
            let ghost before = guests@;
            let mut k: usize = guests.len();
            assert(order.take(k as int) =~= order);
            while k > 0 && guests[k - 1].node_number > node.node_number
                invariant
                    k <= guests@.len(),
                    guests@ == before,
                    guests@.len() == order.len(),
                    forall|i: int|
                        0 <= i < guests@.len() ==> is_guest(nodes[order[i]], #[trigger] guests@[i]),
                    place_of(nodes, order, node.node_number) == place_of(
                        nodes,
                        order.take(k as int),
                        node.node_number,
                    ),
                decreases k,
            {
                assert(is_guest(nodes[order[k - 1]], guests@[k - 1]));
                assert(order.take(k as int).drop_last() =~= order.take(k - 1));
                assert(order.take(k as int).last() == order[k - 1]);
                k = k - 1;
            }
            proof {
                if k > 0 {
                    assert(is_guest(nodes[order[k - 1]], guests@[k - 1]));
                    assert(order.take(k as int).last() == order[k - 1]);
                }
            }
            let guest = GuestStatus {
                node_number: node.node_number,
                name: text::copied_opt(&node.name),
                user_id: parse_user_id(&node.metadata),
                created_at: text::copied(node.created_at.as_str()),
                last_seen_at: text::copied_opt(&node.last_seen_at),
                connected_to_server: None,
                connected_since: None,
                revoked: false,
                revoked_at: None,
            };
            let ghost added = guest;
            guests.insert(k, guest);
            proof {
                let after = guest_order(nodes, n + 1);
                assert(after == order.insert(k as int, n as int));
                assert(guests@ == before.insert(k as int, added));
                assert forall|i: int| 0 <= i < guests@.len() implies is_guest(
                    nodes[after[i]],
                    #[trigger] guests@[i],
                ) by {
                    if i < k {
                        assert(guests@[i] == before[i] && after[i] == order[i]);
                    } else if i > k {
                        assert(guests@[i] == before[i - 1] && after[i] == order[i - 1]);
                    }
                }
            }
        }
        n = n + 1;
    }
    guests
}

/// Whether an invite of the report is that token, as it stands at `now`.
pub open spec fn is_invite(t: RegistrationToken, i: InviteStatus, now: Timestamp) -> bool {
    &&& i.node_name.deep_view() == t.node_name.deep_view()
    &&& i.user_id.deep_view() == named_user(t.node_metadata)
    &&& i.created_at@ == t.created_at@
    &&& i.expires_at@ == t.expires_at@
    &&& i.used_at.deep_view() == t.used_at.deep_view()
    &&& i.status@ == status::invite_state(t.used_at is Some, t.expires_at@, now)
}

pub fn to_invite(token: &RegistrationToken, now: Timestamp) -> (r: InviteStatus)
    ensures
        is_invite(*token, r, now),
{
    let used_at = match &token.used_at {
        Some(s) => Some(s.as_str()),
        None => None,
    };
    InviteStatus {
        status: status::invite_status(used_at, token.expires_at.as_str(), now),
        node_name: text::copied_opt(&token.node_name),
        user_id: parse_user_id(&token.node_metadata),
        created_at: text::copied(token.created_at.as_str()),
        expires_at: text::copied(token.expires_at.as_str()),
        used_at: text::copied_opt(&token.used_at),
    }
}

/// What the hub told of a share's group and of its registration tokens.
pub struct HubAnswers {
    pub group: Result<GroupDetail, String>,
    pub tokens: Result<Vec<RegistrationToken>, String>,
}

/// Whether a transport's status is that of a group.
pub open spec fn is_transport(
    transport: Option<TransportStatus>,
    backend: Option<Seq<char>>,
    group_id: Option<Seq<char>>,
    group: Option<GroupDetail>,
) -> bool {
    transport matches Some(
        TransportStatus::WispersConnect {
            backend: b,
            connectivity_group_id,
            group_created_at,
            node_quota,
        },
    ) && {
        &&& b.deep_view() == backend
        &&& connectivity_group_id.deep_view() == group_id
        &&& group_created_at.deep_view() == (match group {
            Some(g) => Some(g.created_at@),
            None => None,
        })
        &&& node_quota == (match group {
            Some(g) => g.node_quota,
            None => None,
        })
    }
}

/// Fills in the transport's report, by the share's credentials and, where it has them,
/// what the hub told.
pub fn report(
    backend: Option<&str>,
    share: Option<(&WispersConnectState, HubAnswers)>,
    now: Timestamp,
) -> (r: TransportReport)
    ensures
        match share {
            None => {
                &&& r.guests matches Err(e) && e@ == NOT_INITIALISED@
                &&& r.invites matches Err(e) && e@ == NOT_INITIALISED@
                &&& is_transport(r.transport, backend.deep_view(), None, None)
            },
            Some((wcs, hub)) => {
                &&& match hub.group {
                    Ok(g) => {
                        &&& is_transport(
                            r.transport,
                            backend.deep_view(),
                            Some(wcs.connectivity_group_id@),
                            Some(g),
                        )
                        &&& r.guests matches Ok(guests) && guests@.len() == guest_order(
                            g.nodes@,
                            g.nodes@.len() as int,
                        ).len() && (forall|i: int|
                            0 <= i < guests@.len() ==> is_guest(
                                g.nodes@[guest_order(g.nodes@, g.nodes@.len() as int)[i]],
                                #[trigger] guests@[i],
                            ))
                    },
                    Err(e) => is_transport(
                        r.transport,
                        backend.deep_view(),
                        Some(wcs.connectivity_group_id@),
                        None,
                    ) && r.guests == Err::<Vec<GuestStatus>, String>(e),
                }
                &&& match hub.tokens {
                    Ok(tokens) => r.invites matches Ok(invites) && invites@.len() == tokens@.len()
                        && (forall|i: int|
                        0 <= i < invites@.len() ==> is_invite(
                            tokens@[i],
                            #[trigger] invites@[i],
                            now,
                        )),
                    Err(e) => r.invites == Err::<Vec<InviteStatus>, String>(e),
                }
            },
        },
{
    let backend = match backend {
        Some(b) => Some(text::copied(b)),
        None => None,
    };
    match share {
        None => TransportReport {
            guests: Err(text::copied(NOT_INITIALISED)),
            invites: Err(text::copied(NOT_INITIALISED)),
            transport: Some(
                TransportStatus::WispersConnect {
                    backend,
                    connectivity_group_id: None,
                    group_created_at: None,
                    node_quota: None,
                },
            ),
        },
        Some((wcs, hub)) => {
            let connectivity_group_id = Some(text::copied(wcs.connectivity_group_id.as_str()));
            let invites = match hub.tokens {
                Ok(tokens) => Ok(invites_of(&tokens, now)),
                Err(e) => Err(e),
            };
            match hub.group {
                Ok(g) => TransportReport {
                    transport: Some(
                        TransportStatus::WispersConnect {
                            backend,
                            connectivity_group_id,
                            group_created_at: Some(text::copied(g.created_at.as_str())),
                            node_quota: g.node_quota,
                        },
                    ),
                    guests: Ok(to_guests(&g)),
                    invites,
                },
                Err(e) => TransportReport {
                    transport: Some(
                        TransportStatus::WispersConnect {
                            backend,
                            connectivity_group_id,
                            group_created_at: None,
                            node_quota: None,
                        },
                    ),
                    guests: Err(e),
                    invites,
                },
            }
        },
    }
}

fn invites_of(tokens: &Vec<RegistrationToken>, now: Timestamp) -> (r: Vec<InviteStatus>)
    ensures
        r@.len() == tokens@.len(),
        forall|i: int| 0 <= i < r@.len() ==> is_invite(tokens@[i], #[trigger] r@[i], now),
{
    let mut out: Vec<InviteStatus> = Vec::new();
    let mut i: usize = 0;
    while i < tokens.len()
        invariant
            i <= tokens@.len(),
            out@.len() == i,
            forall|j: int| 0 <= j < i ==> is_invite(tokens@[j], #[trigger] out@[j], now),
        decreases tokens@.len() - i,
    {
        out.push(to_invite(&tokens[i], now));
        i = i + 1;
    }
    out
}

//-- What the hub's list comes to -------------------------------------------------
/// A peer is who the hub's list says: the user in the metadata of the node of its number,
/// wherever that stands. Without such a node, or with no user named there, it is nobody.
pub proof fn peers_are_who_the_list_says(nodes: Seq<GroupNode>, peer: i32)
    ensures
        forall|k: int|
            0 <= k < nodes.len() && (#[trigger] nodes[k]).node_number == peer && (forall|j: int|
                0 <= j < k ==> (#[trigger] nodes[j]).node_number != peer) ==> identity_of(
                nodes,
                peer,
            ) == match nodes[k].metadata {
                Some(m) => if m.user_id@.len() > 0 {
                    Some(m.user_id@)
                } else {
                    None
                },
                None => None,
            },
        (forall|k: int| 0 <= k < nodes.len() ==> (#[trigger] nodes[k]).node_number != peer)
            ==> identity_of(nodes, peer) is None,
{
    lemma_node_index(nodes, peer, 0);
}

proof fn lemma_node_index(nodes: Seq<GroupNode>, number: i32, i: int)
    requires
        0 <= i,
    ensures
        match node_index(nodes, number, i) {
            Some(k) => i <= k < nodes.len() && nodes[k].node_number == number && forall|j: int|
                i <= j < k ==> (#[trigger] nodes[j]).node_number != number,
            None => forall|j: int| i <= j < nodes.len() ==> (#[trigger] nodes[j]).node_number != number,
        },
    decreases nodes.len() - i,
{
    if i < nodes.len() && nodes[i].node_number != number {
        lemma_node_index(nodes, number, i + 1);
    }
}

/// Every node but the host is listed once.
pub proof fn guests_are_listed_once(nodes: Seq<GroupNode>, n: int)
    requires
        0 <= n <= nodes.len(),
    ensures
        guest_order(nodes, n).no_duplicates(),
        forall|i: int|
            0 <= i < guest_order(nodes, n).len() ==> 0 <= #[trigger] guest_order(nodes, n)[i] < n
                && nodes[guest_order(nodes, n)[i]].node_number != 1,
    decreases n,
{
    if n > 0 {
        guests_are_listed_once(nodes, n - 1);
        lemma_guest_order(nodes, n - 1);
        let before = guest_order(nodes, n - 1);
        let after = guest_order(nodes, n);
        if nodes[n - 1].node_number != 1 {
            let p = place_of(nodes, before, nodes[n - 1].node_number);
            lemma_place(nodes, before, nodes[n - 1].node_number);
            assert(after == before.insert(p, n - 1));
            assert forall|i: int| 0 <= i < after.len() implies 0 <= #[trigger] after[i] < n
                && nodes[after[i]].node_number != 1 && (i != p ==> after[i] == before[if i < p {
                i
            } else {
                i - 1
            }]) by {
                if i < p {
                    assert(after[i] == before[i]);
                } else if i > p {
                    assert(after[i] == before[i - 1]);
                }
            }
        }
    }
}

/// A guest and an invite are reported as the hub lists them, under the user that their
/// metadata name, if any.
pub proof fn the_hubs_entries_are_reported_as_they_are(
    n: GroupNode,
    g: GuestStatus,
    t: RegistrationToken,
    i: InviteStatus,
    now: Timestamp,
)
    ensures
        is_guest(n, g) ==> {
            &&& g.node_number == n.node_number
            &&& g.name.deep_view() == n.name.deep_view()
            &&& g.created_at@ == n.created_at@
            &&& g.last_seen_at.deep_view() == n.last_seen_at.deep_view()
            &&& !g.revoked
            &&& g.user_id is Some <==> (n.metadata is Some && n.metadata->0.user_id@.len() > 0)
            &&& g.user_id matches Some(u) ==> u@ == n.metadata->0.user_id@
        },
        is_invite(t, i, now) ==> {
            &&& i.node_name.deep_view() == t.node_name.deep_view()
            &&& i.created_at@ == t.created_at@
            &&& i.expires_at@ == t.expires_at@
            &&& i.used_at.deep_view() == t.used_at.deep_view()
            &&& i.user_id is Some <==> (t.node_metadata is Some && t.node_metadata->0.user_id@.len()
                > 0)
            &&& i.user_id matches Some(u) ==> u@ == t.node_metadata->0.user_id@
            &&& t.used_at is Some ==> i.status@ == "used"@
        },
{
}

/// The host itself cannot be revoked, nor a node that the group does not know or that was
/// never activated; every other node can.
pub proof fn activated_guests_can_be_revoked(node_number: i32, state: Option<NodeState>)
    ensures
        revoke_refusal(node_number, state) is None <==> node_number != 1 && (state == Some(
            NodeState::Activated,
        ) || state == Some(NodeState::Revoked)),
        node_number == 1 ==> revoke_refusal(node_number, state) == Some(
            "Node "@ + text::signed_decimal(1) + " is the host and cannot be revoked"@,
        ),
        node_number != 1 && state is None ==> revoke_refusal(node_number, state) == Some(
            "Node "@ + text::signed_decimal(node_number as int) + " is unknown"@,
        ),
        node_number != 1 && state == Some(NodeState::Other) ==> revoke_refusal(node_number, state)
            == Some(
            "node "@ + text::signed_decimal(node_number as int) + " has never been activated."@,
        ),
{
}

/// The group is reported as the hub tells it: the backend, the group's ID, when it was made and
/// how much of its quota is used; what the hub did not tell is left out.
pub proof fn groups_are_reported_as_told(
    transport: Option<TransportStatus>,
    backend: Option<Seq<char>>,
    group_id: Option<Seq<char>>,
    group: Option<GroupDetail>,
)
    requires
        is_transport(transport, backend, group_id, group),
    ensures
        transport matches Some(
            TransportStatus::WispersConnect {
                backend: b,
                connectivity_group_id: id,
                group_created_at: at,
                node_quota: quota,
            },
        ) && {
            &&& b.deep_view() == backend
            &&& id.deep_view() == group_id
            &&& group matches Some(g) ==> (at matches Some(t) && t@ == g.created_at@) && quota
                == g.node_quota
            &&& group is None ==> at is None && quota is None
        },
{
}

} // verus!
