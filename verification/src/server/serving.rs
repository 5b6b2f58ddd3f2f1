//! Serving: the per-share state shared by the transports, the IPC server and the
//! stream handlers.
use crate::clock::Timestamp;
use crate::server::config::{self, ShareConfig};
use crate::text;
use crate::server::storage::GuestNode;
use crate::wire::{CloseCode, ConfigHash};
use std::collections::HashMap;
use vstd::prelude::*;

verus! {

/// Why a server's loop returned.
#[derive(Clone, Copy, Debug, PartialEq, Eq, Structural)]
pub enum ExitReason {
    /// A shutdown signal. Nobody is waiting for a reply.
    Signal,
    /// Stopped from inside (`waserver stop`) or the session ended.
    Stopped,
}

/// What happened while a share was being served.
pub enum ServeEvent {
    /// The transport's node or endpoint is up.
    TransportBound,
    TransportFailed(String),
    /// The IPC server listens.
    IpcBound,
    IpcFailed(String),
    /// The transport's loop ended.
    Ended(Result<ExitReason, String>),
}

/// What is done next about serving a share.
#[derive(Debug, PartialEq, Eq)]
pub enum ServeStep {
    BindIpc,
    /// Run the transport's loop, with the IPC server beside it.
    Run,
    /// Let the transport go down properly rather than drop it, then fail.
    ShutDownAndFail(String),
    Fail(String),
    /// Give the IPC server some time to answer the request that ended the loop, then exit.
    AwaitReply,
    Exit,
}

/// Takes the serving of a share a step further: the transport is bound first, then the IPC
/// server, and then the transport's loop runs.
pub fn serve(event: ServeEvent) -> (r: ServeStep)
    ensures
        r == (match event {
            ServeEvent::TransportBound => ServeStep::BindIpc,
            ServeEvent::TransportFailed(e) => ServeStep::Fail(e),
            ServeEvent::IpcBound => ServeStep::Run,
            ServeEvent::IpcFailed(e) => ServeStep::ShutDownAndFail(e),
            ServeEvent::Ended(Ok(ExitReason::Stopped)) => ServeStep::AwaitReply,
            ServeEvent::Ended(Ok(ExitReason::Signal)) => ServeStep::Exit,
            ServeEvent::Ended(Err(e)) => ServeStep::Fail(e),
        }),
{
    match event {
        ServeEvent::TransportBound => ServeStep::BindIpc,
        ServeEvent::TransportFailed(e) => ServeStep::Fail(e),
        ServeEvent::IpcBound => ServeStep::Run,
        ServeEvent::IpcFailed(e) => ServeStep::ShutDownAndFail(e),
        ServeEvent::Ended(result) => match result {
            Ok(ExitReason::Stopped) => ServeStep::AwaitReply,
            Ok(ExitReason::Signal) => ServeStep::Exit,
            Err(e) => ServeStep::Fail(e),
        },
    }
}

/// How long the exit waits for the IPC server to answer the `stop` that ended the loop, in
/// seconds.
pub const IPC_REPLY_GRACE: u64 = 5;

/// Outcome of `reload`-ing the config.
pub struct ReloadOutcome {
    pub changed: bool,
    pub config: ShareConfig,
}

/// A live connection from a guest.
pub struct GuestConnection {
    pub number: i32,
    pub user_id: String,
    pub connected_since: Timestamp,
    /// Whether the transport can close the connection with a contract code.
    pub closable: bool,
}

/// One guest's live connection state, for status reporting. Multiple connections
/// from the same guest are aggregated into one entry.
#[derive(Debug, PartialEq, Eq)]
pub struct ConnectedGuest {
    /// The node number (Wispers Connect) or guest number (iroh).
    pub number: i32,
    pub user_id: String,
    pub connected_since: Timestamp,
}

/// What a running server knows.
pub struct ServingHandle {
    pub started_at: Timestamp,
    /// Since when guests can reach this server; `None` while they cannot.
    pub reachable_since: Option<Timestamp>,
    /// Live connections from guests, keyed by a per-connection ID.
    pub connections: HashMap<u64, GuestConnection>,
    pub next_connection_id: u64,
    /// The config as last loaded. Swapped whole on `reload`.
    pub config: ShareConfig,
}

/// Whether a connection of those in `conns` is that guest's.
pub open spec fn of_guest(conns: Map<u64, GuestConnection>, id: u64, number: i32) -> bool {
    conns.dom().contains(id) && conns[id].number == number
}

/// Whether `guest` sums up the connections of its number: it has the user ID of one
/// of them, and the earliest time of any.
pub open spec fn sums_up(conns: Map<u64, GuestConnection>, guest: ConnectedGuest) -> bool {
    &&& exists|id: u64|
        #[trigger] of_guest(conns, id, guest.number) && conns[id].user_id@ == guest.user_id@
    &&& exists|id: u64|
        #[trigger] of_guest(conns, id, guest.number) && conns[id].connected_since
            == guest.connected_since
    &&& forall|id: u64|
        #[trigger] of_guest(conns, id, guest.number) ==> guest.connected_since.not_after(
            conns[id].connected_since,
        )
}

/// Whether a guest of that number is listed.
pub open spec fn lists(guests: Seq<ConnectedGuest>, number: i32) -> bool {
    exists|g: int| 0 <= g < guests.len() && (#[trigger] guests[g]).number == number
}

/// Whether the guests stand by ascending number, none twice.
pub open spec fn ascending(guests: Seq<ConnectedGuest>) -> bool {
    forall|i: int, j: int|
        0 <= i < j < guests.len() ==> (#[trigger] guests[i]).number < (#[trigger] guests[j]).number
}

/// The same over a list of connections.
spec fn sums_up_list(conns: Seq<GuestConnection>, n: int, guest: ConnectedGuest) -> bool {
    &&& exists|i: int|
        0 <= i < n && (#[trigger] conns[i]).number == guest.number && conns[i].user_id@
            == guest.user_id@
    &&& exists|i: int|
        0 <= i < n && (#[trigger] conns[i]).number == guest.number && conns[i].connected_since
            == guest.connected_since
    &&& forall|i: int|
        0 <= i < n && (#[trigger] conns[i]).number == guest.number
            ==> guest.connected_since.not_after(conns[i].connected_since)
}

/// Adds one connection to the guests of those before it, by ascending number.
fn count_connection(
    guests: &mut Vec<ConnectedGuest>,
    c: &GuestConnection,
    Ghost(conns): Ghost<Seq<GuestConnection>>,
    Ghost(n): Ghost<int>,
)
    requires
        0 <= n < conns.len(),
        conns[n] == *c,
        ascending(old(guests)@),
        forall|g: int|
            0 <= g < old(guests)@.len() ==> sums_up_list(conns, n, #[trigger] old(guests)@[g]),
        forall|i: int| 0 <= i < n ==> lists(old(guests)@, (#[trigger] conns[i]).number),
    ensures
        ascending(final(guests)@),
        forall|g: int|
            0 <= g < final(guests)@.len() ==> sums_up_list(
                conns,
                n + 1,
                #[trigger] final(guests)@[g],
            ),
        forall|i: int| 0 <= i < n + 1 ==> lists(final(guests)@, (#[trigger] conns[i]).number),
{
    let ghost before = guests@;
    let mut k: usize = 0;
    while k < guests.len() && guests[k].number < c.number
        invariant
            k <= guests@.len(),
            guests@ == before,
            forall|g: int| 0 <= g < k ==> (#[trigger] before[g]).number < c.number,
        decreases guests@.len() - k,
    {
        k = k + 1;
    }
    if k < guests.len() && guests[k].number == c.number {
        assert(sums_up_list(conns, n, before[k as int]));
        if c.connected_since.at_or_before(guests[k].connected_since) {
            guests[k].connected_since = c.connected_since;
        }
        proof {
            let after = guests@;
            assert forall|g: int| 0 <= g < after.len() implies sums_up_list(
                conns,
                n + 1,
                #[trigger] after[g],
            ) by {
                assert(sums_up_list(conns, n, before[g]));
                lemma_carry_over(conns, n, before[g], after[g], g == k);
            }
            assert forall|i: int| 0 <= i < n + 1 implies lists(after, (#[trigger] conns[i]).number) by {
                if i == n {
                    assert(after[k as int].number == conns[i].number);
                } else {
                    let g = choose|g: int|
                        0 <= g < before.len() && (#[trigger] before[g]).number == conns[i].number;
                    assert(after[g].number == conns[i].number);
                }
            }
        }
    } else {
        let fresh = ConnectedGuest {
            number: c.number,
            user_id: text::copied(c.user_id.as_str()),
            connected_since: c.connected_since,
        };
        let ghost added = fresh;
        guests.insert(k, fresh);
        proof {
            let after = guests@;
            assert(after == before.insert(k as int, added));
            // A guest of this number would have stood at `k`.
            assert forall|g: int| 0 <= g < before.len() implies (#[trigger] before[g]).number
                != c.number by {
                if k < g {
                    assert(before[k as int].number < before[g].number);
                }
            }
            assert forall|i: int| 0 <= i < n implies (#[trigger] conns[i]).number != c.number by {
                let g = choose|g: int|
                    0 <= g < before.len() && (#[trigger] before[g]).number == conns[i].number;
            }
            assert forall|g: int| 0 <= g < after.len() implies sums_up_list(
                conns,
                n + 1,
                #[trigger] after[g],
            ) by {
                if g == k {
                    assert(conns[n].number == added.number);
                } else {
                    let o = if g < k {
                        g
                    } else {
                        g - 1
                    };
                    assert(after[g] == before[o]);
                    assert(sums_up_list(conns, n, before[o]));
                    lemma_carry_over(conns, n, before[o], after[g], false);
                }
            }
            assert forall|i: int| 0 <= i < n + 1 implies lists(after, (#[trigger] conns[i]).number) by {
                if i == n {
                    assert(after[k as int].number == conns[i].number);
                } else {
                    let g = choose|g: int|
                        0 <= g < before.len() && (#[trigger] before[g]).number == conns[i].number;
                    let o = if g < k {
                        g
                    } else {
                        g + 1
                    };
                    assert(after[o].number == conns[i].number);
                }
            }
        }
    }
}

proof fn lemma_carry_over(
    conns: Seq<GuestConnection>,
    n: int,
    old_guest: ConnectedGuest,
    guest: ConnectedGuest,
    same: bool,
)
    requires
        0 <= n < conns.len(),
        sums_up_list(conns, n, old_guest),
        guest.number == old_guest.number,
        guest.user_id == old_guest.user_id,
        same == (conns[n].number == guest.number),
        !same ==> guest.connected_since == old_guest.connected_since,
        same ==> guest.connected_since == if conns[n].connected_since.not_after(
            old_guest.connected_since,
        ) {
            conns[n].connected_since
        } else {
            old_guest.connected_since
        },
    ensures
        sums_up_list(conns, n + 1, guest),
{
    let u = choose|i: int|
        0 <= i < n && (#[trigger] conns[i]).number == old_guest.number && conns[i].user_id@
            == old_guest.user_id@;
    assert(conns[u].number == guest.number);
    let t = choose|i: int|
        0 <= i < n && (#[trigger] conns[i]).number == old_guest.number && conns[i].connected_since
            == old_guest.connected_since;
    assert(conns[t].number == guest.number);
    if same && guest.connected_since == conns[n].connected_since {
        assert(conns[n].number == guest.number);
    }
}

impl ServingHandle {
    /// Every live connection has an ID that was given out, and the times are points
    /// in time.
    pub open spec fn wf(self) -> bool {
        &&& self.config.wf()
        &&& self.started_at.wf()
        &&& self.reachable_since is Some ==> self.reachable_since->0.wf()
        &&& forall|id: u64| #[trigger]
            self.connections@.dom().contains(id) ==> self.connections@[id].connected_since.wf()
        &&& forall|id: u64| #[trigger]
            self.connections@.dom().contains(id) ==> id < self.next_connection_id
    }

    /// A server that has just started: unreachable, with no connections.
    pub fn new(config: ShareConfig, now: Timestamp) -> (r: ServingHandle)
        requires
            config.wf(),
            now.wf(),
        ensures
            r.wf(),
            r.started_at == now,
            r.reachable_since is None,
            r.connections@ == Map::<u64, GuestConnection>::empty(),
            r.config == config,
    {
        broadcast use vstd::std_specs::hash::group_hash_axioms;

        ServingHandle {
            started_at: now,
            reachable_since: None,
            connections: HashMap::new(),
            next_connection_id: 0,
            config,
        }
    }

    /// Replaces the running config by a fresh one that passed validation, but only
    /// if guests would see a difference. A change is announced to the connected
    /// guests by its hash.
    pub fn reload(&mut self, fresh: ShareConfig) -> (r: (ReloadOutcome, Option<ConfigHash>))
        requires
            old(self).wf(),
            fresh.wf(),
        ensures
            final(self).wf(),
            final(self).started_at == old(self).started_at,
            final(self).reachable_since == old(self).reachable_since,
            final(self).connections == old(self).connections,
            final(self).next_connection_id == old(self).next_connection_id,
            r.0.changed == (fresh.hash_spec() != old(self).config.hash_spec()),
            r.0.config == fresh,
            if r.0.changed {
                config::same_config(fresh, final(self).config) && r.1 == Some(
                    ConfigHash(fresh.hash_spec()),
                )
            } else {
                final(self).config == old(self).config && r.1 is None
            },
            final(self).config.hash_spec() == fresh.hash_spec(),
    {
        let hash: u64 = fresh.config_hash();
        let changed = hash != self.config.config_hash();
        if changed {
            self.config = fresh.copied();
            (ReloadOutcome { changed, config: fresh }, Some(ConfigHash(hash)))
        } else {
            (ReloadOutcome { changed, config: fresh }, None)
        }
    }

    /// The config as currently served.
    pub fn config(&self) -> (r: &ShareConfig)
        ensures
            *r == self.config,
    {
        &self.config
    }

    pub fn started_at(&self) -> (r: Timestamp)
        ensures
            r == self.started_at,
    {
        self.started_at
    }

    pub fn reachable_since(&self) -> (r: Option<Timestamp>)
        ensures
            r == self.reachable_since,
    {
        self.reachable_since
    }

    /// Whether guests can reach this server.
    pub fn reachable(&self) -> (r: bool)
        ensures
            r == self.reachable_since is Some,
    {
        self.reachable_since.is_some()
    }

    /// Guests can reach this server from `now` on.
    pub fn set_reachable(&mut self, now: Timestamp)
        requires
            old(self).wf(),
            now.wf(),
        ensures
            final(self).wf(),
            *final(self) == (ServingHandle { reachable_since: Some(now), ..*old(self) }),
    {
        self.reachable_since = Some(now);
    }

    /// The guests with a live P2P connection right now, one entry per node
    /// (earliest `connected_since` when a guest holds several connections), by
    /// number.
    pub fn connected_guests(&self) -> (r: Vec<ConnectedGuest>)
        ensures
            ascending(r@),
            forall|g: int| 0 <= g < r@.len() ==> sums_up(self.connections@, #[trigger] r@[g]),
            forall|id: u64| #[trigger]
                self.connections@.dom().contains(id) ==> lists(r@, self.connections@[id].number),
    {
        broadcast use vstd::std_specs::hash::group_hash_axioms;

        let ids = self.connection_ids();
        let ghost conns = ids@.map_values(|id: u64| self.connections@[id]);
        let mut guests: Vec<ConnectedGuest> = Vec::new();
        let mut n: usize = 0;
        while n < ids.len()
            invariant
                n <= ids@.len(),
                ids@.to_set() == self.connections@.dom(),
                conns == ids@.map_values(|id: u64| self.connections@[id]),
                ascending(guests@),
                forall|g: int|
                    0 <= g < guests@.len() ==> sums_up_list(conns, n as int, #[trigger] guests@[g]),
                forall|i: int| 0 <= i < n ==> lists(guests@, (#[trigger] conns[i]).number),
            decreases ids@.len() - n,
        {
            assert(ids@.to_set().contains(ids@[n as int]));
            match self.connections.get(&ids[n]) {
                Some(c) => {
                    count_connection(&mut guests, c, Ghost(conns), Ghost(n as int));
                },
                None => {},
            }
            n = n + 1;
        }
        proof {
            let all = self.connections@;
            assert forall|id: u64| #[trigger] all.dom().contains(id) implies exists|i: int|
                0 <= i < ids@.len() && #[trigger] conns[i] == all[id] && ids@[i] == id by {
                assert(ids@.to_set().contains(id));
                let i = ids@.index_of(id);
                assert(conns[i] == all[id]);
            }
            assert forall|g: int| 0 <= g < guests@.len() implies sums_up(all, #[trigger] guests@[g]) by {
                let guest = guests@[g];
                assert(sums_up_list(conns, n as int, guest));
                let u = choose|i: int|
                    0 <= i < n && (#[trigger] conns[i]).number == guest.number && conns[i].user_id@
                        == guest.user_id@;
                assert(ids@.to_set().contains(ids@[u]));
                assert(of_guest(all, ids@[u], guest.number));
                let t = choose|i: int|
                    0 <= i < n && (#[trigger] conns[i]).number == guest.number
                        && conns[i].connected_since == guest.connected_since;
                assert(ids@.to_set().contains(ids@[t]));
                assert(of_guest(all, ids@[t], guest.number));
                assert forall|id: u64| #[trigger] of_guest(all, id, guest.number) implies
                    guest.connected_since.not_after(all[id].connected_since) by {
                    let i = choose|i: int|
                        0 <= i < ids@.len() && #[trigger] conns[i] == all[id] && ids@[i] == id;
                    assert(conns[i].number == guest.number);
                }
            }
            assert forall|id: u64| #[trigger] all.dom().contains(id) implies lists(
                guests@,
                all[id].number,
            ) by {
                let i = choose|i: int|
                    0 <= i < ids@.len() && #[trigger] conns[i] == all[id] && ids@[i] == id;
                assert(conns[i].number == all[id].number);
            }
        }
        guests
    }

    /// The IDs of the live connections, in no particular order.
    fn connection_ids(&self) -> (r: Vec<u64>)
        ensures
            r@.to_set() == self.connections@.dom(),
            r@.no_duplicates(),
    {
        broadcast use vstd::std_specs::hash::group_hash_axioms;

        let mut ids: Vec<u64> = Vec::new();
        for id in it: self.connections.keys()
            invariant
                it.seq().unref().to_set() == self.connections@.dom(),
                it.seq().no_duplicates(),
                ids@ =~= it.seq().unref().take(it.index() as int),
                it.index() == it.seq().len() ==> ids@ =~= it.seq().unref(),
                ids@.no_duplicates(),
        {
            ids.push(*id);
        }
        ids
    }

    /// Tracks a live connection for `status` and, where the transport can close it,
    /// for `revoke` and shutdown. Returns the connection's ID, which no other
    /// connection has had.
    pub fn register_connection(
        &mut self,
        number: i32,
        user_id: String,
        now: Timestamp,
        closable: bool,
    ) -> (r: u64)
        requires
            old(self).wf(),
            old(self).next_connection_id < u64::MAX,
            now.wf(),
        ensures
            final(self).wf(),
            r == old(self).next_connection_id,
            !old(self).connections@.dom().contains(r),
            final(self).next_connection_id == r + 1,
            final(self).connections@ == old(self).connections@.insert(
                r,
                (GuestConnection { number, user_id, connected_since: now, closable }),
            ),
            final(self).config == old(self).config,
            final(self).reachable_since == old(self).reachable_since,
            final(self).started_at == old(self).started_at,
    {
        broadcast use vstd::std_specs::hash::group_hash_axioms;

        let id: u64 = self.next_connection_id;
        self.next_connection_id = id + 1;
        self.connections.insert(
            id,
            GuestConnection { number, user_id, connected_since: now, closable },
        );
        id
    }

    /// Forgets a connection that is gone.
    pub fn unregister_connection(&mut self, id: u64)
        requires
            old(self).wf(),
        ensures
            final(self).wf(),
            final(self).connections@ == old(self).connections@.remove(id),
            final(self).next_connection_id == old(self).next_connection_id,
            final(self).config == old(self).config,
            final(self).reachable_since == old(self).reachable_since,
            final(self).started_at == old(self).started_at,
    {
        broadcast use vstd::std_specs::hash::group_hash_axioms;

        self.connections.remove(&id);
        assert(self.connections@ =~= old(self).connections@.remove(id));
    }

    /// Whether a connection is closed when the guest of that number is revoked, or,
    /// with no number, when the server goes down.
    pub open spec fn closes(self, id: u64, number: Option<i64>) -> bool {
        &&& self.connections@.dom().contains(id)
        &&& self.connections@[id].closable
        &&& match number {
            Some(n) => self.connections@[id].number as int == n as int,
            None => true,
        }
    }

    /// The connections to close: those of one guest, or all.
    pub fn close_connections(&self, number: Option<i64>) -> (r: Vec<u64>)
        ensures
            r@.no_duplicates(),
            forall|id: u64| #[trigger] r@.contains(id) <==> self.closes(id, number),
    {
        broadcast use vstd::std_specs::hash::group_hash_axioms;

        let ids = self.connection_ids();
        let mut out: Vec<u64> = Vec::new();
        let mut n: usize = 0;
        while n < ids.len()
            invariant
                n <= ids@.len(),
                ids@.no_duplicates(),
                ids@.to_set() == self.connections@.dom(),
                out@.no_duplicates(),
                forall|i: int|
                    0 <= i < out@.len() ==> ids@.take(n as int).contains(#[trigger] out@[i]),
                forall|i: int| 0 <= i < out@.len() ==> self.closes(#[trigger] out@[i], number),
                forall|i: int|
                    0 <= i < n && self.closes(#[trigger] ids@[i], number) ==> out@.contains(ids@[i]),
            decreases ids@.len() - n,
        {
            let id: u64 = ids[n];
            assert(ids@.to_set().contains(ids@[n as int]));
            let ghost before = out@;
            let closes = match self.connections.get(&id) {
                Some(c) => c.closable && match number {
                    Some(k) => c.number as i64 == k,
                    None => true,
                },
                None => false,
            };
            assert(closes == self.closes(id, number));
            assert(forall|x: u64|
                ids@.take(n as int).contains(x) ==> ids@.take(n + 1).contains(x)) by {
                assert(ids@.take(n + 1) =~= ids@.take(n as int).push(id));
                assert forall|x: u64| ids@.take(n as int).contains(x) implies ids@.take(
                    n + 1,
                ).contains(x) by {
                    let i = ids@.take(n as int).index_of(x);
                    assert(ids@.take(n + 1)[i] == x);
                }
            }
            if closes {
                assert(!before.contains(id)) by {
                    if before.contains(id) {
                        let i = before.index_of(id);
                        assert(ids@.take(n as int).contains(before[i]));
                        let j = ids@.take(n as int).index_of(id);
                        assert(ids@[j] == ids@[n as int]);
                    }
                }
                out.push(id);
                assert(out@.last() == id);
                assert(ids@.take(n + 1)[n as int] == id);
                assert(forall|x: u64| before.contains(x) ==> out@.contains(x)) by {
                    assert forall|x: u64| before.contains(x) implies out@.contains(x) by {
                        let i = before.index_of(x);
                        assert(out@[i] == x);
                    }
                }
                assert(out@[out@.len() - 1] == id);
            }
            n = n + 1;
        }
        proof {
            assert forall|id: u64| self.closes(id, number) implies #[trigger] out@.contains(id) by {
                assert(ids@.to_set().contains(id));
                let i = ids@.index_of(id);
                assert(self.closes(ids@[i], number));
            }
        }
        out
    }
}

/// Connections to close, and the code that tells their guests why.
pub struct Closing {
    pub ids: Vec<u64>,
    pub code: CloseCode,
}

impl ServingHandle {
    /// Whether those connections are the ones to close, each once.
    pub open spec fn closes_all(self, closing: Closing, number: Option<i64>) -> bool {
        &&& closing.ids@.no_duplicates()
        &&& forall|id: u64| #[trigger] closing.ids@.contains(id) <==> self.closes(id, number)
    }

    /// Revokes a guest, by what its transport made of it: its live connections are closed
    /// with the `revoked` code, so it learns at once.
    pub fn revoke_guest(&self, number: i64, revoked: Result<GuestNode, String>) -> (r: Result<
        (GuestNode, Closing),
        String,
    >)
        ensures
            match revoked {
                Ok(guest) => r matches Ok((g, closing)) && g == guest && closing.code
                    == CloseCode::Revoked && self.closes_all(closing, Some(number)),
                Err(e) => r == Err::<(GuestNode, Closing), String>(e),
            },
    {
        match revoked {
            Ok(guest) => {
                let ids = self.close_connections(Some(number));
                Ok((guest, Closing { ids, code: CloseCode::Revoked }))
            },
            Err(e) => Err(e),
        }
    }

    /// Stops serving: every live connection is told to close first.
    pub fn shutdown(&self) -> (r: Closing)
        ensures
            r.code == CloseCode::Closing,
            self.closes_all(r, None),
    {
        Closing { ids: self.close_connections(None), code: CloseCode::Closing }
    }
}

/// A guest whose connections were closed as revoked has none left open that its host
/// could have closed.
pub proof fn revoking_closes_every_connection(
    handle: ServingHandle,
    number: i32,
    closing: Closing,
    id: u64,
)
    requires
        handle.closes_all(closing, Some(number as i64)),
        of_guest(handle.connections@, id, number),
        handle.connections@[id].closable,
    ensures
        closing.ids@.contains(id),
{
}

/// Revoking a guest closes its connections and nobody else's; going down closes everybody's.
/// What a transport cannot close is left to it.
pub proof fn connections_are_closed_for_whom_they_are(
    handle: ServingHandle,
    closing: Closing,
    number: i64,
    id: u64,
)
    ensures
        handle.closes_all(closing, Some(number)) ==> (closing.ids@.contains(id) <==> {
            &&& handle.connections@.dom().contains(id)
            &&& handle.connections@[id].closable
            &&& handle.connections@[id].number == number
        }),
        handle.closes_all(closing, None) ==> (closing.ids@.contains(id) <==> {
            &&& handle.connections@.dom().contains(id)
            &&& handle.connections@[id].closable
        }),
{
}

/// A guest is listed as connected since the first of its connections, under the user of one
/// of them; nobody without a connection is.
pub proof fn connected_guests_have_connections(
    conns: Map<u64, GuestConnection>,
    guest: ConnectedGuest,
)
    requires
        sums_up(conns, guest),
    ensures
        exists|id: u64| #[trigger]
            conns.dom().contains(id) && conns[id].number == guest.number && conns[id].user_id@
                == guest.user_id@,
        exists|id: u64| #[trigger]
            conns.dom().contains(id) && conns[id].number == guest.number
                && conns[id].connected_since == guest.connected_since,
        forall|id: u64| #[trigger]
            conns.dom().contains(id) && conns[id].number == guest.number ==> {
                let since = conns[id].connected_since;
                guest.connected_since.secs < since.secs || (guest.connected_since.secs == since.secs
                    && guest.connected_since.nanos <= since.nanos)
            },
{
    let a = choose|id: u64| #[trigger]
        of_guest(conns, id, guest.number) && conns[id].user_id@ == guest.user_id@;
    assert(conns.dom().contains(a));
    let b = choose|id: u64| #[trigger]
        of_guest(conns, id, guest.number) && conns[id].connected_since == guest.connected_since;
    assert(conns.dom().contains(b));
    assert forall|id: u64| #[trigger]
        conns.dom().contains(id) && conns[id].number == guest.number implies {
        let since = conns[id].connected_since;
        guest.connected_since.secs < since.secs || (guest.connected_since.secs == since.secs
            && guest.connected_since.nanos <= since.nanos)
    } by {
        assert(of_guest(conns, id, guest.number));
    }
}

/// The connected guests are listed by number, each once.
pub proof fn connected_guests_are_listed_by_number(guests: Seq<ConnectedGuest>, number: i32)
    requires
        ascending(guests),
    ensures
        forall|i: int, j: int|
            0 <= i < j < guests.len() ==> (#[trigger] guests[i]).number < (
            #[trigger] guests[j]).number,
        lists(guests, number) <==> exists|i: int|
            0 <= i < guests.len() && (#[trigger] guests[i]).number == number,
{
}

} // verus!
