//! This device's node in one share, and the guest API it speaks.
use crate::guest::client::{self, StoreOp};
use crate::guest::store::{self, Row, Share, ShareRow, ShareState, DB};
use crate::guest::transports::{TerminalState, TransportError};
use crate::headers::{status_line, status_text};
use crate::text;
use crate::wire::{self, ConfigHash, ShareInfo};
use vstd::prelude::*;

verus! {

/// This device's guest node in one share: its row in the store, and whether its host has
/// turned it away.
pub struct GuestNode {
    /// The `<share>` label in `<app>.<share>.localhost`.
    pub label: String,
    pub row: Row,
    /// Set once the transport reports a terminal failure mid-session. From then on the
    /// share answers without dialing.
    pub dead: Option<TerminalState>,
}

impl GuestNode {
    pub fn new(label: String, row: Row) -> (r: GuestNode)
        ensures
            r.label == label,
            r.row == row,
            r.dead is None,
    {
        GuestNode { label, row, dead: None }
    }

    pub fn label(&self) -> (r: &str)
        ensures
            r@ == self.label@,
    {
        self.label.as_str()
    }

    /// Why no stream is asked of the transport: the share is known to be dead.
    pub fn refusal(&self) -> (r: Option<TransportError>)
        ensures
            r == (match self.dead {
                Some(state) => Some(TransportError::Terminal(state)),
                None => None,
            }),
    {
        match self.dead {
            Some(state) => Some(TransportError::Terminal(state)),
            None => None,
        }
    }

    /// What asking the transport for a stream came to. A terminal failure is recorded here,
    /// once, for this run and the next; the share as it is then is what observers are told.
    pub fn opened(&mut self, db: &mut DB, result: &Result<(), TransportError>) -> (r: Option<Share>)
        requires
            old(db).wf(),
        ensures
            final(db).wf(),
            final(self).label == old(self).label,
            final(self).row == old(self).row,
            match *result {
                Err(TransportError::Terminal(state)) => {
                    &&& final(self).dead == Some(state)
                    &&& store::changes_row(
                        *old(db),
                        *final(db),
                        old(self).row.id,
                        |a: ShareRow, b: ShareRow|
                            b.terminal_state.deep_view() == Some(state.name()) && b == (ShareRow {
                                terminal_state: b.terminal_state,
                                ..a
                            }),
                    )
                    &&& match old(self).row.of(*final(db)) {
                        Some(row) => r matches Some(share) && store::presents(row, share),
                        None => r is None,
                    }
                },
                _ => *final(self) == *old(self) && *final(db) == *old(db) && r is None,
            },
            result matches Err(TransportError::Terminal(state)) ==> (old(self).row.of(
                *old(db),
            ) matches Some(a) ==> client::ended(a) is None) ==> client::operates(
                *old(db),
                StoreOp::End(old(self).row, *state),
                *final(db),
            ),
    {
        match result {
            Err(TransportError::Terminal(state)) => {
                self.dead = Some(*state);
                self.row.write_terminal_state(db, state.as_str());
                self.row.read_share(db)
            },
            _ => None,
        }
    }
}

/// Whether opening a stream is tried again. One retry covers a connection that died and had
/// to be re-established. A terminal rejection is not retried: it can only repeat.
pub fn retries(attempts: usize, result: &Result<(), TransportError>) -> (r: bool)
    ensures
        r == (attempts == 1 && result is Err && result->Err_0 is Transient),
{
    match result {
        Err(TransportError::Transient(_)) => attempts == 1,
        _ => false,
    }
}

/// What the hub says of a failure to reach a node.
#[derive(Clone, Copy, Debug, PartialEq, Eq, Structural)]
pub enum P2pFailure {
    /// This node was revoked.
    Revoked,
    /// The hub refused: it does not accept this node's credentials, or does not know it.
    Rejected,
    /// Any other failure.
    Other,
}

/// Which failures to reach the host end a share for good.
pub fn terminal_from_p2p_err(e: P2pFailure) -> (r: Option<TerminalState>)
    ensures
        r == (match e {
            P2pFailure::Revoked => Some(TerminalState::Revoked),
            P2pFailure::Rejected => Some(TerminalState::Removed),
            P2pFailure::Other => None,
        }),
{
    match e {
        P2pFailure::Revoked => Some(TerminalState::Revoked),
        P2pFailure::Rejected => Some(TerminalState::Removed),
        P2pFailure::Other => None,
    }
}

/// Which failures to restore a node end a share for good. Credentials that the hub rejects,
/// or that it does not know, come before a revocation.
pub fn terminal_from_node_err(unauthenticated: bool, not_found: bool, revoked: bool) -> (r: Option<
    TerminalState,
>)
    ensures
        r == (if unauthenticated || not_found {
            Some(TerminalState::Removed)
        } else if revoked {
            Some(TerminalState::Revoked)
        } else {
            None
        }),
{
    if unauthenticated || not_found {
        return Some(TerminalState::Removed);
    }
    if revoked {
        return Some(TerminalState::Revoked);
    }
    None
}

#[derive(Clone, Debug, PartialEq, Eq)]
pub enum RefreshError {
    /// The host has turned this device away for good. The store has the state.
    Terminal,
    Transient(String),
}

//-- The guest API ----------------------------------------------------------------
/// The entity tag that a conditional request carries: that of the copy this device has.
pub fn if_none_match(known: Option<ConfigHash>) -> (r: Option<String>)
    ensures
        r.deep_view() == (match known {
            Some(hash) => Some(hash.tag()),
            None => None,
        }),
{
    match known {
        Some(hash) => Some(hash.etag()),
        None => None,
    }
}

/// What the host's answer to a request means.
#[derive(Debug, PartialEq, Eq)]
pub enum Answer {
    /// The share is unchanged.
    Unchanged,
    /// The body is the share.
    ReadShare,
}

/// What the answer to `GET /v1/share` means.
pub fn fetch_info(status: u16) -> (r: Result<Answer, String>)
    requires
        100 <= status <= 999,
    ensures
        match r {
            Ok(Answer::Unchanged) => status == 304,
            Ok(Answer::ReadShare) => status == 200,
            Err(e) => status != 304 && status != 200 && e@ == "the host node answered "@
                + status_text(status) + " to GET /v1/share"@,
        },
{
    if status == 304 {
        Ok(Answer::Unchanged)
    } else if status == 200 {
        Ok(Answer::ReadShare)
    } else {
        let mut out = text::copied("the host node answered ");
        out.append(status_line(status).as_str());
        out.append(" to GET /v1/share");
        Err(out)
    }
}

/// What the answer to `POST /v1/activation` means: the share, or a refusal that carries the
/// contract's reason, where the body has one.
pub fn activate(status: u16, error: Option<String>) -> (r: Result<(), String>)
    requires
        100 <= status <= 999,
    ensures
        r is Ok <==> status == 200,
        r matches Err(e) ==> e@ == (match error {
            Some(why) => "activation refused: "@ + why@,
            None => "the host node answered "@ + status_text(status) + " to the activation"@,
        }),
{
    if status == 200 {
        return Ok(());
    }
    match error {
        Some(why) => {
            let mut out = text::copied("activation refused: ");
            out.append(why.as_str());
            Err(out)
        },
        None => {
            let mut out = text::copied("the host node answered ");
            out.append(status_line(status).as_str());
            out.append(" to the activation");
            Err(out)
        },
    }
}

/// What the answer to `DELETE /v1/guest` means.
pub fn leave(status: u16) -> (r: Result<(), String>)
    requires
        100 <= status <= 999,
    ensures
        r is Ok <==> status == 204,
        r matches Err(e) ==> e@ == "the host node answered "@ + status_text(status)
            + " to DELETE /v1/guest"@,
{
    if status == 204 {
        return Ok(());
    }
    let mut out = text::copied("the host node answered ");
    out.append(status_line(status).as_str());
    out.append(" to DELETE /v1/guest");
    Err(out)
}

/// What a refresh makes of the host's news: the store has them, and so do observers.
pub fn store_news(db: &mut DB, row: &Row, info: &ShareInfo) -> (r: Result<Share, store::StoreError>)
    requires
        old(db).wf(),
    ensures
        final(db).wf(),
        match store::row_at(old(db).shares@, row.id) {
            Some(i) => if store::apps_ok(info.apps@) {
                &&& old(db).same_but(*final(db), i)
                &&& store::stores_info(old(db).shares@[i], final(db).shares@[i], *info)
                &&& r matches Ok(share) && store::presents(final(db).shares@[i], share)
            } else {
                r is Err && r->Err_0 == store::StoreError::DuplicateApp && *final(db) == *old(db)
            },
            None => *final(db) == *old(db) && r is Err && r->Err_0 == if info.apps@.len() == 0 {
                store::StoreError::NoSuchRow
            } else {
                store::StoreError::Orphan
            },
        },
        r is Ok ==> client::operates(*old(db), StoreOp::News(*row, *info), *final(db)),
{
    let ghost before = *db;
    proof {
        store::lemma_row_at(before.shares@, row.id);
    }
    match row.write_share_info(db, info) {
        Err(e) => Err(e),
        Ok(()) => {
            proof {
                if let Some(i) = store::row_at(before.shares@, row.id) {
                    store::lemma_row_at(db.shares@, row.id);
                    let k = store::row_at(db.shares@, row.id)->0;
                    if k < i {
                        assert(db.shares@[k].id < db.shares@[i].id);
                    } else if i < k {
                        assert(db.shares@[i].id < db.shares@[k].id);
                    }
                }
            }
            match row.read_share(db) {
                Some(share) => Ok(share),
                None => Err(store::StoreError::NoSuchRow),
            }
        },
    }
}

} // verus!
