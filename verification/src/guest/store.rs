//! The guest's store: what this device knows of the shares it joined.
//!
//! A [`DB`] is what one store file holds: a row per joined share, with the share's apps
//! and the ports they were last served on. Key material is not here but in the secret
//! store.
use crate::guest::labels;
use crate::guest::transports::{TerminalState, Transport};
use crate::text;
use crate::wire::{AppKind, ConfigHash, Share as App, ShareInfo};
use vstd::prelude::*;
use vstd::utf8::encode_utf8;

verus! {

/// Device-local ID of a share.
#[derive(Clone, Debug, PartialEq, Eq, Hash)]
pub struct ShareId(pub String);

/// Whether a text has the form of a random UUID: five groups of lower-case hexadecimal
/// digits with dashes between them, which name the version and the variant.
pub open spec fn uuid_form(s: Seq<char>) -> bool {
    &&& s.len() == 36
    &&& forall|i: int|
        0 <= i < s.len() ==> if i == 8 || i == 13 || i == 18 || i == 23 {
            #[trigger] s[i] == '-'
        } else {
            '0' <= s[i] <= '9' || 'a' <= s[i] <= 'f'
        }
    &&& s[14] == '4'
    &&& s[19] == '8' || s[19] == '9' || s[19] == 'a' || s[19] == 'b'
}

/// `uuid::Uuid::new_v4`, and `to_string` on what it gives: a random UUID, in lower case and
/// with dashes. Its version digit is 4, and its variant that of RFC 4122; the other digits are
/// left to chance.
#[verifier::external_body]
fn random_uuid() -> (r: String)
    ensures
        uuid_form(r@),
{
    uuid::Uuid::new_v4().to_string()
}

impl ShareId {
    /// A new ID, made by chance.
    pub fn mint() -> (r: ShareId)
        ensures
            uuid_form(r.0@),
    {
        ShareId(random_uuid())
    }

    pub fn as_str(&self) -> (r: &str)
        ensures
            r@ == self.0@,
    {
        self.0.as_str()
    }

    /// A copy of the ID.
    pub fn copied(&self) -> (r: ShareId)
        ensures
            r.0@ == self.0@,
    {
        ShareId(text::copied(self.0.as_str()))
    }
}

/// The port that an app was last served on.
#[derive(Clone, Debug, PartialEq, Eq)]
pub struct AppPort {
    pub app_id: String,
    pub port: u16,
}

/// One share's row.
#[derive(Clone, Debug, PartialEq, Eq)]
pub struct ShareRow {
    pub id: i64,
    pub share_id: ShareId,
    pub display_name: Option<String>,
    /// The share's label in host names.
    pub hostname: Option<String>,
    pub transport: Transport,
    pub wispers_connect_backend: Option<String>,
    pub iroh_endpoint_id: Option<String>,
    pub config_hash: Option<String>,
    /// When the row was made, in milliseconds since the epoch.
    pub created_at: i64,
    /// Whether the join that made the row succeeded.
    pub complete: bool,
    pub terminal_state: Option<String>,
    /// The apps as last fetched, in the host's order.
    pub apps: Vec<App>,
    pub ports: Vec<AppPort>,
}

/// What the store holds, the rows by ascending ID. An ID is never given out twice.
pub struct DB {
    pub shares: Vec<ShareRow>,
    /// The largest ID that was ever given out.
    pub last_id: i64,
}

/// A handle to one joined share.
#[derive(Clone, Copy, Debug, PartialEq, Eq, Structural)]
pub struct Row {
    pub id: i64,
}

/// Why the store refuses a change.
#[derive(Clone, Copy, Debug, PartialEq, Eq, Structural)]
pub enum StoreError {
    /// There is no such share.
    NoSuchRow,
    /// There are no IDs left.
    Full,
    /// There is no share that what is to be stored belongs to.
    Orphan,
    /// Another share has that ID.
    ShareIdTaken,
    /// Another share has that label.
    LabelTaken,
    /// Two apps have the same ID.
    DuplicateApp,
}

/// A share as this device knows it: what the host last said it is, and whether it still
/// lets this device in.
#[derive(Debug, PartialEq, Eq)]
pub struct Share {
    pub id: ShareId,
    /// The share's name, as the host reports it.
    pub name: String,
    /// The `<share>` in `http://<app>.<share>.localhost`. Unique per device, derived from
    /// the name at join.
    pub label: String,
    pub transport: Transport,
    /// The apps as last fetched from the host, in its order.
    pub apps: Vec<App>,
    pub state: ShareState,
    /// When this device joined, in milliseconds since the epoch.
    pub joined_at: u64,
}

#[derive(Clone, Copy, Debug, PartialEq, Eq, Structural)]
pub enum ShareState {
    Live,
    /// The host no longer knows this device's key: the share was removed, or this device
    /// was forgotten. Only `leave` makes sense.
    Removed,
    /// The host revoked this device. Only `leave` makes sense.
    Revoked,
}

//-- The store's invariant --------------------------------------------------------
/// Where the row of that ID stands.
pub open spec fn row_at(shares: Seq<ShareRow>, id: i64) -> Option<int>
    decreases shares.len(),
{
    if shares.len() == 0 {
        None
    } else if shares.last().id == id {
        Some(shares.len() - 1)
    } else {
        row_at(shares.drop_last(), id)
    }
}

pub(crate) proof fn lemma_row_at(shares: Seq<ShareRow>, id: i64)
    ensures
        match row_at(shares, id) {
            Some(i) => 0 <= i < shares.len() && shares[i].id == id && (forall|j: int|
                i < j < shares.len() ==> (#[trigger] shares[j]).id != id),
            None => forall|j: int| 0 <= j < shares.len() ==> (#[trigger] shares[j]).id != id,
        },
    decreases shares.len(),
{
    if shares.len() > 0 && shares.last().id != id {
        lemma_row_at(shares.drop_last(), id);
        assert(forall|j: int|
            0 <= j < shares.len() - 1 ==> #[trigger] shares[j] == shares.drop_last()[j]);
    }
}

/// No two apps have the same ID.
pub open spec fn apps_ok(apps: Seq<App>) -> bool {
    forall|i: int, j: int|
        0 <= i < j < apps.len() ==> (#[trigger] apps[i]).id@ != (#[trigger] apps[j]).id@
}

/// No app has two ports.
pub open spec fn ports_ok(ports: Seq<AppPort>) -> bool {
    forall|i: int, j: int|
        0 <= i < j < ports.len() ==> (#[trigger] ports[i]).app_id@ != (
        #[trigger] ports[j]).app_id@
}

/// Whether a row's label is `label`.
pub open spec fn has_label(row: ShareRow, label: Seq<char>) -> bool {
    row.hostname is Some && row.hostname->0@ == label
}

/// What holds of the rows among themselves: IDs count up, and neither a share's ID nor its
/// label is another's.
pub open spec fn rows_ok(shares: Seq<ShareRow>) -> bool {
    &&& forall|i: int, j: int|
        0 <= i < j < shares.len() ==> (#[trigger] shares[i]).id < (#[trigger] shares[j]).id
    &&& forall|i: int, j: int|
        0 <= i < j < shares.len() ==> (#[trigger] shares[i]).share_id.0@ != (
        #[trigger] shares[j]).share_id.0@
    &&& forall|i: int, j: int|
        0 <= i < j < shares.len() && (#[trigger] shares[i]).hostname is Some ==> !has_label(
            #[trigger] shares[j],
            shares[i].hostname->0@,
        )
}

impl DB {
    /// What holds of every store.
    pub open spec fn wf(self) -> bool {
        &&& self.last_id >= 0
        &&& rows_ok(self.shares@)
        &&& forall|i: int|
            0 <= i < self.shares@.len() ==> {
                &&& 1 <= (#[trigger] self.shares@[i]).id <= self.last_id
                &&& apps_ok(self.shares@[i].apps@)
                &&& ports_ok(self.shares@[i].ports@)
            }
    }

    /// Whether `after` is this store with at most the `i`th row changed.
    pub open spec fn same_but(self, after: DB, i: int) -> bool {
        &&& after.last_id == self.last_id
        &&& after.shares@.len() == self.shares@.len()
        &&& forall|j: int|
            0 <= j < self.shares@.len() && j != i ==> #[trigger] after.shares@[j]
                == self.shares@[j]
    }

    /// A change of a row that touches none of what the rows share keeps the invariant.
    proof fn lemma_same_but(self, after: DB, i: int)
        requires
            self.wf(),
            self.same_but(after, i),
            0 <= i < self.shares@.len(),
            after.shares@[i].id == self.shares@[i].id,
            after.shares@[i].share_id == self.shares@[i].share_id,
            after.shares@[i].hostname == self.shares@[i].hostname,
            apps_ok(after.shares@[i].apps@),
            ports_ok(after.shares@[i].ports@),
        ensures
            after.wf(),
    {
        let a = self.shares@;
        let b = after.shares@;
        assert forall|x: int, y: int| 0 <= x < y < b.len() implies (#[trigger] b[x]).id < (
        #[trigger] b[y]).id && b[x].share_id.0@ != b[y].share_id.0@ by {
            assert(a[x].id < a[y].id);
            assert(a[x].share_id.0@ != a[y].share_id.0@);
        }
        assert forall|x: int, y: int|
            0 <= x < y < b.len() && (#[trigger] b[x]).hostname is Some implies !has_label(
            #[trigger] b[y],
            b[x].hostname->0@,
        ) by {
            assert(a[x].hostname == b[x].hostname);
            assert(!has_label(a[y], a[x].hostname->0@));
        }
        assert forall|x: int| 0 <= x < b.len() implies 1 <= (#[trigger] b[x]).id <= after.last_id
            && apps_ok(b[x].apps@) && ports_ok(b[x].ports@) by {
            assert(1 <= a[x].id <= self.last_id);
        }
    }

    fn find(&self, id: i64) -> (r: Option<usize>)
        ensures
            match r {
                Some(i) => i < self.shares@.len() && row_at(self.shares@, id) == Some(i as int)
                    && self.shares@[i as int].id == id,
                None => row_at(self.shares@, id) is None,
            },
    {
        let mut i: usize = self.shares.len();
        assert(self.shares@.take(i as int) =~= self.shares@);
        while i > 0
            invariant
                i <= self.shares@.len(),
                row_at(self.shares@, id) == row_at(self.shares@.take(i as int), id),
            decreases i,
        {
            assert(self.shares@.take(i as int).drop_last() =~= self.shares@.take(i - 1));
            i = i - 1;
            if self.shares[i].id == id {
                return Some(i);
            }
        }
        None
    }

    /// An empty store.
    pub fn in_memory() -> (r: DB)
        ensures
            r.wf(),
            r.shares@.len() == 0,
            r.last_id == 0,
    {
        DB { shares: Vec::new(), last_id: 0 }
    }

    /// Whether a row has that share ID.
    pub open spec fn share_id_taken(self, share_id: Seq<char>) -> bool {
        exists|j: int|
            0 <= j < self.shares@.len() && (#[trigger] self.shares@[j]).share_id.0@ == share_id
    }

    /// A row for a share that is being joined, which is incomplete until the join succeeds.
    pub fn new_row(&mut self, share_id: ShareId, now_millis: i64) -> (r: Result<Row, StoreError>)
        requires
            old(self).wf(),
        ensures
            final(self).wf(),
            if old(self).last_id == i64::MAX {
                r == Err::<Row, StoreError>(StoreError::Full) && *final(self) == *old(self)
            } else if old(self).share_id_taken(share_id.0@) {
                r == Err::<Row, StoreError>(StoreError::ShareIdTaken) && *final(self) == *old(self)
            } else {
                &&& r == Ok::<Row, StoreError>(Row { id: final(self).last_id })
                &&& final(self).last_id == old(self).last_id + 1
                &&& final(self).shares@.len() == old(self).shares@.len() + 1
                &&& final(self).shares@.drop_last() == old(self).shares@
                &&& is_fresh(final(self).shares@.last(), final(self).last_id, share_id, now_millis)
            },
    {
        if self.last_id == i64::MAX {
            return Err(StoreError::Full);
        }
        let ghost before = self.shares@;
        let mut i: usize = 0;
        while i < self.shares.len()
            invariant
                i <= self.shares@.len(),
                self.shares@ == before,
                *self == *old(self),
                old(self).wf(),
                old(self).last_id < i64::MAX,
                forall|j: int| 0 <= j < i ==> (#[trigger] before[j]).share_id.0@ != share_id.0@,
            decreases self.shares@.len() - i,
        {
            if text::same_text(self.shares[i].share_id.0.as_str(), share_id.0.as_str()) {
                assert(self.shares@[i as int].share_id.0@ == share_id.0@);
                return Err(StoreError::ShareIdTaken);
            }
            i = i + 1;
        }
        let id: i64 = self.last_id + 1;
        self.last_id = id;
        self.shares.push(
            ShareRow {
                id,
                share_id,
                display_name: None,
                hostname: None,
                transport: Transport::WispersConnect,
                wispers_connect_backend: None,
                iroh_endpoint_id: None,
                config_hash: None,
                created_at: now_millis,
                complete: false,
                terminal_state: None,
                apps: Vec::new(),
                ports: Vec::new(),
            },
        );
        proof {
            let after = self.shares@;
            assert(after.drop_last() =~= before);
            assert forall|x: int, y: int| 0 <= x < y < after.len() implies (#[trigger] after[x]).id < (
            #[trigger] after[y]).id && after[x].share_id.0@ != after[y].share_id.0@ by {
                assert(after[x] == before[x]);
                if y < before.len() {
                    assert(after[y] == before[y]);
                }
            }
            assert forall|x: int, y: int|
                0 <= x < y < after.len() && (#[trigger] after[x]).hostname is Some implies !has_label(
                #[trigger] after[y],
                after[x].hostname->0@,
            ) by {
                assert(after[x] == before[x]);
                if y < before.len() {
                    assert(after[y] == before[y]);
                }
            }
        }
        Ok(Row { id })
    }

    /// Whether that complete row is the one for a label or a share ID.
    pub open spec fn answers_to(row: ShareRow, key: Seq<char>) -> bool {
        row.complete && (has_label(row, key) || row.share_id.0@ == key)
    }

    /// Where the first row for a label or a share ID stands, from the `i`th on.
    pub open spec fn index_for(self, key: Seq<char>, i: int) -> Option<int>
        decreases self.shares@.len() - i,
    {
        if i >= self.shares@.len() {
            None
        } else if DB::answers_to(self.shares@[i], key) {
            Some(i)
        } else {
            self.index_for(key, i + 1)
        }
    }

    /// Looks a share up by its hostname label (or share id). A share whose join has not
    /// succeeded is not found.
    pub fn find_row(&self, key: &str) -> (r: Option<Row>)
        ensures
            match self.index_for(key@, 0) {
                Some(i) => 0 <= i < self.shares@.len() && DB::answers_to(self.shares@[i], key@) && r
                    == Some(Row { id: self.shares@[i].id }),
                None => r is None && (forall|j: int|
                    0 <= j < self.shares@.len() ==> !DB::answers_to(#[trigger] self.shares@[j], key@)),
            },
    {
        let mut i: usize = 0;
        while i < self.shares.len()
            invariant
                i <= self.shares@.len(),
                self.index_for(key@, 0) == self.index_for(key@, i as int),
                forall|j: int| 0 <= j < i ==> !DB::answers_to(#[trigger] self.shares@[j], key@),
            decreases self.shares@.len() - i,
        {
            let row = &self.shares[i];
            let labelled = match &row.hostname {
                Some(h) => text::same_text(h.as_str(), key),
                None => false,
            };
            if row.complete && (labelled || text::same_text(row.share_id.0.as_str(), key)) {
                return Some(Row { id: row.id });
            }
            i = i + 1;
        }
        None
    }

    /// The IDs of the complete ones of the first `n` rows.
    pub open spec fn complete_ids(self, n: int) -> Seq<i64>
        decreases n,
    {
        if n <= 0 {
            Seq::empty()
        } else if self.shares@[n - 1].complete {
            self.complete_ids(n - 1).push(self.shares@[n - 1].id)
        } else {
            self.complete_ids(n - 1)
        }
    }

    /// Every joined share.
    pub fn get_all_rows(&self) -> (r: Vec<Row>)
        ensures
            r@.map_values(|row: Row| row.id) == self.complete_ids(self.shares@.len() as int),
    {
        let mut out: Vec<Row> = Vec::new();
        let mut i: usize = 0;
        let ghost ids = |row: Row| row.id;
        assert(out@.map_values(ids) =~= self.complete_ids(0));
        while i < self.shares.len()
            invariant
                i <= self.shares@.len(),
                ids == (|row: Row| row.id),
                out@.map_values(ids) == self.complete_ids(i as int),
            decreases self.shares@.len() - i,
        {
            if self.shares[i].complete {
                let ghost before = out@;
                out.push(Row { id: self.shares[i].id });
                assert(out@.map_values(ids) =~= before.map_values(ids).push(
                    self.shares@[i as int].id,
                ));
            }
            i = i + 1;
        }
        out
    }

    /// Those of the first `n` rows that are complete.
    pub open spec fn complete_rows(shares: Seq<ShareRow>, n: int) -> Seq<ShareRow>
        decreases n,
    {
        if n <= 0 {
            Seq::empty()
        } else if shares[n - 1].complete {
            DB::complete_rows(shares, n - 1).push(shares[n - 1])
        } else {
            DB::complete_rows(shares, n - 1)
        }
    }

    /// Sweeps the rows that a failed `join` left behind: those that were never completed.
    pub fn clean_up_incomplete_rows(&mut self)
        requires
            old(self).wf(),
        ensures
            final(self).wf(),
            final(self).last_id == old(self).last_id,
            final(self).shares@ == DB::complete_rows(
                old(self).shares@,
                old(self).shares@.len() as int,
            ),
            forall|i: int| 0 <= i < final(self).shares@.len() ==> (#[trigger] final(self).shares@[i]).complete,
    {
        let ghost all = self.shares@;
        let mut kept: Vec<ShareRow> = Vec::new();
        let mut n: usize = self.shares.len();
        // Taken from the back, so the rows come out in reverse.
        while n > 0
            invariant
                n == self.shares@.len(),
                n <= all.len(),
                self.shares@ == all.take(n as int),
                self.last_id == old(self).last_id,
                DB::complete_rows(all, n as int) + kept@.reverse() == DB::complete_rows(
                    all,
                    all.len() as int,
                ),
                forall|i: int| 0 <= i < kept@.len() ==> (#[trigger] kept@[i]).complete,
            decreases n,
        {
            match self.shares.pop() {
                Some(row) => {
                    n = n - 1;
                    assert(self.shares@ =~= all.take(n as int));
                    assert(row == all[n as int]);
                    if row.complete {
                        let ghost before = kept@;
                        kept.push(row);
                        assert(kept@.reverse() =~= seq![row] + before.reverse());
                        assert(DB::complete_rows(all, n as int) + kept@.reverse()
                            =~= DB::complete_rows(all, n + 1) + before.reverse());
                    }
                },
                None => {},
            }
        }
        assert(DB::complete_rows(all, 0) + kept@.reverse() =~= kept@.reverse());
        let ghost order = kept@.reverse();
        while kept.len() > 0
            invariant
                self.last_id == old(self).last_id,
                self.shares@ + kept@.reverse() == order,
            decreases kept@.len(),
        {
            let ghost before = kept@;
            match kept.pop() {
                Some(row) => {
                    let ghost had = self.shares@;
                    self.shares.push(row);
                    assert(before.reverse() =~= seq![row] + kept@.reverse());
                    assert(self.shares@ + kept@.reverse() =~= had + before.reverse());
                },
                None => {},
            }
        }
        assert(self.shares@ + kept@.reverse() =~= self.shares@);
        proof {
            lemma_complete_rows(all, all.len() as int);
            lemma_subsequence_ok(*old(self), *self);
        }
    }
}

/// Where in `shares` the complete ones of the first `n` rows stand.
spec fn complete_from(shares: Seq<ShareRow>, n: int) -> Seq<int>
    decreases n,
{
    if n <= 0 {
        Seq::empty()
    } else if shares[n - 1].complete {
        complete_from(shares, n - 1).push(n - 1)
    } else {
        complete_from(shares, n - 1)
    }
}

proof fn lemma_complete_rows(shares: Seq<ShareRow>, n: int)
    requires
        0 <= n <= shares.len(),
    ensures
        complete_from(shares, n).len() == DB::complete_rows(shares, n).len(),
        forall|i: int|
            0 <= i < complete_from(shares, n).len() ==> 0 <= #[trigger] complete_from(shares, n)[i]
                < n && DB::complete_rows(shares, n)[i] == shares[complete_from(shares, n)[i]]
                && shares[complete_from(shares, n)[i]].complete,
        forall|i: int, j: int|
            0 <= i < j < complete_from(shares, n).len() ==> #[trigger] complete_from(shares, n)[i]
                < #[trigger] complete_from(shares, n)[j],
    decreases n,
{
    if n > 0 {
        lemma_complete_rows(shares, n - 1);
    }
}

proof fn lemma_subsequence_ok(before: DB, after: DB)
    requires
        before.wf(),
        after.last_id == before.last_id,
        after.shares@ == DB::complete_rows(before.shares@, before.shares@.len() as int),
    ensures
        after.wf(),
        forall|i: int| 0 <= i < after.shares@.len() ==> (#[trigger] after.shares@[i]).complete,
{
    let a = before.shares@;
    let b = after.shares@;
    let n = a.len() as int;
    let from = complete_from(a, n);
    lemma_complete_rows(a, n);
    assert forall|x: int, y: int| 0 <= x < y < b.len() implies (#[trigger] b[x]).id < (
    #[trigger] b[y]).id && b[x].share_id.0@ != b[y].share_id.0@ by {
        assert(from[x] < from[y]);
        assert(a[from[x]].id < a[from[y]].id);
    }
    assert forall|x: int, y: int| 0 <= x < y < b.len() && (#[trigger] b[x]).hostname is Some implies
        !has_label(#[trigger] b[y], b[x].hostname->0@) by {
        assert(from[x] < from[y]);
        assert(b[x] == a[from[x]]);
        assert(b[y] == a[from[y]]);
    }
    assert forall|x: int| 0 <= x < b.len() implies 1 <= (#[trigger] b[x]).id <= after.last_id
        && apps_ok(b[x].apps@) && ports_ok(b[x].ports@) && b[x].complete by {
        assert(b[x] == a[from[x]]);
        assert(1 <= a[from[x]].id <= before.last_id);
    }
}

/// Whether a row is one that was just made.
pub open spec fn is_fresh(row: ShareRow, id: i64, share_id: ShareId, now_millis: i64) -> bool {
    &&& row.id == id
    &&& row.share_id == share_id
    &&& row.display_name is None
    &&& row.hostname is None
    &&& row.transport == Transport::WispersConnect
    &&& row.wispers_connect_backend is None
    &&& row.iroh_endpoint_id is None
    &&& row.config_hash is None
    &&& row.created_at == now_millis
    &&& !row.complete
    &&& row.terminal_state is None
    &&& row.apps@.len() == 0
    &&& row.ports@.len() == 0
}

//-- One share --------------------------------------------------------------------
/// Copies of apps.
pub(crate) fn copied_apps(apps: &Vec<App>) -> (r: Vec<App>)
    ensures
        same_apps(apps@, r@),
{
    let mut out: Vec<App> = Vec::new();
    let mut i: usize = 0;
    while i < apps.len()
        invariant
            i <= apps@.len(),
            out@.len() == i,
            forall|j: int| 0 <= j < i ==> same_app(#[trigger] apps@[j], out@[j]),
        decreases apps@.len() - i,
    {
        out.push(apps[i].copied());
        i = i + 1;
    }
    out
}

/// Whether two apps are the same.
pub open spec fn same_app(a: App, b: App) -> bool {
    a.id@ == b.id@ && a.name@ == b.name@ && a.kind == b.kind
}

/// Whether two lists hold the same apps in the same order.
pub open spec fn same_apps(a: Seq<App>, b: Seq<App>) -> bool {
    &&& a.len() == b.len()
    &&& forall|i: int| 0 <= i < a.len() ==> same_app(#[trigger] a[i], b[i])
}

pub(crate) fn distinct_apps(apps: &Vec<App>) -> (r: bool)
    ensures
        r == apps_ok(apps@),
{
    let mut j: usize = 0;
    while j < apps.len()
        invariant
            j <= apps@.len(),
            apps_ok(apps@.take(j as int)),
        decreases apps@.len() - j,
    {
        let mut i: usize = 0;
        while i < j
            invariant
                i <= j < apps@.len(),
                forall|a: int| 0 <= a < i ==> (#[trigger] apps@[a]).id@ != apps@[j as int].id@,
            decreases j - i,
        {
            if text::same_text(apps[i].id.as_str(), apps[j].id.as_str()) {
                assert(apps@[i as int].id@ == apps@[j as int].id@);
                return false;
            }
            i = i + 1;
        }
        let ghost t = apps@.take(j + 1);
        assert forall|a: int, b: int| 0 <= a < b < t.len() implies (#[trigger] t[a]).id@ != (
        #[trigger] t[b]).id@ by {
            if b < j {
                assert(apps@.take(j as int)[a].id@ != apps@.take(j as int)[b].id@);
            }
        }
        j = j + 1;
    }
    assert(apps@.take(apps@.len() as int) =~= apps@);
    true
}

/// Whether a row may stand before another: what the rows share is theirs alone.
pub open spec fn apart(a: ShareRow, b: ShareRow) -> bool {
    &&& a.id < b.id
    &&& a.share_id.0@ != b.share_id.0@
    &&& a.hostname is Some ==> !has_label(b, a.hostname->0@)
}

fn are_apart(a: &ShareRow, b: &ShareRow) -> (r: bool)
    ensures
        r == apart(*a, *b),
{
    let same_label = match (&a.hostname, &b.hostname) {
        (Some(x), Some(y)) => text::same_text(x.as_str(), y.as_str()),
        _ => false,
    };
    a.id < b.id && !same_label && !text::same_text(a.share_id.0.as_str(), b.share_id.0.as_str())
}

fn distinct_ports(ports: &Vec<AppPort>) -> (r: bool)
    ensures
        r == ports_ok(ports@),
{
    let mut j: usize = 0;
    while j < ports.len()
        invariant
            j <= ports@.len(),
            forall|a: int, b: int|
                0 <= a < b < j ==> (#[trigger] ports@[a]).app_id@ != (#[trigger] ports@[b]).app_id@,
        decreases ports@.len() - j,
    {
        let mut i: usize = 0;
        while i < j
            invariant
                i <= j < ports@.len(),
                forall|a: int|
                    0 <= a < i ==> (#[trigger] ports@[a]).app_id@ != ports@[j as int].app_id@,
            decreases j - i,
        {
            if text::same_text(ports[i].app_id.as_str(), ports[j].app_id.as_str()) {
                assert(ports@[i as int].app_id@ == ports@[j as int].app_id@);
                return false;
            }
            i = i + 1;
        }
        j = j + 1;
    }
    true
}

impl DB {
    /// The store with these rows. `None` where no store has them: two rows share what is
    /// theirs alone, or a row has an ID that was not given out.
    pub fn from_rows(shares: Vec<ShareRow>, last_id: i64) -> (r: Option<DB>)
        ensures
            match r {
                Some(db) => db.wf() && db == (DB { shares, last_id }),
                None => !(DB { shares, last_id }).wf(),
            },
    {
        let ghost db = DB { shares, last_id };
        if last_id < 0 {
            return None;
        }
        let mut j: usize = 0;
        while j < shares.len()
            invariant
                j <= shares@.len(),
                last_id >= 0,
                db == (DB { shares, last_id }),
                forall|a: int, b: int|
                    0 <= a < b < j ==> apart(#[trigger] shares@[a], #[trigger] shares@[b]),
                forall|a: int|
                    0 <= a < j ==> 1 <= (#[trigger] shares@[a]).id <= last_id && apps_ok(
                        shares@[a].apps@,
                    ) && ports_ok(shares@[a].ports@),
            decreases shares@.len() - j,
        {
            let row = &shares[j];
            if row.id < 1 || row.id > last_id || !distinct_apps(&row.apps) || !distinct_ports(
                &row.ports,
            ) {
                assert(!db.wf()) by {
                    let bad = db.shares@[j as int];
                }
                return None;
            }
            let mut i: usize = 0;
            while i < j
                invariant
                    i <= j < shares@.len(),
                    db == (DB { shares, last_id }),
                    forall|a: int| 0 <= a < i ==> apart(#[trigger] shares@[a], shares@[j as int]),
                decreases j - i,
            {
                if !are_apart(&shares[i], &shares[j]) {
                    assert(!rows_ok(shares@)) by {
                        let a = shares@[i as int];
                        let b = shares@[j as int];
                    }
                    return None;
                }
                i = i + 1;
            }
            j = j + 1;
        }
        Some(DB { shares, last_id })
    }
}

/// The state that a stored one stands for: what is no terminal state is a live share's.
pub open spec fn state_of(stored: Option<String>) -> ShareState {
    match stored {
        Some(s) => match TerminalState::named(s@) {
            Some(TerminalState::Removed) => ShareState::Removed,
            Some(TerminalState::Revoked) => ShareState::Revoked,
            None => ShareState::Live,
        },
        None => ShareState::Live,
    }
}

/// Whether a share is as a row has it.
pub open spec fn presents(row: ShareRow, share: Share) -> bool {
    &&& share.id.0@ == row.share_id.0@
    &&& share.name@ == text::text_or(row.display_name, ""@)
    &&& share.label@ == text::text_or(row.hostname, ""@)
    &&& share.transport == row.transport
    &&& same_apps(row.apps@, share.apps@)
    &&& share.state == state_of(row.terminal_state)
    &&& share.joined_at == joined_at(row)
}

/// When a share was joined. A time before the epoch is the epoch.
pub open spec fn joined_at(row: ShareRow) -> u64 {
    if row.created_at < 0 {
        0
    } else {
        row.created_at as u64
    }
}

/// The kind that a stored name stands for. One that this build does not know reads as
/// `web`: the host may be newer.
pub fn parse_or_web(s: &str) -> (r: AppKind)
    ensures
        r == (match AppKind::named(s@) {
            Some(kind) => kind,
            None => AppKind::Web,
        }),
{
    match AppKind::parse(s) {
        Some(kind) => kind,
        None => AppKind::Web,
    }
}

pub(crate) fn or_empty(s: &Option<String>) -> (r: String)
    ensures
        r@ == text::text_or(*s, ""@),
{
    match s {
        Some(t) => text::copied(t.as_str()),
        None => text::copied(""),
    }
}

/// Where an app's port stands, from the `i`th on.
pub open spec fn port_index(ports: Seq<AppPort>, app_id: Seq<char>, i: int) -> Option<int>
    decreases ports.len() - i,
{
    if i >= ports.len() {
        None
    } else if ports[i].app_id@ == app_id {
        Some(i)
    } else {
        port_index(ports, app_id, i + 1)
    }
}

proof fn lemma_port_index(ports: Seq<AppPort>, app_id: Seq<char>, i: int)
    requires
        0 <= i <= ports.len(),
    ensures
        match port_index(ports, app_id, i) {
            Some(k) => i <= k < ports.len() && ports[k].app_id@ == app_id,
            None => forall|j: int|
                i <= j < ports.len() ==> (#[trigger] ports[j]).app_id@ != app_id,
        },
    decreases ports.len() - i,
{
    if i < ports.len() && ports[i].app_id@ != app_id {
        lemma_port_index(ports, app_id, i + 1);
    }
}

/// The port that an app was last served on.
pub open spec fn port_of(ports: Seq<AppPort>, app_id: Seq<char>) -> Option<u16> {
    match port_index(ports, app_id, 0) {
        Some(i) => Some(ports[i].port),
        None => None,
    }
}

fn find_port(ports: &Vec<AppPort>, app_id: &str) -> (r: Option<usize>)
    ensures
        match r {
            Some(i) => i < ports@.len() && port_index(ports@, app_id@, 0) == Some(i as int),
            None => port_index(ports@, app_id@, 0) is None,
        },
{
    let mut i: usize = 0;
    while i < ports.len()
        invariant
            i <= ports@.len(),
            port_index(ports@, app_id@, 0) == port_index(ports@, app_id@, i as int),
        decreases ports@.len() - i,
    {
        if text::same_text(ports[i].app_id.as_str(), app_id) {
            return Some(i);
        }
        i = i + 1;
    }
    None
}

/// Whether a change of one row turns `before` into `after`: that row, where there is one,
/// becomes what `change` says of it, and nothing else changes.
pub open spec fn changes_row(
    before: DB,
    after: DB,
    id: i64,
    change: spec_fn(ShareRow, ShareRow) -> bool,
) -> bool {
    match row_at(before.shares@, id) {
        Some(i) => before.same_but(after, i) && change(before.shares@[i], after.shares@[i]),
        None => after == before,
    }
}

impl Row {
    /// The row itself, where it is still there.
    pub open spec fn of(self, db: DB) -> Option<ShareRow> {
        match row_at(db.shares@, self.id) {
            Some(i) => Some(db.shares@[i]),
            None => None,
        }
    }

    pub fn share_id(&self, db: &DB) -> (r: Option<ShareId>)
        ensures
            match self.of(*db) {
                Some(row) => r matches Some(id) && id.0@ == row.share_id.0@,
                None => r is None,
            },
    {
        match db.find(self.id) {
            Some(i) => Some(db.shares[i].share_id.copied()),
            None => None,
        }
    }

    pub fn write_display_name(&self, db: &mut DB, name: &str)
        requires
            old(db).wf(),
        ensures
            final(db).wf(),
            changes_row(
                *old(db),
                *final(db),
                self.id,
                |a: ShareRow, b: ShareRow|
                    b.display_name.deep_view() == Some(name@) && b == (ShareRow {
                        display_name: b.display_name,
                        ..a
                    }),
            ),
    {
        let ghost before = *db;
        if let Some(i) = db.find(self.id) {
            db.shares[i].display_name = Some(text::copied(name));
            proof {
                before.lemma_same_but(*db, i as int);
            }
        }
    }

    /// (share id, display name, hostname label)
    pub fn read_names(&self, db: &DB) -> (r: Option<(ShareId, String, String)>)
        ensures
            match self.of(*db) {
                Some(row) => r matches Some((id, name, label)) && id.0@ == row.share_id.0@ && name@
                    == text::text_or(row.display_name, ""@) && label@ == text::text_or(
                    row.hostname,
                    ""@,
                ),
                None => r is None,
            },
    {
        match db.find(self.id) {
            Some(i) => {
                let row = &db.shares[i];
                Some((row.share_id.copied(), or_empty(&row.display_name), or_empty(&row.hostname)))
            },
            None => None,
        }
    }

    /// Persists the self-hosted hub a Wispers Connect share uses, if any.
    pub fn write_wispers_connect_backend(&self, db: &mut DB, backend: Option<String>)
        requires
            old(db).wf(),
        ensures
            final(db).wf(),
            changes_row(
                *old(db),
                *final(db),
                self.id,
                |a: ShareRow, b: ShareRow|
                    b == (ShareRow { wispers_connect_backend: backend, ..a }),
            ),
    {
        let ghost before = *db;
        if let Some(i) = db.find(self.id) {
            db.shares[i].wispers_connect_backend = backend;
            proof {
                before.lemma_same_but(*db, i as int);
            }
        }
    }

    pub fn read_wispers_connect_backend(&self, db: &DB) -> (r: Option<Option<String>>)
        ensures
            match self.of(*db) {
                Some(row) => r matches Some(b) && b.deep_view()
                    == row.wispers_connect_backend.deep_view(),
                None => r is None,
            },
    {
        match db.find(self.id) {
            Some(i) => Some(text::copied_opt(&db.shares[i].wispers_connect_backend)),
            None => None,
        }
    }

    /// Records that this share rides iroh, and which endpoint its host is. The device's key
    /// for it lives in the secret store.
    pub fn write_iroh_endpoint_id(&self, db: &mut DB, host_endpoint_id: &str)
        requires
            old(db).wf(),
        ensures
            final(db).wf(),
            changes_row(
                *old(db),
                *final(db),
                self.id,
                |a: ShareRow, b: ShareRow|
                    b.iroh_endpoint_id.deep_view() == Some(host_endpoint_id@) && b == (ShareRow {
                        transport: Transport::Iroh,
                        iroh_endpoint_id: b.iroh_endpoint_id,
                        ..a
                    }),
            ),
    {
        let ghost before = *db;
        if let Some(i) = db.find(self.id) {
            db.shares[i].transport = Transport::Iroh;
            db.shares[i].iroh_endpoint_id = Some(text::copied(host_endpoint_id));
            proof {
                before.lemma_same_but(*db, i as int);
            }
        }
    }

    /// The host's endpoint ID, in hex, for an iroh share.
    pub fn read_iroh_endpoint_id(&self, db: &DB) -> (r: Option<Option<String>>)
        ensures
            match self.of(*db) {
                Some(row) => r matches Some(e) && e.deep_view() == row.iroh_endpoint_id.deep_view(),
                None => r is None,
            },
    {
        match db.find(self.id) {
            Some(i) => Some(text::copied_opt(&db.shares[i].iroh_endpoint_id)),
            None => None,
        }
    }

    /// The transport this share rides.
    pub fn read_transport_kind(&self, db: &DB) -> (r: Option<Transport>)
        ensures
            r == (match self.of(*db) {
                Some(row) => Some(row.transport),
                None => None,
            }),
    {
        match db.find(self.id) {
            Some(i) => Some(db.shares[i].transport),
            None => None,
        }
    }

    /// Stores what the host says the share is: its name, its config's hash and its apps, in
    /// place of what was stored before, the order of the apps included.
    pub fn write_share_info(&self, db: &mut DB, info: &ShareInfo) -> (r: Result<(), StoreError>)
        requires
            old(db).wf(),
        ensures
            final(db).wf(),
            match row_at(old(db).shares@, self.id) {
                Some(i) => if apps_ok(info.apps@) {
                    &&& r is Ok
                    &&& old(db).same_but(*final(db), i)
                    &&& stores_info(old(db).shares@[i], final(db).shares@[i], *info)
                } else {
                    r == Err::<(), StoreError>(StoreError::DuplicateApp) && *final(db) == *old(db)
                },
                None => *final(db) == *old(db) && r == (if info.apps@.len() == 0 {
                    Ok::<(), StoreError>(())
                } else {
                    Err::<(), StoreError>(StoreError::Orphan)
                }),
            },
    {
        let ghost before = *db;
        match db.find(self.id) {
            None => {
                if info.apps.len() == 0 {
                    Ok(())
                } else {
                    Err(StoreError::Orphan)
                }
            },
            Some(i) => {
                if !distinct_apps(&info.apps) {
                    return Err(StoreError::DuplicateApp);
                }
                let apps = copied_apps(&info.apps);
                proof {
                    assert forall|a: int, b: int| 0 <= a < b < apps@.len() implies (
                    #[trigger] apps@[a]).id@ != (#[trigger] apps@[b]).id@ by {
                        assert(same_app(info.apps@[a], apps@[a]));
                        assert(same_app(info.apps@[b], apps@[b]));
                    }
                }
                db.shares[i].display_name = Some(text::copied(info.name.as_str()));
                db.shares[i].config_hash = Some(info.config_hash.to_hex());
                db.shares[i].apps = apps;
                proof {
                    before.lemma_same_but(*db, i as int);
                }
                Ok(())
            },
        }
    }

    /// The config hash the stored app list came with, for a conditional refetch. `None`
    /// before the first fetch.
    pub fn read_share_config_hash(&self, db: &DB) -> (r: Option<Option<ConfigHash>>)
        ensures
            match self.of(*db) {
                Some(row) => r == Some(
                    match row.config_hash {
                        Some(h) => ConfigHash::written(h@),
                        None => None,
                    },
                ),
                None => r is None,
            },
    {
        match db.find(self.id) {
            Some(i) => match &db.shares[i].config_hash {
                Some(h) => Some(ConfigHash::from_hex(h.as_str())),
                None => Some(None),
            },
            None => None,
        }
    }

    /// The apps as last fetched, in the host's order.
    pub fn read_apps(&self, db: &DB) -> (r: Vec<App>)
        ensures
            match self.of(*db) {
                Some(row) => same_apps(row.apps@, r@),
                None => r@.len() == 0,
            },
    {
        match db.find(self.id) {
            Some(i) => copied_apps(&db.shares[i].apps),
            None => Vec::new(),
        }
    }

    /// The join succeeded: the share is there to stay.
    pub fn mark_complete(&self, db: &mut DB)
        requires
            old(db).wf(),
        ensures
            final(db).wf(),
            changes_row(
                *old(db),
                *final(db),
                self.id,
                |a: ShareRow, b: ShareRow| b == (ShareRow { complete: true, ..a }),
            ),
    {
        let ghost before = *db;
        if let Some(i) = db.find(self.id) {
            db.shares[i].complete = true;
            proof {
                before.lemma_same_but(*db, i as int);
            }
        }
    }

    /// Records that the host definitively rejected this share's node. One-way: a terminal
    /// share is never dialed again, only removed.
    pub fn write_terminal_state(&self, db: &mut DB, state: &str)
        requires
            old(db).wf(),
        ensures
            final(db).wf(),
            changes_row(
                *old(db),
                *final(db),
                self.id,
                |a: ShareRow, b: ShareRow|
                    b.terminal_state.deep_view() == Some(state@) && b == (ShareRow {
                        terminal_state: b.terminal_state,
                        ..a
                    }),
            ),
    {
        let ghost before = *db;
        if let Some(i) = db.find(self.id) {
            db.shares[i].terminal_state = Some(text::copied(state));
            proof {
                before.lemma_same_but(*db, i as int);
            }
        }
    }

    pub fn read_terminal_state(&self, db: &DB) -> (r: Option<Option<String>>)
        ensures
            match self.of(*db) {
                Some(row) => r matches Some(s) && s.deep_view() == row.terminal_state.deep_view(),
                None => r is None,
            },
    {
        match db.find(self.id) {
            Some(i) => Some(text::copied_opt(&db.shares[i].terminal_state)),
            None => None,
        }
    }

    /// When this device joined the share, in milliseconds since the epoch.
    pub fn read_joined_at(&self, db: &DB) -> (r: Option<u64>)
        ensures
            r == (match self.of(*db) {
                Some(row) => Some(joined_at(row)),
                None => None,
            }),
    {
        match db.find(self.id) {
            Some(i) => {
                let created_at: i64 = db.shares[i].created_at;
                if created_at < 0 {
                    Some(0)
                } else {
                    Some(created_at as u64)
                }
            },
            None => None,
        }
    }

    /// The share as the API presents it.
    pub fn read_share(&self, db: &DB) -> (r: Option<Share>)
        ensures
            match self.of(*db) {
                Some(row) => r matches Some(share) && presents(row, share),
                None => r is None,
            },
    {
        match db.find(self.id) {
            Some(i) => {
                let row = &db.shares[i];
                let state = match &row.terminal_state {
                    Some(s) => match TerminalState::parse(s.as_str()) {
                        Some(TerminalState::Removed) => ShareState::Removed,
                        Some(TerminalState::Revoked) => ShareState::Revoked,
                        None => ShareState::Live,
                    },
                    None => ShareState::Live,
                };
                let joined_at: u64 = if row.created_at < 0 {
                    0
                } else {
                    row.created_at as u64
                };
                Some(
                    Share {
                        id: row.share_id.copied(),
                        name: or_empty(&row.display_name),
                        label: or_empty(&row.hostname),
                        transport: row.transport,
                        apps: copied_apps(&row.apps),
                        state,
                        joined_at,
                    },
                )
            },
            None => None,
        }
    }

    /// The port a per-app proxy last served this app on.
    pub fn read_app_port(&self, db: &DB, app_id: &str) -> (r: Option<u16>)
        ensures
            r == (match self.of(*db) {
                Some(row) => port_of(row.ports@, app_id@),
                None => None,
            }),
    {
        match db.find(self.id) {
            Some(i) => match find_port(&db.shares[i].ports, app_id) {
                Some(k) => Some(db.shares[i].ports[k].port),
                None => None,
            },
            None => None,
        }
    }

    /// Remembers the port an app is served on, in place of the one before.
    pub fn write_app_port(&self, db: &mut DB, app_id: &str, port: u16) -> (r: Result<(), StoreError>)
        requires
            old(db).wf(),
        ensures
            final(db).wf(),
            match row_at(old(db).shares@, self.id) {
                Some(i) => {
                    let a = old(db).shares@[i];
                    let b = final(db).shares@[i];
                    &&& r is Ok
                    &&& old(db).same_but(*final(db), i)
                    &&& b == (ShareRow { ports: b.ports, ..a })
                    &&& forall|k: Seq<char>|
                        #[trigger] port_of(b.ports@, k) == if k == app_id@ {
                            Some(port)
                        } else {
                            port_of(a.ports@, k)
                        }
                },
                None => r == Err::<(), StoreError>(StoreError::Orphan) && *final(db) == *old(db),
            },
    {
        let ghost before = *db;
        match db.find(self.id) {
            None => Err(StoreError::Orphan),
            Some(i) => {
                let ghost had = db.shares@[i as int].ports@;
                proof {
                    lemma_port_index(had, app_id@, 0);
                    assert(ports_ok(had));
                }
                match find_port(&db.shares[i].ports, app_id) {
                    Some(k) => {
                        db.shares[i].ports[k].port = port;
                        proof {
                            let has = db.shares@[i as int].ports@;
                            assert forall|key: Seq<char>| #[trigger] port_of(has, key) == if key
                                == app_id@ {
                                Some(port)
                            } else {
                                port_of(had, key)
                            } by {
                                lemma_ports_same(had, has, key, 0);
                                lemma_port_index(had, key, 0);
                                if key == app_id@ {
                                    assert(port_index(had, key, 0) == Some(k as int));
                                }
                            }
                        }
                    },
                    None => {
                        db.shares[i].ports.push(AppPort { app_id: text::copied(app_id), port });
                        proof {
                            let has = db.shares@[i as int].ports@;
                            assert forall|x: int, y: int| 0 <= x < y < has.len() implies (
                            #[trigger] has[x]).app_id@ != (#[trigger] has[y]).app_id@ by {
                                assert(has[x] == had[x]);
                                if y < had.len() {
                                    assert(has[y] == had[y]);
                                }
                            }
                            assert forall|key: Seq<char>| #[trigger] port_of(has, key) == if key
                                == app_id@ {
                                Some(port)
                            } else {
                                port_of(had, key)
                            } by {
                                lemma_port_index(had, key, 0);
                                lemma_ports_pushed(had, has.last(), key, 0);
                                assert(has =~= had.push(has.last()));
                            }
                        }
                    },
                }
                proof {
                    assert(ports_ok(db.shares@[i as int].ports@));
                    before.lemma_same_but(*db, i as int);
                }
                Ok(())
            },
        }
    }

    /// Deletes the share and its apps outright. Its secrets are the secret store's to
    /// delete.
    pub fn delete_row(&self, db: &mut DB)
        requires
            old(db).wf(),
        ensures
            final(db).wf(),
            final(db).last_id == old(db).last_id,
            match row_at(old(db).shares@, self.id) {
                Some(i) => final(db).shares@ == old(db).shares@.remove(i),
                None => *final(db) == *old(db),
            },
            self.of(*final(db)) is None,
    {
        let ghost before = *db;
        proof {
            lemma_row_at(db.shares@, self.id);
        }
        if let Some(i) = db.find(self.id) {
            let _gone = db.shares.remove(i);
            proof {
                let a = before.shares@;
                let b = db.shares@;
                assert forall|x: int| 0 <= x < b.len() implies #[trigger] b[x] == a[if x < i {
                    x
                } else {
                    x + 1
                }] by {}
                assert(rows_ok(b)) by {
                    assert forall|x: int, y: int|
                        0 <= x < y < b.len() && (#[trigger] b[x]).hostname is Some implies !has_label(
                        #[trigger] b[y],
                        b[x].hostname->0@,
                    ) by {
                        let p = if x < i {
                            x
                        } else {
                            x + 1
                        };
                        let q = if y < i {
                            y
                        } else {
                            y + 1
                        };
                        assert(b[x] == a[p] && b[y] == a[q]);
                    }
                }
                assert forall|x: int| 0 <= x < b.len() implies 1 <= (#[trigger] b[x]).id
                    <= db.last_id && apps_ok(b[x].apps@) && ports_ok(b[x].ports@) by {
                    let p = if x < i {
                        x
                    } else {
                        x + 1
                    };
                    assert(b[x] == a[p]);
                    assert(1 <= a[p].id <= before.last_id);
                }
                lemma_row_at(b, self.id);
                assert forall|x: int| 0 <= x < b.len() implies (#[trigger] b[x]).id != self.id by {
                    let p = if x < i {
                        x
                    } else {
                        x + 1
                    };
                    assert(b[x] == a[p]);
                    assert(a[i as int].id == self.id);
                }
            }
        }
    }
}

//-- Labels -----------------------------------------------------------------------
impl DB {
    /// The label of each row.
    pub open spec fn labels(self) -> Seq<Option<Seq<char>>> {
        self.shares@.map_values(|row: ShareRow| row.hostname.deep_view())
    }

    fn copied_labels(&self) -> (r: Vec<Option<String>>)
        ensures
            r.deep_view() == self.labels(),
    {
        let mut out: Vec<Option<String>> = Vec::new();
        let mut i: usize = 0;
        while i < self.shares.len()
            invariant
                i <= self.shares@.len(),
                out@.len() == i,
                forall|j: int|
                    0 <= j < i ==> #[trigger] out.deep_view()[j]
                        == self.shares@[j].hostname.deep_view(),
            decreases self.shares@.len() - i,
        {
            let ghost before = out;
            out.push(text::copied_opt(&self.shares[i].hostname));
            assert forall|j: int| 0 <= j <= i implies #[trigger] out.deep_view()[j]
                == self.shares@[j].hostname.deep_view() by {
                if j < i {
                    assert(out.deep_view()[j] == before.deep_view()[j]);
                }
            }
            i = i + 1;
        }
        assert(out.deep_view() =~= self.labels());
        out
    }
}

impl Row {
    /// Claims `hostname` as this share's label, or `hostname-2`, `-3`, … if taken; falls back
    /// to the share id once a candidate is too long for a DNS label.
    pub fn write_deduped_hostname(&self, db: &mut DB, hostname: &str) -> (r: Result<
        String,
        StoreError,
    >)
        requires
            old(db).wf(),
        ensures
            final(db).wf(),
            match row_at(old(db).shares@, self.id) {
                None => r == Err::<String, StoreError>(StoreError::NoSuchRow) && *final(db)
                    == *old(db),
                Some(i) => claims_label(*old(db), *final(db), i, hostname@, r),
            },
    {
        let i: usize = match db.find(self.id) {
            Some(i) => i,
            None => {
                return Err(StoreError::NoSuchRow);
            },
        };
        let used = db.copied_labels();
        assert(used@.len() == used.deep_view().len());
        match labels::pick(&used, i, hostname, db.shares[i].share_id.0.as_str()) {
            None => Err(StoreError::LabelTaken),
            Some(label) => {
                let claimed = text::copied(label.as_str());
                db.set_label(i, label);
                Ok(claimed)
            },
        }
    }
}

/// Whether claiming a label for the `i`th row turns `before` into `after`, with that
/// outcome.
pub open spec fn claims_label(
    before: DB,
    after: DB,
    i: int,
    hostname: Seq<char>,
    outcome: Result<String, StoreError>,
) -> bool {
    let fallback = before.shares@[i].share_id.0@;
    match outcome {
        Ok(label) => {
            &&& labels::comes_to(before.labels(), i, hostname, fallback, Some(label@))
            &&& before.same_but(after, i)
            &&& after.shares@[i].hostname.deep_view() == Some(label@)
            &&& after.shares@[i] == (ShareRow {
                hostname: after.shares@[i].hostname,
                ..before.shares@[i]
            })
        },
        Err(e) => {
            &&& labels::comes_to(before.labels(), i, hostname, fallback, None)
            &&& e == StoreError::LabelTaken
            &&& after == before
        },
    }
}

impl DB {
    /// Gives the `i`th row a label that no other row has.
    fn set_label(&mut self, i: usize, label: String)
        requires
            old(self).wf(),
            i < old(self).shares@.len(),
            !labels::taken(old(self).labels(), i as int, label@),
        ensures
            final(self).wf(),
            old(self).same_but(*final(self), i as int),
            final(self).shares@[i as int] == (ShareRow {
                hostname: Some(label),
                ..old(self).shares@[i as int]
            }),
    {
        let ghost a = self.shares@;
        self.shares[i].hostname = Some(label);
        proof {
            let b = self.shares@;
            assert forall|x: int, y: int| 0 <= x < y < b.len() implies (#[trigger] b[x]).id < (
            #[trigger] b[y]).id && b[x].share_id.0@ != b[y].share_id.0@ by {
                assert(a[x].id < a[y].id);
                assert(a[x].share_id.0@ != a[y].share_id.0@);
            }
            assert forall|x: int, y: int|
                0 <= x < y < b.len() && (#[trigger] b[x]).hostname is Some implies !has_label(
                #[trigger] b[y],
                b[x].hostname->0@,
            ) by {
                if x == i {
                    assert(old(self).labels()[y] != Some(label@));
                } else if y == i {
                    assert(old(self).labels()[x] != Some(label@));
                } else {
                    assert(!has_label(a[y], a[x].hostname->0@));
                }
            }
            assert forall|x: int| 0 <= x < b.len() implies 1 <= (#[trigger] b[x]).id <= self.last_id
                && apps_ok(b[x].apps@) && ports_ok(b[x].ports@) by {
                assert(1 <= a[x].id <= old(self).last_id);
            }
        }
    }
}

/// A label finds its share, once the join succeeded, and no other share.
pub proof fn labels_find_their_share(db: DB, i: int, key: Seq<char>)
    requires
        db.wf(),
        0 <= i < db.shares@.len(),
        db.shares@[i].complete,
        has_label(db.shares@[i], key),
    ensures
        forall|j: int|
            0 <= j < db.shares@.len() && j != i ==> !has_label(#[trigger] db.shares@[j], key),
        exists|j: int|
            0 <= j < db.shares@.len() && DB::answers_to(#[trigger] db.shares@[j], key),
{
    assert forall|j: int| 0 <= j < db.shares@.len() && j != i implies !has_label(
        #[trigger] db.shares@[j],
        key,
    ) by {
        if j < i && has_label(db.shares@[j], key) {
            assert(!has_label(db.shares@[i], db.shares@[j].hostname->0@));
        }
    }
    assert(DB::answers_to(db.shares@[i], key));
}

proof fn lemma_ports_same(a: Seq<AppPort>, b: Seq<AppPort>, key: Seq<char>, i: int)
    requires
        0 <= i <= a.len(),
        a.len() == b.len(),
        forall|j: int| 0 <= j < a.len() ==> (#[trigger] a[j]).app_id == b[j].app_id,
    ensures
        port_index(a, key, i) == port_index(b, key, i),
    decreases a.len() - i,
{
    if i < a.len() {
        assert(a[i].app_id == b[i].app_id);
        lemma_ports_same(a, b, key, i + 1);
    }
}

proof fn lemma_ports_pushed(a: Seq<AppPort>, p: AppPort, key: Seq<char>, i: int)
    requires
        0 <= i <= a.len(),
    ensures
        port_index(a.push(p), key, i) == (match port_index(a, key, i) {
            Some(k) => Some(k),
            None => if p.app_id@ == key {
                Some(a.len() as int)
            } else {
                None
            },
        }),
    decreases a.len() - i,
{
    if i < a.len() {
        lemma_ports_pushed(a, p, key, i + 1);
    } else {
        assert(port_index(a.push(p), key, i + 1) is None);
    }
}

/// Whether a row that was `a` is `b` once `info` is stored in it.
pub open spec fn stores_info(a: ShareRow, b: ShareRow, info: ShareInfo) -> bool {
    &&& b.display_name.deep_view() == Some(info.name@)
    &&& b.config_hash.deep_view() == Some(info.config_hash.digits())
    &&& same_apps(info.apps@, b.apps@)
    &&& b == (ShareRow {
        display_name: b.display_name,
        config_hash: b.config_hash,
        apps: b.apps,
        ..a
    })
}

/// What the host said is what is read back: the hash it came with, its name, and its apps
/// in its order.
pub proof fn share_info_round_trips(a: ShareRow, b: ShareRow, info: ShareInfo, share: Share)
    requires
        stores_info(a, b, info),
        presents(b, share),
    ensures
        b.config_hash is Some && ConfigHash::written(b.config_hash->0@) == Some(info.config_hash),
        share.name@ == info.name@,
        same_apps(info.apps@, share.apps@),
        share.id.0@ == a.share_id.0@,
        share.label@ == text::text_or(a.hostname, ""@),
{
    crate::wire::config_hash_round_trips(info.config_hash);
    assert forall|i: int| 0 <= i < info.apps@.len() implies same_app(
        #[trigger] info.apps@[i],
        share.apps@[i],
    ) by {
        assert(same_app(b.apps@[i], share.apps@[i]));
    }
}

//-- What the store says ----------------------------------------------------------
/// A share is found by its label or its ID, wherever it stands, once its join succeeded; the
/// first of those that answer. Nothing else is found.
pub proof fn shares_are_found_by_label_or_id(db: DB, key: Seq<char>)
    ensures
        match db.index_for(key, 0) {
            Some(k) => {
                &&& 0 <= k < db.shares@.len()
                &&& db.shares@[k].complete
                &&& db.shares@[k].share_id.0@ == key || (db.shares@[k].hostname matches Some(h)
                    && h@ == key)
                &&& forall|j: int|
                    0 <= j < k && (#[trigger] db.shares@[j]).complete ==> db.shares@[j].share_id.0@
                        != key && !(db.shares@[j].hostname matches Some(h) && h@ == key)
            },
            None => forall|j: int|
                0 <= j < db.shares@.len() && (#[trigger] db.shares@[j]).complete
                    ==> db.shares@[j].share_id.0@ != key && !(db.shares@[j].hostname matches Some(h)
                    && h@ == key),
        },
{
    lemma_index_for(db, key, 0);
}

proof fn lemma_index_for(db: DB, key: Seq<char>, i: int)
    requires
        0 <= i,
    ensures
        match db.index_for(key, i) {
            Some(k) => {
                &&& i <= k < db.shares@.len()
                &&& DB::answers_to(db.shares@[k], key)
                &&& forall|j: int| i <= j < k ==> !DB::answers_to(#[trigger] db.shares@[j], key)
            },
            None => forall|j: int|
                i <= j < db.shares@.len() ==> !DB::answers_to(#[trigger] db.shares@[j], key),
        },
    decreases db.shares@.len() - i,
{
    if i < db.shares@.len() && !DB::answers_to(db.shares@[i], key) {
        lemma_index_for(db, key, i + 1);
    }
}

/// The joined shares are those whose join succeeded: all of them, in the order in which they
/// were joined. The others are what is swept away.
pub proof fn joined_shares_are_the_complete_ones(db: DB)
    ensures
        db.complete_ids(db.shares@.len() as int) == db.shares@.filter(
            |row: ShareRow| row.complete,
        ).map_values(|row: ShareRow| row.id),
        DB::complete_rows(db.shares@, db.shares@.len() as int) == db.shares@.filter(
            |row: ShareRow| row.complete,
        ),
{
    lemma_complete(db, db.shares@.len() as int);
    assert(db.shares@.take(db.shares@.len() as int) =~= db.shares@);
}

proof fn lemma_complete(db: DB, n: int)
    requires
        0 <= n <= db.shares@.len(),
    ensures
        db.complete_ids(n) == db.shares@.take(n).filter(|row: ShareRow| row.complete).map_values(
            |row: ShareRow| row.id,
        ),
        DB::complete_rows(db.shares@, n) == db.shares@.take(n).filter(
            |row: ShareRow| row.complete,
        ),
    decreases n,
{
    reveal(Seq::filter);
    let f = |row: ShareRow| row.complete;
    let g = |row: ShareRow| row.id;
    let rows = db.shares@;
    if n > 0 {
        lemma_complete(db, n - 1);
        let before = rows.take(n - 1).filter(f);
        assert(rows.take(n).drop_last() =~= rows.take(n - 1));
        assert(rows.take(n).last() == rows[n - 1]);
        if rows[n - 1].complete {
            assert(rows.take(n).filter(f) == before.push(rows[n - 1]));
            assert(before.push(rows[n - 1]).map_values(g) =~= before.map_values(g).push(
                rows[n - 1].id,
            ));
        }
    } else {
        assert(rows.take(0).filter(f) =~= Seq::<ShareRow>::empty());
        assert(Seq::<ShareRow>::empty().map_values(g) =~= Seq::<i64>::empty());
    }
}

/// A share is presented as its row has it: with its own ID, name, label, transport and apps,
/// since when it was joined, and dead where its host turned this device away.
pub proof fn shares_are_presented_as_stored(row: ShareRow, share: Share)
    requires
        presents(row, share),
    ensures
        share.id.0@ == row.share_id.0@,
        row.display_name matches Some(name) ==> share.name@ == name@,
        row.hostname matches Some(label) ==> share.label@ == label@,
        row.display_name is None ==> share.name@ == ""@,
        row.hostname is None ==> share.label@ == ""@,
        share.transport == row.transport,
        row.created_at >= 0 ==> share.joined_at == row.created_at,
        row.created_at < 0 ==> share.joined_at == 0,
        share.state == ShareState::Revoked <==> (row.terminal_state matches Some(s) && s@
            == "revoked"@),
        share.state == ShareState::Removed <==> (row.terminal_state matches Some(s) && s@
            == "removed"@),
        share.apps@.len() == row.apps@.len(),
        forall|i: int|
            0 <= i < row.apps@.len() ==> {
                &&& (#[trigger] share.apps@[i]).id@ == row.apps@[i].id@
                &&& share.apps@[i].name@ == row.apps@[i].name@
                &&& share.apps@[i].kind == row.apps@[i].kind
            },
{
    reveal_strlit("removed");
    reveal_strlit("revoked");
    assert("removed"@[2] == 'm' && "revoked"@[2] == 'v');
    assert forall|i: int| 0 <= i < row.apps@.len() implies {
        &&& (#[trigger] share.apps@[i]).id@ == row.apps@[i].id@
        &&& share.apps@[i].name@ == row.apps@[i].name@
        &&& share.apps@[i].kind == row.apps@[i].kind
    } by {
        assert(same_app(row.apps@[i], share.apps@[i]));
    }
}

/// Storing what a host says of its share replaces the name, the hash and all of the apps, each
/// with its ID, its name and its kind, in the host's order; and touches nothing else.
pub proof fn news_replace_name_hash_and_apps(a: ShareRow, b: ShareRow, info: ShareInfo)
    requires
        stores_info(a, b, info),
    ensures
        b.display_name matches Some(name) && name@ == info.name@,
        b.config_hash matches Some(hash) && hash@ == info.config_hash.digits(),
        b.apps@.len() == info.apps@.len(),
        forall|i: int|
            0 <= i < info.apps@.len() ==> {
                &&& (#[trigger] b.apps@[i]).id@ == info.apps@[i].id@
                &&& b.apps@[i].name@ == info.apps@[i].name@
                &&& b.apps@[i].kind == info.apps@[i].kind
            },
        b.id == a.id && b.share_id == a.share_id && b.hostname == a.hostname && b.transport
            == a.transport,
        b.wispers_connect_backend == a.wispers_connect_backend && b.iroh_endpoint_id
            == a.iroh_endpoint_id,
        b.created_at == a.created_at && b.complete == a.complete && b.terminal_state
            == a.terminal_state && b.ports == a.ports,
{
    assert forall|i: int| 0 <= i < info.apps@.len() implies {
        &&& (#[trigger] b.apps@[i]).id@ == info.apps@[i].id@
        &&& b.apps@[i].name@ == info.apps@[i].name@
        &&& b.apps@[i].kind == info.apps@[i].kind
    } by {
        assert(same_app(info.apps@[i], b.apps@[i]));
    }
}

/// A change of a share's row changes that row, whichever it is, and no other.
pub proof fn changes_touch_one_share(
    before: DB,
    after: DB,
    k: int,
    change: spec_fn(ShareRow, ShareRow) -> bool,
)
    requires
        before.wf(),
        0 <= k < before.shares@.len(),
        changes_row(before, after, before.shares@[k].id, change),
    ensures
        change(before.shares@[k], after.shares@[k]),
        after.shares@.len() == before.shares@.len(),
        after.last_id == before.last_id,
        forall|j: int|
            0 <= j < before.shares@.len() && j != k ==> #[trigger] after.shares@[j]
                == before.shares@[j],
{
    lemma_row_at(before.shares@, before.shares@[k].id);
    let i = row_at(before.shares@, before.shares@[k].id)->0;
    if i < k {
        assert(before.shares@[i].id < before.shares@[k].id);
    } else if k < i {
        assert(before.shares@[k].id < before.shares@[i].id);
    }
}

/// A share gets the label it asks for, or that label with the first number behind it that
/// makes it free, or its own ID where that gets too long: never another share's. Nothing but
/// its label changes.
pub proof fn claimed_labels_are_free(before: DB, after: DB, i: int, hostname: Seq<char>, label: String)
    requires
        0 <= i < before.shares@.len(),
        claims_label(before, after, i, hostname, Ok(label)),
    ensures
        label@ == hostname || label@ == before.shares@[i].share_id.0@ || exists|n: nat|
            n >= 2 && label@ == hostname + "-"@ + #[trigger] text::decimal(n),
        forall|j: int|
            0 <= j < before.shares@.len() && j != i ==> !((
            #[trigger] before.shares@[j]).hostname matches Some(h) && h@ == label@),
        after.shares@[i].hostname matches Some(h) && h@ == label@,
        forall|j: int|
            0 <= j < before.shares@.len() && j != i ==> #[trigger] after.shares@[j]
                == before.shares@[j],
        encode_utf8(hostname).len() <= 63 && (forall|j: int|
            0 <= j < before.shares@.len() && j != i ==> !((
            #[trigger] before.shares@[j]).hostname matches Some(h) && h@ == hostname)) ==> label@
            == hostname,
        label@ != before.shares@[i].share_id.0@ ==> encode_utf8(label@).len() <= 63,
{
    let all = before.labels();
    let fallback = before.shares@[i].share_id.0@;
    let n = choose|n: nat| #[trigger]
        labels::ends_at(all, i, hostname, fallback, Some(label@), n);
    if !labels::too_long(labels::candidate(hostname, n)) && n >= 2 {
        assert(label@ == hostname + "-"@ + text::decimal(n));
    }
    assert forall|j: int| 0 <= j < before.shares@.len() && j != i implies !((
    #[trigger] before.shares@[j]).hostname matches Some(h) && h@ == label@) by {
        assert(all[j] == before.shares@[j].hostname.deep_view());
    }
    if !labels::too_long(hostname) && (forall|j: int|
        0 <= j < before.shares@.len() && j != i ==> !((
        #[trigger] before.shares@[j]).hostname matches Some(h) && h@ == hostname)) {
        if n >= 2 {
            assert(labels::taken(all, i, labels::candidate(hostname, 1)));
            let j = choose|j: int|
                0 <= j < all.len() && j != i && #[trigger] all[j] == Some(
                    labels::candidate(hostname, 1),
                );
            assert(all[j] == before.shares@[j].hostname.deep_view());
        }
    }
}

/// An app's port is found under its ID, wherever it stands.
pub proof fn ports_are_found_under_their_app(ports: Seq<AppPort>, app_id: Seq<char>)
    requires
        ports_ok(ports),
    ensures
        forall|k: int|
            0 <= k < ports.len() && (#[trigger] ports[k]).app_id@ == app_id ==> port_of(
                ports,
                app_id,
            ) == Some(ports[k].port),
        (forall|k: int| 0 <= k < ports.len() ==> (#[trigger] ports[k]).app_id@ != app_id)
            ==> port_of(ports, app_id) is None,
{
    lemma_port_index(ports, app_id, 0);
    assert forall|k: int|
        0 <= k < ports.len() && (#[trigger] ports[k]).app_id@ == app_id implies port_of(
        ports,
        app_id,
    ) == Some(ports[k].port) by {
        let i = port_index(ports, app_id, 0)->0;
        if i < k {
            assert(ports[i].app_id@ != ports[k].app_id@);
        } else if k < i {
            assert(ports[k].app_id@ != ports[i].app_id@);
        }
    }
}

/// A new row knows nothing yet but its ID, its share's ID and when it was made; and no share's
/// ID is given out twice.
pub proof fn new_rows_know_nothing_yet(
    db: DB,
    row: ShareRow,
    id: i64,
    share_id: ShareId,
    now_millis: i64,
)
    ensures
        is_fresh(row, id, share_id, now_millis) ==> {
            &&& row.id == id && row.share_id.0@ == share_id.0@ && row.created_at == now_millis
            &&& !row.complete
            &&& row.hostname is None && row.display_name is None && row.config_hash is None
            &&& row.terminal_state is None && row.apps@.len() == 0 && row.ports@.len() == 0
            &&& row.wispers_connect_backend is None && row.iroh_endpoint_id is None
        },
        db.share_id_taken(share_id.0@) <==> exists|j: int|
            0 <= j < db.shares@.len() && (#[trigger] db.shares@[j]).share_id.0@ == share_id.0@,
{
}

} // verus!
