//! The store of a client that keeps its circles' keys with them: a row per joined circle,
//! with the node's identity and what the host said the circle is.
use crate::bytes;
use crate::guest::labels;
use crate::guest::store::{apps_ok, copied_apps, distinct_apps, or_empty, same_app, same_apps};
use crate::server::storage::NodeState;
use crate::text;
use crate::wire::{CircleInfo, ConfigHash, Share};
use vstd::prelude::*;

verus! {

/// One circle's row.
pub struct CircleRow {
    pub id: i64,
    pub connectivity_group_id: Option<String>,
    pub display_name: Option<String>,
    /// The circle's label in host names.
    pub hostname: Option<String>,
    /// The base URL of the circle's own backend, if it has one.
    pub backend: Option<String>,
    pub config_hash: Option<String>,
    /// When the row was made, in milliseconds since the epoch.
    pub created_at: i64,
    pub root_key: Option<Vec<u8>>,
    /// The registration as the bytes that the transport serialises it to.
    pub registration: Option<Vec<u8>>,
    /// Whether the join that made the row succeeded.
    pub complete: bool,
    pub terminal_state: Option<String>,
    /// The shares as last fetched, in the host's order.
    pub shares: Vec<Share>,
}

/// What the store holds, the rows by ascending ID. An ID is never given out twice.
pub struct DB {
    pub circles: Vec<CircleRow>,
    /// The largest ID that was ever given out.
    pub last_id: i64,
}

/// A handle to one joined circle.
#[derive(Clone, Copy, Debug, PartialEq, Eq, Structural)]
pub struct Row {
    pub id: i64,
}

/// Why the store refuses a change.
#[derive(Clone, Copy, Debug, PartialEq, Eq, Structural)]
pub enum StoreError {
    /// There is no such circle.
    NoSuchRow,
    /// There are no IDs left.
    Full,
    /// Another circle has that label.
    LabelTaken,
    /// Two shares have the same ID.
    DuplicateShare,
    /// The stored root key has the wrong length.
    InvalidRootKey,
}

//-- The store's invariant --------------------------------------------------------
/// Where the row of that ID stands.
pub open spec fn row_at(circles: Seq<CircleRow>, id: i64) -> Option<int>
    decreases circles.len(),
{
    if circles.len() == 0 {
        None
    } else if circles.last().id == id {
        Some(circles.len() - 1)
    } else {
        row_at(circles.drop_last(), id)
    }
}

proof fn lemma_row_at(circles: Seq<CircleRow>, id: i64)
    ensures
        match row_at(circles, id) {
            Some(i) => 0 <= i < circles.len() && circles[i].id == id && (forall|j: int|
                i < j < circles.len() ==> (#[trigger] circles[j]).id != id),
            None => forall|j: int| 0 <= j < circles.len() ==> (#[trigger] circles[j]).id != id,
        },
    decreases circles.len(),
{
    if circles.len() > 0 && circles.last().id != id {
        lemma_row_at(circles.drop_last(), id);
        assert(forall|j: int|
            0 <= j < circles.len() - 1 ==> #[trigger] circles[j] == circles.drop_last()[j]);
    }
}

/// Whether a row's label is `label`.
pub open spec fn has_label(row: CircleRow, label: Seq<char>) -> bool {
    row.hostname is Some && row.hostname->0@ == label
}

/// Whether a row may stand before another: its ID is lower, and its label is its own.
pub open spec fn apart(a: CircleRow, b: CircleRow) -> bool {
    &&& a.id < b.id
    &&& a.hostname is Some ==> !has_label(b, a.hostname->0@)
}

/// What holds of a row by itself, in a store whose last ID is `last_id`.
pub open spec fn row_ok(row: CircleRow, last_id: i64) -> bool {
    1 <= row.id <= last_id && apps_ok(row.shares@)
}

/// Whether a text is what is stored of a circle's config hash.
pub open spec fn stored_hash(stored: Option<String>) -> Option<ConfigHash> {
    match stored {
        Some(h) => ConfigHash::written(h@),
        None => None,
    }
}

impl DB {
    /// What holds of every store.
    pub open spec fn wf(self) -> bool {
        &&& self.last_id >= 0
        &&& forall|i: int, j: int|
            0 <= i < j < self.circles@.len() ==> apart(
                #[trigger] self.circles@[i],
                #[trigger] self.circles@[j],
            )
        &&& forall|i: int|
            0 <= i < self.circles@.len() ==> row_ok(#[trigger] self.circles@[i], self.last_id)
    }

    /// Whether `after` is this store with at most the `i`th row changed.
    pub open spec fn same_but(self, after: DB, i: int) -> bool {
        &&& after.last_id == self.last_id
        &&& after.circles@.len() == self.circles@.len()
        &&& forall|j: int|
            0 <= j < self.circles@.len() && j != i ==> #[trigger] after.circles@[j]
                == self.circles@[j]
    }

    /// A change of a row that leaves its ID and its label alone keeps the invariant.
    proof fn lemma_same_but(self, after: DB, i: int)
        requires
            self.wf(),
            self.same_but(after, i),
            0 <= i < self.circles@.len(),
            after.circles@[i].id == self.circles@[i].id,
            after.circles@[i].hostname == self.circles@[i].hostname,
            apps_ok(after.circles@[i].shares@),
        ensures
            after.wf(),
    {
        let a = self.circles@;
        let b = after.circles@;
        assert forall|x: int, y: int| 0 <= x < y < b.len() implies apart(
            #[trigger] b[x],
            #[trigger] b[y],
        ) by {
            assert(apart(a[x], a[y]));
        }
        assert forall|x: int| 0 <= x < b.len() implies row_ok(#[trigger] b[x], after.last_id) by {
            assert(row_ok(a[x], self.last_id));
        }
    }

    fn find(&self, id: i64) -> (r: Option<usize>)
        ensures
            match r {
                Some(i) => i < self.circles@.len() && row_at(self.circles@, id) == Some(i as int)
                    && self.circles@[i as int].id == id,
                None => row_at(self.circles@, id) is None,
            },
    {
        let mut i: usize = self.circles.len();
        assert(self.circles@.take(i as int) =~= self.circles@);
        while i > 0
            invariant
                i <= self.circles@.len(),
                row_at(self.circles@, id) == row_at(self.circles@.take(i as int), id),
            decreases i,
        {
            assert(self.circles@.take(i as int).drop_last() =~= self.circles@.take(i - 1));
            i = i - 1;
            if self.circles[i].id == id {
                return Some(i);
            }
        }
        None
    }

    /// An empty store.
    pub fn in_memory() -> (r: DB)
        ensures
            r.wf(),
            r.circles@.len() == 0,
            r.last_id == 0,
    {
        DB { circles: Vec::new(), last_id: 0 }
    }

    /// A row for a circle that is being joined, which is incomplete until the join succeeds.
    pub fn new_row(&mut self, now_millis: i64) -> (r: Result<Row, StoreError>)
        requires
            old(self).wf(),
        ensures
            final(self).wf(),
            if old(self).last_id == i64::MAX {
                r == Err::<Row, StoreError>(StoreError::Full) && *final(self) == *old(self)
            } else {
                &&& r == Ok::<Row, StoreError>(Row { id: final(self).last_id })
                &&& final(self).last_id == old(self).last_id + 1
                &&& final(self).circles@.len() == old(self).circles@.len() + 1
                &&& final(self).circles@.drop_last() == old(self).circles@
                &&& is_fresh(final(self).circles@.last(), final(self).last_id, now_millis)
            },
    {
        if self.last_id == i64::MAX {
            return Err(StoreError::Full);
        }
        let ghost before = self.circles@;
        let id: i64 = self.last_id + 1;
        self.last_id = id;
        self.circles.push(
            CircleRow {
                id,
                connectivity_group_id: None,
                display_name: None,
                hostname: None,
                backend: None,
                config_hash: None,
                created_at: now_millis,
                root_key: None,
                registration: None,
                complete: false,
                terminal_state: None,
                shares: Vec::new(),
            },
        );
        proof {
            let after = self.circles@;
            assert(after.drop_last() =~= before);
            assert forall|x: int, y: int| 0 <= x < y < after.len() implies apart(
                #[trigger] after[x],
                #[trigger] after[y],
            ) by {
                assert(after[x] == before[x]);
                assert(row_ok(before[x], old(self).last_id));
                if y < before.len() {
                    assert(after[y] == before[y]);
                }
            }
            assert forall|x: int| 0 <= x < after.len() implies row_ok(
                #[trigger] after[x],
                self.last_id,
            ) by {
                if x < before.len() {
                    assert(after[x] == before[x]);
                    assert(row_ok(before[x], old(self).last_id));
                }
            }
        }
        Ok(Row { id })
    }

    /// Whether that complete row is the one for a label or a connectivity group.
    pub open spec fn answers_to(row: CircleRow, key: Seq<char>) -> bool {
        row.complete && (has_label(row, key) || (row.connectivity_group_id is Some
            && row.connectivity_group_id->0@ == key))
    }

    /// Looks a circle up by its hostname label (or connectivity group id): the first that
    /// was joined. A circle whose join has not succeeded is not found.
    pub fn find_row(&self, key: &str) -> (r: Option<Row>)
        ensures
            match r {
                Some(row) => exists|i: int|
                    {
                        &&& 0 <= i < self.circles@.len()
                        &&& row.id == (#[trigger] self.circles@[i]).id
                        &&& DB::answers_to(self.circles@[i], key@)
                        &&& forall|j: int|
                            0 <= j < i ==> !DB::answers_to(#[trigger] self.circles@[j], key@)
                    },
                None => forall|j: int|
                    0 <= j < self.circles@.len() ==> !DB::answers_to(
                        #[trigger] self.circles@[j],
                        key@,
                    ),
            },
    {
        let mut i: usize = 0;
        while i < self.circles.len()
            invariant
                i <= self.circles@.len(),
                forall|j: int| 0 <= j < i ==> !DB::answers_to(#[trigger] self.circles@[j], key@),
            decreases self.circles@.len() - i,
        {
            let row = &self.circles[i];
            let labelled = match &row.hostname {
                Some(h) => text::same_text(h.as_str(), key),
                None => false,
            };
            let grouped = match &row.connectivity_group_id {
                Some(g) => text::same_text(g.as_str(), key),
                None => false,
            };
            if row.complete && (labelled || grouped) {
                assert(DB::answers_to(self.circles@[i as int], key@));
                return Some(Row { id: row.id });
            }
            i = i + 1;
        }
        None
    }

    /// The IDs of the complete ones of the first `n` rows.
    pub open spec fn complete_ids(self, n: int) -> Seq<i64>
        decreases n,
    {
        if n <= 0 {
            Seq::empty()
        } else if self.circles@[n - 1].complete {
            self.complete_ids(n - 1).push(self.circles@[n - 1].id)
        } else {
            self.complete_ids(n - 1)
        }
    }

    /// Every joined circle.
    pub fn get_all_rows(&self) -> (r: Vec<Row>)
        ensures
            r@.map_values(|row: Row| row.id) == self.complete_ids(self.circles@.len() as int),
    {
        let mut out: Vec<Row> = Vec::new();
        let mut i: usize = 0;
        let ghost ids = |row: Row| row.id;
        assert(out@.map_values(ids) =~= self.complete_ids(0));
        while i < self.circles.len()
            invariant
                i <= self.circles@.len(),
                ids == (|row: Row| row.id),
                out@.map_values(ids) == self.complete_ids(i as int),
            decreases self.circles@.len() - i,
        {
            if self.circles[i].complete {
                let ghost before = out@;
                out.push(Row { id: self.circles[i].id });
                assert(out@.map_values(ids) =~= before.map_values(ids).push(
                    self.circles@[i as int].id,
                ));
            }
            i = i + 1;
        }
        out
    }

    /// Sweeps the rows that a failed `join` left behind: those that were never completed.
    pub fn clean_up_incomplete_rows(&mut self)
        requires
            old(self).wf(),
        ensures
            final(self).wf(),
            final(self).last_id == old(self).last_id,
            final(self).circles@ == old(self).circles@.filter(|row: CircleRow| row.complete),
    {
        let ghost keep = |row: CircleRow| row.complete;
        let ghost all = self.circles@;
        let mut i: usize = 0;
        assert(all.skip(0) =~= all);
        assert(Seq::<CircleRow>::empty() + all.filter(keep) =~= all.filter(keep));
        assert(self.circles@.take(0) =~= Seq::<CircleRow>::empty());
        while i < self.circles.len()
            invariant
                i <= self.circles@.len(),
                keep == (|row: CircleRow| row.complete),
                self.wf(),
                self.last_id == old(self).last_id,
                self.circles@.take(i as int) + self.circles@.skip(i as int).filter(keep)
                    == all.filter(keep),
            decreases self.circles@.len() - i,
        {
            let ghost now = self.circles@;
            let ghost rest = now.skip(i as int);
            assert(rest =~= seq![now[i as int]] + now.skip(i + 1));
            proof {
                lemma_filter_first(now[i as int], now.skip(i + 1));
            }
            if self.circles[i].complete {
                assert(now.take(i + 1) =~= now.take(i as int).push(now[i as int]));
                assert(now.take(i + 1) + now.skip(i + 1).filter(keep) =~= now.take(i as int)
                    + rest.filter(keep));
                i = i + 1;
            } else {
                self.remove(i);
                assert(self.circles@.take(i as int) =~= now.take(i as int));
                assert(self.circles@.skip(i as int) =~= now.skip(i + 1));
            }
        }
        assert(self.circles@.skip(i as int) =~= Seq::<CircleRow>::empty());
        assert(Seq::<CircleRow>::empty().filter(keep) =~= Seq::<CircleRow>::empty()) by {
            reveal(Seq::filter);
        }
        assert(self.circles@.take(i as int) + Seq::<CircleRow>::empty() =~= self.circles@);
    }

    /// Takes the `i`th row out.
    fn remove(&mut self, i: usize)
        requires
            old(self).wf(),
            i < old(self).circles@.len(),
        ensures
            final(self).wf(),
            final(self).last_id == old(self).last_id,
            final(self).circles@ == old(self).circles@.remove(i as int),
    {
        let ghost a = self.circles@;
        let _gone = self.circles.remove(i);
        proof {
            let b = self.circles@;
            assert forall|x: int, y: int| 0 <= x < y < b.len() implies apart(
                #[trigger] b[x],
                #[trigger] b[y],
            ) by {
                let p = if x < i {
                    x
                } else {
                    x + 1
                };
                let q = if y < i {
                    y
                } else {
                    y + 1
                };
                assert(apart(a[p], a[q]));
            }
            assert forall|x: int| 0 <= x < b.len() implies row_ok(#[trigger] b[x], self.last_id) by {
                let p = if x < i {
                    x
                } else {
                    x + 1
                };
                assert(row_ok(a[p], self.last_id));
            }
        }
    }

    /// The store with these rows. `None` where no store has them: two rows share a label, or
    /// a row has an ID that was not given out.
    pub fn from_rows(circles: Vec<CircleRow>, last_id: i64) -> (r: Option<DB>)
        ensures
            match r {
                Some(db) => db.wf() && db == (DB { circles, last_id }),
                None => !(DB { circles, last_id }).wf(),
            },
    {
        let ghost db = DB { circles, last_id };
        if last_id < 0 {
            return None;
        }
        let mut j: usize = 0;
        while j < circles.len()
            invariant
                j <= circles@.len(),
                last_id >= 0,
                db == (DB { circles, last_id }),
                forall|a: int, b: int|
                    0 <= a < b < j ==> apart(#[trigger] circles@[a], #[trigger] circles@[b]),
                forall|a: int| 0 <= a < j ==> row_ok(#[trigger] circles@[a], last_id),
            decreases circles@.len() - j,
        {
            let row = &circles[j];
            if row.id < 1 || row.id > last_id || !distinct_apps(&row.shares) {
                assert(!row_ok(db.circles@[j as int], last_id));
                return None;
            }
            let mut i: usize = 0;
            while i < j
                invariant
                    i <= j < circles@.len(),
                    db == (DB { circles, last_id }),
                    forall|a: int| 0 <= a < i ==> apart(#[trigger] circles@[a], circles@[j as int]),
                decreases j - i,
            {
                let same_label = match (&circles[i].hostname, &circles[j].hostname) {
                    (Some(x), Some(y)) => text::same_text(x.as_str(), y.as_str()),
                    _ => false,
                };
                if same_label || circles[i].id >= circles[j].id {
                    assert(!apart(db.circles@[i as int], db.circles@[j as int]));
                    return None;
                }
                i = i + 1;
            }
            j = j + 1;
        }
        Some(DB { circles, last_id })
    }

    /// The label of each row.
    pub open spec fn labels(self) -> Seq<Option<Seq<char>>> {
        self.circles@.map_values(|row: CircleRow| row.hostname.deep_view())
    }

    fn copied_labels(&self) -> (r: Vec<Option<String>>)
        ensures
            r.deep_view() == self.labels(),
    {
        let mut out: Vec<Option<String>> = Vec::new();
        let mut i: usize = 0;
        while i < self.circles.len()
            invariant
                i <= self.circles@.len(),
                out@.len() == i,
                forall|j: int|
                    0 <= j < i ==> #[trigger] out.deep_view()[j]
                        == self.circles@[j].hostname.deep_view(),
            decreases self.circles@.len() - i,
        {
            let ghost before = out;
            out.push(text::copied_opt(&self.circles[i].hostname));
            assert forall|j: int| 0 <= j <= i implies #[trigger] out.deep_view()[j]
                == self.circles@[j].hostname.deep_view() by {
                if j < i {
                    assert(out.deep_view()[j] == before.deep_view()[j]);
                }
            }
            i = i + 1;
        }
        assert(out.deep_view() =~= self.labels());
        out
    }

    /// Gives the `i`th row a label that no other row has.
    fn set_label(&mut self, i: usize, label: String)
        requires
            old(self).wf(),
            i < old(self).circles@.len(),
            !labels::taken(old(self).labels(), i as int, label@),
        ensures
            final(self).wf(),
            old(self).same_but(*final(self), i as int),
            final(self).circles@[i as int] == (CircleRow {
                hostname: Some(label),
                ..old(self).circles@[i as int]
            }),
    {
        let ghost a = self.circles@;
        self.circles[i].hostname = Some(label);
        proof {
            let b = self.circles@;
            assert forall|x: int, y: int| 0 <= x < y < b.len() implies apart(
                #[trigger] b[x],
                #[trigger] b[y],
            ) by {
                assert(apart(a[x], a[y]));
                if x == i {
                    assert(old(self).labels()[y] != Some(label@));
                } else if y == i {
                    assert(old(self).labels()[x] != Some(label@));
                }
            }
            assert forall|x: int| 0 <= x < b.len() implies row_ok(#[trigger] b[x], self.last_id) by {
                assert(row_ok(a[x], self.last_id));
            }
        }
    }
}

proof fn lemma_filter_first(first: CircleRow, rest: Seq<CircleRow>)
    ensures
        ({
            let keep = |row: CircleRow| row.complete;
            (seq![first] + rest).filter(keep) == if first.complete {
                seq![first] + rest.filter(keep)
            } else {
                rest.filter(keep)
            }
        }),
    decreases rest.len(),
{
    let keep = |row: CircleRow| row.complete;
    reveal(Seq::filter);
    if rest.len() == 0 {
        assert(seq![first] + rest =~= seq![first]);
        assert(seq![first].drop_last() =~= Seq::<CircleRow>::empty());
        assert(Seq::<CircleRow>::empty().filter(keep) =~= Seq::<CircleRow>::empty());
    } else {
        lemma_filter_first(first, rest.drop_last());
        assert((seq![first] + rest).drop_last() =~= seq![first] + rest.drop_last());
    }
    assert((seq![first] + rest).filter(keep) =~= if first.complete {
        seq![first] + rest.filter(keep)
    } else {
        rest.filter(keep)
    });
}

/// Whether a row is one that was just made.
pub open spec fn is_fresh(row: CircleRow, id: i64, now_millis: i64) -> bool {
    &&& row.id == id
    &&& row.connectivity_group_id is None
    &&& row.display_name is None
    &&& row.hostname is None
    &&& row.backend is None
    &&& row.config_hash is None
    &&& row.created_at == now_millis
    &&& row.root_key is None
    &&& row.registration is None
    &&& !row.complete
    &&& row.terminal_state is None
    &&& row.shares@.len() == 0
}

/// Whether a change of one row turns `before` into `after`: that row, where there is one,
/// becomes what `change` says of it, and nothing else changes.
pub open spec fn changes_row(
    before: DB,
    after: DB,
    id: i64,
    change: spec_fn(CircleRow, CircleRow) -> bool,
) -> bool {
    match row_at(before.circles@, id) {
        Some(i) => before.same_but(after, i) && change(before.circles@[i], after.circles@[i]),
        None => after == before,
    }
}

/// Whether a row that was `a` is `b` once `info` is stored in it.
pub open spec fn stores_info(a: CircleRow, b: CircleRow, info: CircleInfo) -> bool {
    &&& b.display_name.deep_view() == Some(info.name@)
    &&& b.config_hash.deep_view() == Some(info.config_hash.digits())
    &&& same_apps(info.shares@, b.shares@)
    &&& b == (CircleRow {
        display_name: b.display_name,
        config_hash: b.config_hash,
        shares: b.shares,
        ..a
    })
}

/// Whether claiming a label for the `i`th row turns `before` into `after`, with that
/// outcome.
pub open spec fn claims_label(
    before: DB,
    after: DB,
    i: int,
    hostname: Seq<char>,
    fallback: Seq<char>,
    outcome: Result<String, StoreError>,
) -> bool {
    match outcome {
        Ok(label) => {
            &&& labels::comes_to(before.labels(), i, hostname, fallback, Some(label@))
            &&& before.same_but(after, i)
            &&& after.circles@[i].hostname.deep_view() == Some(label@)
            &&& after.circles@[i] == (CircleRow {
                hostname: after.circles@[i].hostname,
                ..before.circles@[i]
            })
        },
        Err(e) => {
            &&& labels::comes_to(before.labels(), i, hostname, fallback, None)
            &&& e == StoreError::LabelTaken
            &&& after == before
        },
    }
}

//-- One circle -------------------------------------------------------------------
impl Row {
    /// The row itself, where it is still there.
    pub open spec fn of(self, db: DB) -> Option<CircleRow> {
        match row_at(db.circles@, self.id) {
            Some(i) => Some(db.circles@[i]),
            None => None,
        }
    }

    pub fn write_connectivity_group_id(&self, db: &mut DB, cg_id: &str)
        requires
            old(db).wf(),
        ensures
            final(db).wf(),
            changes_row(
                *old(db),
                *final(db),
                self.id,
                |a: CircleRow, b: CircleRow|
                    b.connectivity_group_id.deep_view() == Some(cg_id@) && b == (CircleRow {
                        connectivity_group_id: b.connectivity_group_id,
                        ..a
                    }),
            ),
    {
        let ghost before = *db;
        if let Some(i) = db.find(self.id) {
            assert(row_ok(before.circles@[i as int], before.last_id));
            db.circles[i].connectivity_group_id = Some(text::copied(cg_id));
            proof {
                before.lemma_same_but(*db, i as int);
            }
        }
    }

    pub fn write_display_name(&self, db: &mut DB, name: &str)
        requires
            old(db).wf(),
        ensures
            final(db).wf(),
            changes_row(
                *old(db),
                *final(db),
                self.id,
                |a: CircleRow, b: CircleRow|
                    b.display_name.deep_view() == Some(name@) && b == (CircleRow {
                        display_name: b.display_name,
                        ..a
                    }),
            ),
    {
        let ghost before = *db;
        if let Some(i) = db.find(self.id) {
            assert(row_ok(before.circles@[i as int], before.last_id));
            db.circles[i].display_name = Some(text::copied(name));
            proof {
                before.lemma_same_but(*db, i as int);
            }
        }
    }

    /// Claims `hostname` as this circle's label, or `hostname-2`, `-3`, … if taken; falls
    /// back to the connectivity group id once a candidate is too long for a DNS label. A
    /// circle that is no longer there has nothing to write to: it is told the name that
    /// nobody would dispute.
    pub fn write_deduped_hostname(&self, db: &mut DB, hostname: &str, cg_id: &str) -> (r: Result<
        String,
        StoreError,
    >)
        requires
            old(db).wf(),
        ensures
            final(db).wf(),
            match row_at(old(db).circles@, self.id) {
                None => *final(db) == *old(db) && (r matches Ok(label) && label@ == (
                if labels::too_long(hostname@) {
                    cg_id@
                } else {
                    hostname@
                })),
                Some(i) => claims_label(*old(db), *final(db), i, hostname@, cg_id@, r),
            },
    {
        let i: usize = match db.find(self.id) {
            Some(i) => i,
            None => {
                let label = if hostname.as_bytes().len() > 63 {
                    cg_id
                } else {
                    hostname
                };
                return Ok(text::copied(label));
            },
        };
        let used = db.copied_labels();
        assert(used@.len() == used.deep_view().len());
        match labels::pick(&used, i, hostname, cg_id) {
            None => Err(StoreError::LabelTaken),
            Some(label) => {
                let claimed = text::copied(label.as_str());
                db.set_label(i, label);
                Ok(claimed)
            },
        }
    }

    /// (connectivity group id, display name, hostname label)
    pub fn read_names(&self, db: &DB) -> (r: Option<(String, String, String)>)
        ensures
            match self.of(*db) {
                Some(row) => r matches Some((id, name, label)) && id@ == text::text_or(
                    row.connectivity_group_id,
                    ""@,
                ) && name@ == text::text_or(row.display_name, ""@) && label@ == text::text_or(
                    row.hostname,
                    ""@,
                ),
                None => r is None,
            },
    {
        match db.find(self.id) {
            Some(i) => {
                let row = &db.circles[i];
                Some(
                    (
                        or_empty(&row.connectivity_group_id),
                        or_empty(&row.display_name),
                        or_empty(&row.hostname),
                    ),
                )
            },
            None => None,
        }
    }

    /// Persist the circle's custom backend base URL, if any.
    pub fn write_backend(&self, db: &mut DB, backend: Option<String>)
        requires
            old(db).wf(),
        ensures
            final(db).wf(),
            changes_row(
                *old(db),
                *final(db),
                self.id,
                |a: CircleRow, b: CircleRow| b == (CircleRow { backend, ..a }),
            ),
    {
        let ghost before = *db;
        if let Some(i) = db.find(self.id) {
            assert(row_ok(before.circles@[i as int], before.last_id));
            db.circles[i].backend = backend;
            proof {
                before.lemma_same_but(*db, i as int);
            }
        }
    }

    pub fn read_backend(&self, db: &DB) -> (r: Option<Option<String>>)
        ensures
            match self.of(*db) {
                Some(row) => r matches Some(b) && b.deep_view() == row.backend.deep_view(),
                None => r is None,
            },
    {
        match db.find(self.id) {
            Some(i) => Some(text::copied_opt(&db.circles[i].backend)),
            None => None,
        }
    }

    /// Stores what the host says the circle is: its name, its config's hash and its shares,
    /// in place of what was stored before, the order of the shares included.
    pub fn write_circle_info(&self, db: &mut DB, info: &CircleInfo) -> (r: Result<(), StoreError>)
        requires
            old(db).wf(),
        ensures
            final(db).wf(),
            match row_at(old(db).circles@, self.id) {
                Some(i) => if apps_ok(info.shares@) {
                    &&& r is Ok
                    &&& old(db).same_but(*final(db), i)
                    &&& stores_info(old(db).circles@[i], final(db).circles@[i], *info)
                } else {
                    r == Err::<(), StoreError>(StoreError::DuplicateShare) && *final(db) == *old(db)
                },
                None => *final(db) == *old(db) && r == (if info.shares@.len() == 0 {
                    Ok::<(), StoreError>(())
                } else {
                    Err::<(), StoreError>(StoreError::NoSuchRow)
                }),
            },
    {
        let ghost before = *db;
        match db.find(self.id) {
            None => {
                if info.shares.len() == 0 {
                    Ok(())
                } else {
                    Err(StoreError::NoSuchRow)
                }
            },
            Some(i) => {
                if !distinct_apps(&info.shares) {
                    return Err(StoreError::DuplicateShare);
                }
                let shares = copied_apps(&info.shares);
                proof {
                    assert forall|a: int, b: int| 0 <= a < b < shares@.len() implies (
                    #[trigger] shares@[a]).id@ != (#[trigger] shares@[b]).id@ by {
                        assert(same_app(info.shares@[a], shares@[a]));
                        assert(same_app(info.shares@[b], shares@[b]));
                    }
                }
                db.circles[i].display_name = Some(text::copied(info.name.as_str()));
                db.circles[i].config_hash = Some(info.config_hash.to_hex());
                db.circles[i].shares = shares;
                proof {
                    before.lemma_same_but(*db, i as int);
                }
                Ok(())
            },
        }
    }

    /// The config hash the stored share list came with, for a conditional refetch. `None`
    /// before the first fetch.
    pub fn read_circle_config_hash(&self, db: &DB) -> (r: Option<Option<ConfigHash>>)
        ensures
            r == (match self.of(*db) {
                Some(row) => Some(stored_hash(row.config_hash)),
                None => None,
            }),
    {
        match db.find(self.id) {
            Some(i) => match &db.circles[i].config_hash {
                Some(h) => Some(ConfigHash::from_hex(h.as_str())),
                None => Some(None),
            },
            None => None,
        }
    }

    /// The shares as last fetched, in the host's order.
    pub fn read_shares(&self, db: &DB) -> (r: Vec<Share>)
        ensures
            match self.of(*db) {
                Some(row) => same_apps(row.shares@, r@),
                None => r@.len() == 0,
            },
    {
        match db.find(self.id) {
            Some(i) => copied_apps(&db.circles[i].shares),
            None => Vec::new(),
        }
    }

    /// The join succeeded: the circle is there to stay.
    pub fn mark_complete(&self, db: &mut DB)
        requires
            old(db).wf(),
        ensures
            final(db).wf(),
            changes_row(
                *old(db),
                *final(db),
                self.id,
                |a: CircleRow, b: CircleRow| b == (CircleRow { complete: true, ..a }),
            ),
    {
        let ghost before = *db;
        if let Some(i) = db.find(self.id) {
            assert(row_ok(before.circles@[i as int], before.last_id));
            db.circles[i].complete = true;
            proof {
                before.lemma_same_but(*db, i as int);
            }
        }
    }

    /// Records that the hub definitively rejected this circle's node. One-way: a terminal
    /// circle is never dialed again, only removed.
    pub fn write_terminal_state(&self, db: &mut DB, state: &str)
        requires
            old(db).wf(),
        ensures
            final(db).wf(),
            changes_row(
                *old(db),
                *final(db),
                self.id,
                |a: CircleRow, b: CircleRow|
                    b.terminal_state.deep_view() == Some(state@) && b == (CircleRow {
                        terminal_state: b.terminal_state,
                        ..a
                    }),
            ),
    {
        let ghost before = *db;
        if let Some(i) = db.find(self.id) {
            assert(row_ok(before.circles@[i as int], before.last_id));
            db.circles[i].terminal_state = Some(text::copied(state));
            proof {
                before.lemma_same_but(*db, i as int);
            }
        }
    }

    pub fn read_terminal_state(&self, db: &DB) -> (r: Option<Option<String>>)
        ensures
            match self.of(*db) {
                Some(row) => r matches Some(s) && s.deep_view() == row.terminal_state.deep_view(),
                None => r is None,
            },
    {
        match db.find(self.id) {
            Some(i) => Some(text::copied_opt(&db.circles[i].terminal_state)),
            None => None,
        }
    }

    /// Deletes the circle and its shares outright, unlike [`Row::delete`], which only clears
    /// the node state.
    pub fn delete_row(&self, db: &mut DB)
        requires
            old(db).wf(),
        ensures
            final(db).wf(),
            final(db).last_id == old(db).last_id,
            match row_at(old(db).circles@, self.id) {
                Some(i) => final(db).circles@ == old(db).circles@.remove(i),
                None => *final(db) == *old(db),
            },
            self.of(*final(db)) is None,
    {
        let ghost a = db.circles@;
        proof {
            lemma_row_at(a, self.id);
        }
        if let Some(i) = db.find(self.id) {
            db.remove(i);
            proof {
                let b = db.circles@;
                lemma_row_at(b, self.id);
                assert forall|x: int| 0 <= x < b.len() implies (#[trigger] b[x]).id != self.id by {
                    let p = if x < i {
                        x
                    } else {
                        x + 1
                    };
                    assert(b[x] == a[p]);
                    if p < i {
                        assert(apart(a[p], a[i as int]));
                    } else {
                        assert(apart(a[i as int], a[p]));
                    }
                }
            }
        }
    }

    /// What the circle's node stored. With no root key nothing has been saved yet.
    pub fn load(&self, db: &DB) -> (r: Result<Option<NodeState>, StoreError>)
        ensures
            match self.of(*db) {
                None => r == Err::<Option<NodeState>, StoreError>(StoreError::NoSuchRow),
                Some(row) => match row.root_key {
                    None => r == Ok::<Option<NodeState>, StoreError>(None),
                    Some(k) => if k@.len() == 32 {
                        r matches Ok(Some(state)) && state.root_key@ == k@
                            && state.registration.deep_view() == row.registration.deep_view()
                    } else {
                        r == Err::<Option<NodeState>, StoreError>(StoreError::InvalidRootKey)
                    },
                },
            },
    {
        let i: usize = match db.find(self.id) {
            Some(i) => i,
            None => {
                return Err(StoreError::NoSuchRow);
            },
        };
        let row = &db.circles[i];
        match &row.root_key {
            None => Ok(None),
            Some(k) => match bytes::exactly_32(k.as_slice()) {
                Some(root_key) => {
                    let registration = match &row.registration {
                        Some(reg) => {
                            let copy = bytes::copied_bytes(reg.as_slice());
                            assert(copy.deep_view() =~= reg.deep_view());
                            Some(copy)
                        },
                        None => None,
                    };
                    Ok(Some(NodeState { root_key, registration }))
                },
                None => Err(StoreError::InvalidRootKey),
            },
        }
    }

    /// Stores what the circle's node keeps, in place of what was there. A row that vanished
    /// is an error.
    pub fn save(&self, db: &mut DB, state: NodeState) -> (r: Result<(), StoreError>)
        requires
            old(db).wf(),
        ensures
            final(db).wf(),
            changes_row(
                *old(db),
                *final(db),
                self.id,
                |a: CircleRow, b: CircleRow| saves_state(a, b, state),
            ),
            r == (match self.of(*old(db)) {
                Some(_) => Ok::<(), StoreError>(()),
                None => Err::<(), StoreError>(StoreError::NoSuchRow),
            }),
    {
        let ghost before = *db;
        match db.find(self.id) {
            None => Err(StoreError::NoSuchRow),
            Some(i) => {
                assert(row_ok(before.circles@[i as int], before.last_id));
                db.circles[i].root_key = Some(bytes::copied_bytes(state.root_key.as_slice()));
                db.circles[i].registration = state.registration;
                proof {
                    before.lemma_same_but(*db, i as int);
                }
                Ok(())
            },
        }
    }

    /// Clears what the circle's node keeps, and nothing else.
    pub fn delete(&self, db: &mut DB)
        requires
            old(db).wf(),
        ensures
            final(db).wf(),
            changes_row(
                *old(db),
                *final(db),
                self.id,
                |a: CircleRow, b: CircleRow|
                    b == (CircleRow { root_key: None, registration: None, ..a }),
            ),
    {
        let ghost before = *db;
        if let Some(i) = db.find(self.id) {
            assert(row_ok(before.circles@[i as int], before.last_id));
            db.circles[i].root_key = None;
            db.circles[i].registration = None;
            proof {
                before.lemma_same_but(*db, i as int);
            }
        }
    }
}

/// Whether a row that was `a` is `b` once a node's state is saved in it.
pub open spec fn saves_state(a: CircleRow, b: CircleRow, state: NodeState) -> bool {
    &&& b.root_key is Some && b.root_key->0@ == state.root_key@
    &&& b == (CircleRow { root_key: b.root_key, registration: state.registration, ..a })
}

/// What the host said is what is read back: the hash it came with, its name, and its shares
/// in its order.
pub proof fn circle_info_round_trips(a: CircleRow, b: CircleRow, info: CircleInfo)
    requires
        stores_info(a, b, info),
    ensures
        stored_hash(b.config_hash) == Some(info.config_hash),
        text::text_or(b.display_name, ""@) == info.name@,
        same_apps(info.shares@, b.shares@),
{
    crate::wire::config_hash_round_trips(info.config_hash);
}

/// The joined circles are those whose join succeeded: all of them, in the order in which they
/// were joined.
pub proof fn joined_circles_are_the_complete_ones(db: DB)
    ensures
        db.complete_ids(db.circles@.len() as int) == db.circles@.filter(
            |row: CircleRow| row.complete,
        ).map_values(|row: CircleRow| row.id),
{
    lemma_complete(db, db.circles@.len() as int);
    assert(db.circles@.take(db.circles@.len() as int) =~= db.circles@);
}

proof fn lemma_complete(db: DB, n: int)
    requires
        0 <= n <= db.circles@.len(),
    ensures
        db.complete_ids(n) == db.circles@.take(n).filter(|row: CircleRow| row.complete).map_values(
            |row: CircleRow| row.id,
        ),
    decreases n,
{
    reveal(Seq::filter);
    let f = |row: CircleRow| row.complete;
    let g = |row: CircleRow| row.id;
    let rows = db.circles@;
    if n > 0 {
        lemma_complete(db, n - 1);
        let before = rows.take(n - 1).filter(f);
        assert(rows.take(n).drop_last() =~= rows.take(n - 1));
        assert(rows.take(n).last() == rows[n - 1]);
        if rows[n - 1].complete {
            assert(rows.take(n).filter(f) == before.push(rows[n - 1]));
            assert(before.push(rows[n - 1]).map_values(g) =~= before.map_values(g).push(
                rows[n - 1].id,
            ));
        }
    } else {
        assert(rows.take(0).filter(f) =~= Seq::<CircleRow>::empty());
        assert(Seq::<CircleRow>::empty().map_values(g) =~= Seq::<i64>::empty());
    }
}

/// A circle answers to its label and to its connectivity group, once its join succeeded, and
/// to nothing else.
pub proof fn circles_answer_to_label_and_group(row: CircleRow, key: Seq<char>)
    ensures
        DB::answers_to(row, key) <==> row.complete && ((row.hostname matches Some(h) && h@ == key)
            || (row.connectivity_group_id matches Some(g) && g@ == key)),
{
}

/// Storing what a host says of its circle replaces the name, the hash and all of the shares,
/// each with its ID, its name and its kind, in the host's order; and touches nothing else.
/// Saving a node's state replaces that, and touches nothing else.
pub proof fn writes_replace_what_they_are_for(
    a: CircleRow,
    b: CircleRow,
    info: CircleInfo,
    state: NodeState,
)
    ensures
        stores_info(a, b, info) ==> {
            &&& b.display_name matches Some(name) && name@ == info.name@
            &&& b.config_hash matches Some(hash) && hash@ == info.config_hash.digits()
            &&& b.shares@.len() == info.shares@.len()
            &&& forall|i: int|
                0 <= i < info.shares@.len() ==> {
                    &&& (#[trigger] b.shares@[i]).id@ == info.shares@[i].id@
                    &&& b.shares@[i].name@ == info.shares@[i].name@
                    &&& b.shares@[i].kind == info.shares@[i].kind
                }
            &&& b.id == a.id && b.hostname == a.hostname && b.backend == a.backend
            &&& b.connectivity_group_id == a.connectivity_group_id && b.complete == a.complete
            &&& b.root_key == a.root_key && b.registration == a.registration
            &&& b.terminal_state == a.terminal_state && b.created_at == a.created_at
        },
        saves_state(a, b, state) ==> {
            &&& b.root_key matches Some(k) && k@ == state.root_key@
            &&& b.registration == state.registration
            &&& b.id == a.id && b.hostname == a.hostname && b.backend == a.backend
            &&& b.connectivity_group_id == a.connectivity_group_id && b.complete == a.complete
            &&& b.display_name == a.display_name && b.config_hash == a.config_hash
            &&& b.shares == a.shares && b.terminal_state == a.terminal_state
        },
{
    if stores_info(a, b, info) {
        assert forall|i: int| 0 <= i < info.shares@.len() implies {
            &&& (#[trigger] b.shares@[i]).id@ == info.shares@[i].id@
            &&& b.shares@[i].name@ == info.shares@[i].name@
            &&& b.shares@[i].kind == info.shares@[i].kind
        } by {
            assert(crate::guest::store::same_app(info.shares@[i], b.shares@[i]));
        }
    }
}

/// A change of a circle's row changes that row, whichever it is, and no other.
pub proof fn changes_touch_one_circle(
    before: DB,
    after: DB,
    k: int,
    change: spec_fn(CircleRow, CircleRow) -> bool,
)
    requires
        before.wf(),
        0 <= k < before.circles@.len(),
        changes_row(before, after, before.circles@[k].id, change),
    ensures
        change(before.circles@[k], after.circles@[k]),
        after.circles@.len() == before.circles@.len(),
        after.last_id == before.last_id,
        forall|j: int|
            0 <= j < before.circles@.len() && j != k ==> #[trigger] after.circles@[j]
                == before.circles@[j],
{
    lemma_row_at(before.circles@, before.circles@[k].id);
    let i = row_at(before.circles@, before.circles@[k].id)->0;
    if i < k {
        assert(apart(before.circles@[i], before.circles@[k]));
    } else if k < i {
        assert(apart(before.circles@[k], before.circles@[i]));
    }
}

/// A new row knows nothing yet but its ID and when it was made.
pub proof fn new_rows_know_nothing_yet(row: CircleRow, id: i64, now_millis: i64)
    requires
        is_fresh(row, id, now_millis),
    ensures
        row.id == id && row.created_at == now_millis && !row.complete,
        row.connectivity_group_id is None && row.hostname is None && row.display_name is None,
        row.backend is None && row.config_hash is None && row.terminal_state is None,
        row.root_key is None && row.registration is None && row.shares@.len() == 0,
{
}

} // verus!
