//! The circles that a client has joined.
use crate::guest::circle_store::{self, CircleRow, Row, StoreError, DB};
use crate::guest::node::Answer;
use crate::guest::store::same_apps;
use crate::guest::transports::{TerminalState, TransportError};
use crate::headers::{status_line, status_text};
use crate::text;
use crate::wire::{CircleInfo, ConfigHash, Share};
use vstd::prelude::*;

verus! {

/// Values by name: each name has one value, that which was inserted last.
pub struct TextMap<V> {
    pub keys: Vec<String>,
    pub vals: Vec<V>,
}

/// Where a name stands.
pub open spec fn key_index(keys: Seq<String>, key: Seq<char>) -> Option<int>
    decreases keys.len(),
{
    if keys.len() == 0 {
        None
    } else if keys.last()@ == key {
        Some(keys.len() - 1)
    } else {
        key_index(keys.drop_last(), key)
    }
}

proof fn lemma_key_index(keys: Seq<String>, key: Seq<char>)
    ensures
        match key_index(keys, key) {
            Some(i) => 0 <= i < keys.len() && keys[i]@ == key,
            None => forall|j: int| 0 <= j < keys.len() ==> (#[trigger] keys[j])@ != key,
        },
    decreases keys.len(),
{
    if keys.len() > 0 && keys.last()@ != key {
        lemma_key_index(keys.drop_last(), key);
        assert(forall|j: int|
            0 <= j < keys.len() - 1 ==> #[trigger] keys[j] == keys.drop_last()[j]);
    }
}

/// The value of a name, among names and their values.
pub open spec fn value_at<V>(keys: Seq<String>, vals: Seq<V>, key: Seq<char>) -> Option<V> {
    match key_index(keys, key) {
        Some(i) => Some(vals[i]),
        None => None,
    }
}

impl<V> TextMap<V> {
    /// No name stands twice, and each has a value.
    pub open spec fn wf(self) -> bool {
        &&& self.keys@.len() == self.vals@.len()
        &&& forall|i: int, j: int|
            0 <= i < j < self.keys@.len() ==> (#[trigger] self.keys@[i])@ != (
            #[trigger] self.keys@[j])@
    }

    /// The value of a name.
    pub open spec fn at(self, key: Seq<char>) -> Option<V> {
        value_at(self.keys@, self.vals@, key)
    }

    pub fn new() -> (r: TextMap<V>)
        ensures
            r.wf(),
            forall|k: Seq<char>| #[trigger] r.at(k) is None,
    {
        TextMap { keys: Vec::new(), vals: Vec::new() }
    }

    fn find(&self, key: &str) -> (r: Option<usize>)
        ensures
            match r {
                Some(i) => i < self.keys@.len() && key_index(self.keys@, key@) == Some(i as int),
                None => key_index(self.keys@, key@) is None,
            },
    {
        let mut i: usize = self.keys.len();
        assert(self.keys@.take(i as int) =~= self.keys@);
        while i > 0
            invariant
                i <= self.keys@.len(),
                key_index(self.keys@, key@) == key_index(self.keys@.take(i as int), key@),
            decreases i,
        {
            assert(self.keys@.take(i as int).drop_last() =~= self.keys@.take(i - 1));
            i = i - 1;
            if text::same_text(self.keys[i].as_str(), key) {
                return Some(i);
            }
        }
        None
    }

    /// The value of a name.
    pub fn get(&self, key: &str) -> (r: Option<&V>)
        requires
            self.wf(),
        ensures
            match r {
                Some(v) => self.at(key@) == Some(*v),
                None => self.at(key@) is None,
            },
    {
        proof {
            lemma_key_index(self.keys@, key@);
        }
        match self.find(key) {
            Some(i) => Some(&self.vals[i]),
            None => None,
        }
    }

    /// Gives a name a value, in place of the one it had.
    pub fn insert(&mut self, key: String, val: V)
        requires
            old(self).wf(),
        ensures
            final(self).wf(),
            forall|k: Seq<char>|
                #[trigger] final(self).at(k) == if k == key@ {
                    Some(val)
                } else {
                    old(self).at(k)
                },
    {
        let ghost keys0 = self.keys@;
        let ghost vals0 = self.vals@;
        proof {
            lemma_key_index(keys0, key@);
        }
        if let Some(i) = self.find(key.as_str()) {
            let _k = self.keys.remove(i);
            let _v = self.vals.remove(i);
            proof {
                assert forall|j: int| 0 <= j < self.keys@.len() implies (#[trigger] self.keys@[j])@
                    != key@ by {
                    let p = if j < i {
                        j
                    } else {
                        j + 1
                    };
                    assert(self.keys@[j] == keys0[p]);
                    assert(keys0[i as int]@ == key@);
                }
            }
        }
        let ghost keys1 = self.keys@;
        let ghost vals1 = self.vals@;
        proof {
            assert forall|k: Seq<char>| k != key@ implies #[trigger] value_at(keys1, vals1, k)
                == value_at(keys0, vals0, k) by {
                lemma_key_index(keys0, k);
                lemma_key_index(keys1, k);
                if keys1 != keys0 {
                    let i = key_index(keys0, key@)->0;
                    if key_index(keys0, k) is Some {
                        let a = key_index(keys0, k)->0;
                        let b = if a < i {
                            a
                        } else {
                            a - 1
                        };
                        assert(keys1[b]@ == k);
                        assert(vals1[b] == vals0[a]);
                        let c = key_index(keys1, k)->0;
                        let d = if c < i {
                            c
                        } else {
                            c + 1
                        };
                        assert(keys1[c] == keys0[d]);
                        assert(d == a);
                    } else if key_index(keys1, k) is Some {
                        let c = key_index(keys1, k)->0;
                        let d = if c < i {
                            c
                        } else {
                            c + 1
                        };
                        assert(keys1[c] == keys0[d]);
                    }
                }
            }
            assert forall|x: int, y: int| 0 <= x < y < keys1.len() implies (#[trigger] keys1[x])@
                != (#[trigger] keys1[y])@ by {
                if keys1 != keys0 {
                    let i = key_index(keys0, key@)->0;
                    assert(keys1[x] == keys0[if x < i { x } else { x + 1 }]);
                    assert(keys1[y] == keys0[if y < i { y } else { y + 1 }]);
                }
            }
        }
        self.keys.push(key);
        self.vals.push(val);
        proof {
            let keys2 = self.keys@;
            assert(keys2.drop_last() =~= keys1);
            assert forall|x: int, y: int| 0 <= x < y < keys2.len() implies (#[trigger] keys2[x])@
                != (#[trigger] keys2[y])@ by {
                assert(keys2[x] == keys1[x]);
                if y < keys1.len() {
                    assert(keys2[y] == keys1[y]);
                }
            }
            assert forall|k: Seq<char>| #[trigger] self.at(k) == if k == key@ {
                Some(val)
            } else {
                old(self).at(k)
            } by {
                lemma_key_index(keys1, k);
                if k != key@ {
                    assert(value_at(keys1, vals1, k) == value_at(keys0, vals0, k));
                }
            }
        }
    }
}

/// A circle this client has joined: its names, its row in the store, how its host is
/// reached, and whether the host has turned this client away.
#[derive(Clone, Debug, PartialEq, Eq)]
pub struct Circle {
    /// The `<circle>` label in `<share>.<circle>.localhost`.
    pub label: String,
    pub id: String,
    pub display_name: String,
    pub row: Row,
    /// The host as the transport identifies it, for humans.
    pub transport: String,
    /// Set once the transport reports a terminal failure mid-session. From then on the
    /// circle answers without dialing.
    pub dead: Option<TerminalState>,
}

impl Circle {
    pub fn new(label: String, id: String, display_name: String, row: Row, transport: String) -> (r:
        Circle)
        ensures
            r == (Circle { label, id, display_name, row, transport, dead: None }),
    {
        Circle { label, id, display_name, row, transport, dead: None }
    }

    pub fn label(&self) -> (r: &str)
        ensures
            r@ == self.label@,
    {
        self.label.as_str()
    }

    pub fn display_name(&self) -> (r: &str)
        ensures
            r@ == self.display_name@,
    {
        self.display_name.as_str()
    }

    /// The host as the transport identifies it, for humans.
    pub fn describe_transport(&self) -> (r: String)
        ensures
            r@ == self.transport@,
    {
        text::copied(self.transport.as_str())
    }

    /// The shares as last fetched from the host.
    pub fn shares(&self, db: &DB) -> (r: Vec<Share>)
        ensures
            match self.row.of(*db) {
                Some(row) => same_apps(row.shares@, r@),
                None => r@.len() == 0,
            },
    {
        self.row.read_shares(db)
    }

    /// Why no stream is asked of the transport: the circle is known to be dead.
    pub fn refusal(&self) -> (r: Option<TransportError>)
        ensures
            r == (match self.dead {
                Some(state) => Some(TransportError::Terminal(state)),
                None => None,
            }),
    {
        match self.dead {
            Some(state) => Some(TransportError::Terminal(state)),
            None => None,
        }
    }

    /// What asking the transport for a stream came to. A terminal failure is recorded here,
    /// once, for this run and the next, and is what the log is told.
    pub fn opened(&mut self, db: &mut DB, result: &Result<(), TransportError>) -> (r: Option<
        String,
    >)
        requires
            old(db).wf(),
        ensures
            final(db).wf(),
            match *result {
                Err(TransportError::Terminal(state)) => {
                    &&& *final(self) == (Circle { dead: Some(state), ..*old(self) })
                    &&& circle_store::changes_row(
                        *old(db),
                        *final(db),
                        old(self).row.id,
                        |a: CircleRow, b: CircleRow|
                            b.terminal_state.deep_view() == Some(state.name()) && b == (CircleRow {
                                terminal_state: b.terminal_state,
                                ..a
                            }),
                    )
                    &&& r.deep_view() == Some(
                        "["@ + old(self).label@ + "] circle is no longer available — "@
                            + state.description(),
                    )
                },
                _ => *final(self) == *old(self) && *final(db) == *old(db) && r is None,
            },
    {
        match result {
            Err(TransportError::Terminal(state)) => {
                self.dead = Some(*state);
                self.row.write_terminal_state(db, state.as_str());
                let mut out = text::copied("[");
                out.append(self.label.as_str());
                out.append("] circle is no longer available — ");
                out.append(state.describe());
                Some(out)
            },
            _ => None,
        }
    }

    /// The hash of the copy this client has, which a refresh asks with.
    pub fn known(&self, db: &DB) -> (r: Result<Option<ConfigHash>, StoreError>)
        ensures
            r == (match self.row.of(*db) {
                Some(row) => Ok::<Option<ConfigHash>, StoreError>(
                    circle_store::stored_hash(row.config_hash),
                ),
                None => Err::<Option<ConfigHash>, StoreError>(StoreError::NoSuchRow),
            }),
    {
        match self.row.read_circle_config_hash(db) {
            Some(hash) => Ok(hash),
            None => Err(StoreError::NoSuchRow),
        }
    }

    /// Stores the host's answer to a refresh, and hands it on. `None` = unchanged. A circle
    /// that is no longer in the store cannot be refreshed.
    pub fn refresh(&self, db: &mut DB, info: Option<CircleInfo>) -> (r: Result<
        Option<CircleInfo>,
        StoreError,
    >)
        requires
            old(db).wf(),
        ensures
            final(db).wf(),
            match circle_store::row_at(old(db).circles@, self.row.id) {
                None => {
                    &&& r == Err::<Option<CircleInfo>, StoreError>(StoreError::NoSuchRow)
                    &&& *final(db) == *old(db)
                },
                Some(i) => match info {
                    None => {
                        &&& r == Ok::<Option<CircleInfo>, StoreError>(None)
                        &&& *final(db) == *old(db)
                    },
                    Some(news) => if crate::guest::store::apps_ok(news.shares@) {
                        &&& r == Ok::<Option<CircleInfo>, StoreError>(Some(news))
                        &&& old(db).same_but(*final(db), i)
                        &&& circle_store::stores_info(
                            old(db).circles@[i],
                            final(db).circles@[i],
                            news,
                        )
                    } else {
                        &&& r == Err::<Option<CircleInfo>, StoreError>(StoreError::DuplicateShare)
                        &&& *final(db) == *old(db)
                    },
                },
            },
    {
        if let Err(e) = self.known(db) {
            return Err(e);
        }
        match info {
            None => Ok(None),
            Some(news) => match self.row.write_circle_info(db, &news) {
                Ok(()) => Ok(Some(news)),
                Err(e) => Err(e),
            },
        }
    }
}

//-- The guest API ----------------------------------------------------------------
/// What the answer to `GET /v1/circle` means.
pub fn fetch_info(status: u16) -> (r: Result<Answer, String>)
    requires
        100 <= status <= 999,
    ensures
        match r {
            Ok(Answer::Unchanged) => status == 304,
            Ok(Answer::ReadShare) => status == 200,
            Err(e) => status != 304 && status != 200 && e@ == "server answered "@ + status_text(
                status,
            ) + " to GET /v1/circle"@,
        },
{
    if status == 304 {
        Ok(Answer::Unchanged)
    } else if status == 200 {
        Ok(Answer::ReadShare)
    } else {
        Err(unexpected(status, " to GET /v1/circle"))
    }
}

/// What the answer to `POST /v1/activation` means: the circle, or a refusal that carries the
/// contract's reason, where the body has one.
pub fn activate(status: u16, error: Option<String>) -> (r: Result<(), String>)
    requires
        100 <= status <= 999,
    ensures
        r is Ok <==> status == 200,
        r matches Err(e) ==> e@ == (match error {
            Some(why) => "activation refused: "@ + why@,
            None => "server answered "@ + status_text(status) + " to the activation"@,
        }),
{
    if status == 200 {
        return Ok(());
    }
    match error {
        Some(why) => {
            let mut out = text::copied("activation refused: ");
            out.append(why.as_str());
            Err(out)
        },
        None => Err(unexpected(status, " to the activation")),
    }
}

/// What the answer to `DELETE /v1/guest` means.
pub fn leave(status: u16) -> (r: Result<(), String>)
    requires
        100 <= status <= 999,
    ensures
        r is Ok <==> status == 204,
        r matches Err(e) ==> e@ == "server answered "@ + status_text(status)
            + " to DELETE /v1/guest"@,
{
    if status == 204 {
        return Ok(());
    }
    Err(unexpected(status, " to DELETE /v1/guest"))
}

fn unexpected(status: u16, request: &str) -> (r: String)
    requires
        100 <= status <= 999,
    ensures
        r@ == "server answered "@ + status_text(status) + request@,
{
    let mut out = text::copied("server answered ");
    out.append(status_line(status).as_str());
    out.append(request);
    out
}

//-- Registry ---------------------------------------------------------------------

/// CircleRegistry manages all circles this client has joined.
pub struct CircleRegistry {
    pub live: TextMap<Circle>,
    /// The label of each circle, by its ID.
    pub by_id: TextMap<String>,
    pub dead: TextMap<TerminalState>,
}

/// What the registry finds for a label or an ID.
pub enum Lookup<'a> {
    Live(&'a Circle),
    Dead(TerminalState),
    Unknown,
}

impl CircleRegistry {
    /// What holds of every registry: each name has one value, and a circle stands under its
    /// own label.
    pub open spec fn wf(self) -> bool {
        &&& self.live.wf()
        &&& self.by_id.wf()
        &&& self.dead.wf()
        &&& forall|k: Seq<char>|
            (#[trigger] self.live.at(k)) is Some ==> self.live.at(k)->0.label@ == k
    }

    /// The label that a key stands for: that of the circle with this ID, or the key itself.
    pub open spec fn label_for(self, key: Seq<char>) -> Seq<char> {
        match self.by_id.at(key) {
            Some(label) => label@,
            None => key,
        }
    }

    pub fn new() -> (r: CircleRegistry)
        ensures
            r.wf(),
            r.is_empty(),
    {
        CircleRegistry { live: TextMap::new(), by_id: TextMap::new(), dead: TextMap::new() }
    }

    /// Whether inserting a circle turns this registry into `after`.
    pub open spec fn inserts_to(self, circle: Circle, after: CircleRegistry) -> bool {
        &&& after.dead == self.dead
        &&& forall|k: Seq<char>|
            #[trigger] after.live.at(k) == if k == circle.label@ {
                Some(circle)
            } else {
                self.live.at(k)
            }
        &&& forall|k: Seq<char>|
            k != circle.id@ ==> #[trigger] after.by_id.at(k) == self.by_id.at(k)
        &&& after.by_id.at(circle.id@) is Some
        &&& after.by_id.at(circle.id@)->0@ == circle.label@
    }

    pub fn insert(&mut self, circle: Circle)
        requires
            old(self).wf(),
        ensures
            final(self).wf(),
            old(self).inserts_to(circle, *final(self)),
    {
        self.by_id.insert(text::copied(circle.id.as_str()), text::copied(circle.label.as_str()));
        self.live.insert(text::copied(circle.label.as_str()), circle);
    }

    /// Whether inserting a dead circle turns this registry into `after`.
    pub open spec fn buries_to(
        self,
        label: Seq<char>,
        id: Seq<char>,
        state: TerminalState,
        after: CircleRegistry,
    ) -> bool {
        &&& after.live == self.live
        &&& forall|k: Seq<char>|
            #[trigger] after.dead.at(k) == if k == label {
                Some(state)
            } else {
                self.dead.at(k)
            }
        &&& forall|k: Seq<char>| k != id ==> #[trigger] after.by_id.at(k) == self.by_id.at(k)
        &&& after.by_id.at(id) is Some
        &&& after.by_id.at(id)->0@ == label
    }

    pub fn insert_dead(&mut self, label: String, id: String, state: TerminalState)
        requires
            old(self).wf(),
        ensures
            final(self).wf(),
            old(self).buries_to(label@, id@, state, *final(self)),
    {
        self.by_id.insert(id, text::copied(label.as_str()));
        self.dead.insert(label, state);
    }

    /// By label, or by circle id. A live circle comes before a dead one of the same label.
    pub fn get(&self, key: &str) -> (r: Lookup<'_>)
        requires
            self.wf(),
        ensures
            match self.live.at(self.label_for(key@)) {
                Some(circle) => r matches Lookup::Live(c) && *c == circle,
                None => match self.dead.at(self.label_for(key@)) {
                    Some(state) => r == Lookup::Dead(state),
                    None => r is Unknown,
                },
            },
    {
        let label = match self.by_id.get(key) {
            Some(label) => text::copied(label.as_str()),
            None => text::copied(key),
        };
        if let Some(circle) = self.live.get(label.as_str()) {
            return Lookup::Live(circle);
        }
        match self.dead.get(label.as_str()) {
            Some(state) => Lookup::Dead(*state),
            None => Lookup::Unknown,
        }
    }

    /// The live circles, in no particular order: one for each label, namely the one that
    /// stands under it.
    pub fn iter(&self) -> (r: &Vec<Circle>)
        requires
            self.wf(),
        ensures
            self.lists(r@),
    {
        proof {
            let keys = self.live.keys@;
            let vals = self.live.vals@;
            assert forall|i: int| 0 <= i < vals.len() implies (#[trigger] vals[i]).label@ == keys[i]@
                && self.live.at(keys[i]@) == Some(vals[i]) by {
                lemma_key_index(keys, keys[i]@);
                let k = key_index(keys, keys[i]@)->0;
                assert(k == i);
            }
            assert forall|c: Circle| #[trigger] vals.contains(c) implies self.live.at(c.label@) == Some(
                c,
            ) by {
                let i = vals.index_of(c);
                assert(vals[i].label@ == keys[i]@);
            }
            assert forall|c: Circle| self.live.at(c.label@) == Some(c) implies #[trigger] vals.contains(
                c,
            ) by {
                lemma_key_index(keys, c.label@);
                let i = key_index(keys, c.label@)->0;
                assert(vals[i] == c);
            }
            assert forall|i: int, j: int| 0 <= i < j < vals.len() implies (
            #[trigger] vals[i]).label@ != (#[trigger] vals[j]).label@ by {
                assert(keys[i]@ != keys[j]@);
            }
        }
        &self.live.vals
    }
}

/// Whether no two circles have the same label.
pub open spec fn one_per_label(circles: Seq<Circle>) -> bool {
    forall|i: int, j: int|
        0 <= i < j < circles.len() ==> (#[trigger] circles[i]).label@ != (
        #[trigger] circles[j]).label@
}

/// What is put into a registry.
pub enum Insertion {
    Live(Circle),
    Dead { label: Seq<char>, id: Seq<char>, state: TerminalState },
}

impl CircleRegistry {
    /// Whether an insertion turns this registry into `after`.
    pub open spec fn takes(self, what: Insertion, after: CircleRegistry) -> bool {
        match what {
            Insertion::Live(circle) => self.inserts_to(circle, after),
            Insertion::Dead { label, id, state } => self.buries_to(label, id, state, after),
        }
    }

    /// Whether those are the live circles: one for each label, and that one which stands
    /// under it.
    pub open spec fn lists(self, circles: Seq<Circle>) -> bool {
        &&& one_per_label(circles)
        &&& forall|c: Circle| #[trigger]
            circles.contains(c) <==> self.live.at(c.label@) == Some(c)
    }

    /// Whether nothing was inserted yet.
    pub open spec fn is_empty(self) -> bool {
        &&& forall|k: Seq<char>| #[trigger] self.live.at(k) is None
        &&& forall|k: Seq<char>| #[trigger] self.by_id.at(k) is None
        &&& forall|k: Seq<char>| #[trigger] self.dead.at(k) is None
    }
}

/// The circle that was inserted last under a label, among the first `n` insertions.
pub open spec fn last_inserted(what: Seq<Insertion>, n: int, label: Seq<char>) -> Option<Circle>
    decreases n,
{
    if n <= 0 {
        None
    } else {
        match what[n - 1] {
            Insertion::Live(circle) if circle.label@ == label => Some(circle),
            _ => last_inserted(what, n - 1, label),
        }
    }
}

/// Whether the registries come of one another by the insertions, from an empty one on.
pub open spec fn built_by(registries: Seq<CircleRegistry>, what: Seq<Insertion>) -> bool {
    &&& registries.len() == what.len() + 1
    &&& registries[0].is_empty()
    &&& forall|i: int|
        0 <= i < what.len() ==> (#[trigger] registries[i]).takes(what[i], registries[i + 1])
}

proof fn lemma_last_inserted(registries: Seq<CircleRegistry>, what: Seq<Insertion>, n: int)
    requires
        built_by(registries, what),
        0 <= n <= what.len(),
    ensures
        forall|label: Seq<char>| #[trigger]
            registries[n].live.at(label) == last_inserted(what, n, label),
    decreases n,
{
    if n > 0 {
        lemma_last_inserted(registries, what, n - 1);
        assert(registries[n - 1].takes(what[n - 1], registries[n - 1 + 1]));
        assert forall|label: Seq<char>| #[trigger] registries[n].live.at(label) == last_inserted(
            what,
            n,
            label,
        ) by {
            assert(registries[n - 1].live.at(label) == last_inserted(what, n - 1, label));
        }
    }
}

/// Whatever is inserted, live or dead, a registry lists exactly one circle for each label that
/// was ever given to a live one: the last that was inserted under it.
pub proof fn registries_list_the_last_of_each_label(
    registries: Seq<CircleRegistry>,
    what: Seq<Insertion>,
    listed: Seq<Circle>,
)
    requires
        built_by(registries, what),
        registries.last().lists(listed),
    ensures
        one_per_label(listed),
        forall|c: Circle| #[trigger]
            listed.contains(c) <==> last_inserted(what, what.len() as int, c.label@) == Some(c),
{
    lemma_last_inserted(registries, what, what.len() as int);
    assert forall|c: Circle| #[trigger] listed.contains(c) <==> last_inserted(
        what,
        what.len() as int,
        c.label@,
    ) == Some(c) by {
        assert(registries.last().live.at(c.label@) == last_inserted(
            what,
            what.len() as int,
            c.label@,
        ));
    }
}

/// A circle that was inserted is found by its ID, and by its label where that is no other
/// circle's ID; every other circle is found as before.
pub proof fn circles_are_found_by_label_and_id(
    before: CircleRegistry,
    circle: Circle,
    after: CircleRegistry,
    key: Seq<char>,
)
    requires
        before.inserts_to(circle, after),
    ensures
        after.live.at(after.label_for(circle.id@)) == Some(circle),
        before.by_id.at(circle.label@) is None && circle.label@ != circle.id@ ==> after.live.at(
            after.label_for(circle.label@),
        ) == Some(circle),
        key != circle.id@ && before.label_for(key) != circle.label@ ==> after.live.at(
            after.label_for(key),
        ) == before.live.at(before.label_for(key)),
{
}

/// A name has the value that stands beside it, wherever that is, and no other name has one.
pub proof fn names_have_their_own_values<V>(map: TextMap<V>, key: Seq<char>)
    requires
        map.wf(),
    ensures
        forall|i: int|
            0 <= i < map.keys@.len() && (#[trigger] map.keys@[i])@ == key ==> map.at(key) == Some(
                map.vals@[i],
            ),
        (forall|i: int| 0 <= i < map.keys@.len() ==> (#[trigger] map.keys@[i])@ != key) ==> map.at(
            key,
        ) is None,
{
    lemma_key_index(map.keys@, key);
    assert forall|i: int|
        0 <= i < map.keys@.len() && (#[trigger] map.keys@[i])@ == key implies map.at(key) == Some(
        map.vals@[i],
    ) by {
        let k = key_index(map.keys@, key)->0;
        if k < i {
            assert(map.keys@[k]@ != map.keys@[i]@);
        } else if i < k {
            assert(map.keys@[i]@ != map.keys@[k]@);
        }
    }
}

/// A dead circle is known to be dead by its ID and by its label, with the state that it was
/// found in; every other one is as before.
pub proof fn dead_circles_are_known_by_label_and_id(
    before: CircleRegistry,
    label: Seq<char>,
    id: Seq<char>,
    state: TerminalState,
    after: CircleRegistry,
    key: Seq<char>,
)
    requires
        before.buries_to(label, id, state, after),
    ensures
        after.dead.at(after.label_for(id)) == Some(state),
        after.dead.at(label) == Some(state),
        after.live == before.live,
        key != id && before.label_for(key) != label ==> after.dead.at(after.label_for(key))
            == before.dead.at(before.label_for(key)),
{
}

} // verus!
