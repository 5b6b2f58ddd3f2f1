//! A client app's view of its shares: joining, looking up, refreshing and leaving them.
use crate::guest::invite::{self, Invite};
use crate::guest::node::RefreshError;
use crate::guest::labels;
use crate::guest::secrets::{self, SecretStoreError};
use crate::guest::store::{self, Row, Share, ShareId, ShareRow, ShareState, StoreError, DB};
use crate::guest::transports::{TerminalState, Transport, TransportError};
use crate::text;
use crate::wire::ShareInfo;
use vstd::prelude::*;

verus! {

/// What can go wrong at the client's surface. Flat on purpose: the bindings carry the
/// variant and the message, and an app decides by the variant.
#[derive(Clone, Debug, PartialEq, Eq)]
pub enum SdkError {
    InvalidInvite(String),
    NoSuchShare(String),
    /// The store or the secret store failed.
    Storage(String),
    /// The host, or the hub in front of it, could not be reached or refused. Includes the
    /// transport's own bookkeeping on the way.
    HostNode(String),
    Internal(String),
}

impl StoreError {
    pub open spec fn text(self) -> Seq<char> {
        match self {
            StoreError::NoSuchRow => "Query returned no rows"@,
            StoreError::Full => "database or disk is full"@,
            StoreError::Orphan => "FOREIGN KEY constraint failed"@,
            StoreError::ShareIdTaken => "UNIQUE constraint failed: shares.share_id"@,
            StoreError::LabelTaken => "UNIQUE constraint failed: shares.hostname"@,
            StoreError::DuplicateApp => "UNIQUE constraint failed: apps.share_id, apps.app_id"@,
        }
    }

    /// The error's message.
    pub fn message(self) -> (r: String)
        ensures
            r@ == self.text(),
    {
        match self {
            StoreError::NoSuchRow => text::copied("Query returned no rows"),
            StoreError::Full => text::copied("database or disk is full"),
            StoreError::Orphan => text::copied("FOREIGN KEY constraint failed"),
            StoreError::ShareIdTaken => text::copied("UNIQUE constraint failed: shares.share_id"),
            StoreError::LabelTaken => text::copied("UNIQUE constraint failed: shares.hostname"),
            StoreError::DuplicateApp => text::copied(
                "UNIQUE constraint failed: apps.share_id, apps.app_id",
            ),
        }
    }
}

impl SdkError {
    /// The store's failure.
    pub fn storage(e: StoreError) -> (r: SdkError)
        ensures
            r matches SdkError::Storage(why) && why@ == e.text(),
    {
        SdkError::Storage(e.message())
    }

    /// The host's failure.
    pub fn host_node(e: String) -> (r: SdkError)
        ensures
            r == SdkError::HostNode(e),
    {
        SdkError::HostNode(e)
    }

    pub open spec fn text(self) -> Seq<char> {
        match self {
            SdkError::InvalidInvite(why) => "invalid invite code: "@ + why@,
            SdkError::NoSuchShare(share) => "no share "@ + share@,
            SdkError::Storage(why) => why@,
            SdkError::HostNode(why) => why@,
            SdkError::Internal(why) => why@,
        }
    }

    /// The error's message.
    pub fn message(&self) -> (r: String)
        ensures
            r@ == self.text(),
    {
        match self {
            SdkError::InvalidInvite(why) => {
                let mut out = text::copied("invalid invite code: ");
                out.append(why.as_str());
                out
            },
            SdkError::NoSuchShare(share) => {
                let mut out = text::copied("no share ");
                out.append(share.as_str());
                out
            },
            SdkError::Storage(why) => text::copied(why.as_str()),
            SdkError::HostNode(why) => text::copied(why.as_str()),
            SdkError::Internal(why) => text::copied(why.as_str()),
        }
    }
}

impl vstd::std_specs::convert::FromSpecImpl<SecretStoreError> for SdkError {
    open spec fn obeys_from_spec() -> bool {
        true
    }

    open spec fn from_spec(e: SecretStoreError) -> SdkError {
        SdkError::Storage(e.0)
    }
}

impl From<SecretStoreError> for SdkError {
    fn from(e: SecretStoreError) -> (r: SdkError) {
        SdkError::Storage(e.0)
    }
}

/// Which transport an invite code names, or why it is no invite. Offline; for checking a
/// scanned code before `join`.
pub fn validate_invite(invite_code: &str) -> (r: Result<Transport, SdkError>)
    ensures
        match invite::invite_error(invite_code@) {
            None => r == Ok::<Transport, SdkError>(invite::invite_transport(invite_code@)),
            Some(why) => r matches Err(SdkError::InvalidInvite(e)) && e@ == why,
        },
        invite::wax_error(invite_code@) is None ==> r == Ok::<Transport, SdkError>(
            Transport::WispersConnect,
        ),
{
    proof {
        invite::invite_codes_are_unambiguous(invite_code@);
    }
    match Invite::parse(invite_code) {
        Ok(invite) => Ok(invite.transport()),
        Err(why) => Err(SdkError::InvalidInvite(why)),
    }
}

//-- Labels -----------------------------------------------------------------------
/// Whether a text is what a slug is made of: lower-case letters, digits and dashes, with
/// no dash at either end and no two in a row.
pub open spec fn slug_form(s: Seq<char>) -> bool {
    &&& forall|i: int|
        0 <= i < s.len() ==> 'a' <= #[trigger] s[i] <= 'z' || '0' <= s[i] <= '9' || s[i] == '-'
    &&& s.len() > 0 ==> s[0] != '-' && s.last() != '-'
    &&& forall|i: int| 0 <= i < s.len() - 1 && #[trigger] s[i] == '-' ==> s[i + 1] != '-'
}

/// Whether a text can be a DNS label: 1 to 63 lower-case letters, digits and dashes, with
/// no dash at either end.
pub open spec fn dns_label(s: Seq<char>) -> bool {
    &&& 1 <= s.len() <= 63
    &&& forall|i: int|
        0 <= i < s.len() ==> 'a' <= #[trigger] s[i] <= 'z' || '0' <= s[i] <= '9' || s[i] == '-'
    &&& s[0] != '-'
    &&& s.last() != '-'
}

/// `slug::slugify`: the slug of a text.
pub uninterp spec fn slugified(s: Seq<char>) -> Seq<char>;

/// `slug::slugify`: a text as letters, digits and single dashes, none of them at an end.
/// How other characters are written is left to that function.
#[verifier::external_body]
fn slugify(s: &str) -> (r: String)
    ensures
        r@ == slugified(s@),
        slug_form(r@),
{
    slug::slugify(s)
}

/// `s` without its apostrophes.
pub open spec fn without_apostrophes(s: Seq<char>) -> Seq<char>
    decreases s.len(),
{
    if s.len() == 0 {
        Seq::empty()
    } else if s.last() == '\'' || s.last() == '\u{2019}' {
        without_apostrophes(s.drop_last())
    } else {
        without_apostrophes(s.drop_last()).push(s.last())
    }
}

fn drop_apostrophes(s: &str) -> (r: String)
    ensures
        r@ == without_apostrophes(s@),
{
    let v = text::chars_of(s);
    let mut out = String::new();
    let mut i: usize = 0;
    assert(v@.take(0) =~= Seq::<char>::empty());
    assert(out@ =~= without_apostrophes(v@.take(0)));
    while i < v.len()
        invariant
            i <= v@.len(),
            v@ == s@,
            out@ == without_apostrophes(v@.take(i as int)),
        decreases v@.len() - i,
    {
        assert(v@.take(i + 1).drop_last() =~= v@.take(i as int));
        if v[i] != '\'' && v[i] != '\u{2019}' {
            out.push(v[i]);
        }
        i = i + 1;
    }
    assert(v@.take(v@.len() as int) =~= v@);
    out
}

/// The label that a slug gives: its first 63 characters, without the dash that cutting it
/// there can leave at the end.
pub open spec fn label_of_slug(slug: Seq<char>) -> Option<Seq<char>> {
    let cut = if slug.len() > 63 {
        slug.take(63)
    } else {
        slug
    };
    let label = text::trim_end_of(cut, '-');
    if label.len() == 0 {
        None
    } else {
        Some(label)
    }
}

/// The label of a free-form name.
pub open spec fn slug_of(name: Seq<char>) -> Option<Seq<char>> {
    label_of_slug(slugified(without_apostrophes(name)))
}

proof fn lemma_trim_end_of(s: Seq<char>, c: char)
    ensures
        text::trim_end_of(s, c).len() <= s.len(),
        text::trim_end_of(s, c) == s.take(text::trim_end_of(s, c).len() as int),
        text::trim_end_of(s, c).len() > 0 ==> text::trim_end_of(s, c).last() != c,
    decreases s.len(),
{
    if s.len() > 0 && s.last() == c {
        lemma_trim_end_of(s.drop_last(), c);
        assert(s.drop_last().take(text::trim_end_of(s, c).len() as int) =~= s.take(
            text::trim_end_of(s, c).len() as int,
        ));
    } else {
        assert(s.take(s.len() as int) =~= s);
    }
}

/// The label of a slug is a DNS label; there is none only for the empty slug.
pub proof fn labels_are_dns_safe(slug: Seq<char>)
    requires
        slug_form(slug),
    ensures
        match label_of_slug(slug) {
            Some(label) => dns_label(label),
            None => slug.len() == 0,
        },
        slug.len() <= 63 && slug.len() > 0 ==> label_of_slug(slug) == Some(slug),
{
    let cut = if slug.len() > 63 {
        slug.take(63)
    } else {
        slug
    };
    lemma_trim_end_of(cut, '-');
    let label = text::trim_end_of(cut, '-');
    if slug.len() > 0 {
        assert(cut[0] == slug[0]);
        // The first character stops the trimming.
        lemma_trim_stops(cut, '-', 0);
        assert(forall|i: int| 0 <= i < label.len() ==> label[i] == slug[i]);
        if slug.len() <= 63 {
            assert(text::trim_end_of(slug, '-') == slug);
        }
    }
}

proof fn lemma_trim_stops(s: Seq<char>, c: char, k: int)
    requires
        0 <= k < s.len(),
        s[k] != c,
    ensures
        text::trim_end_of(s, c).len() > k,
    decreases s.len(),
{
    if s.last() == c {
        lemma_trim_stops(s.drop_last(), c, k);
    }
}

/// The label that a slug gives.
pub fn cut_to_label(slug: &str) -> (r: Option<String>)
    ensures
        r.deep_view() == label_of_slug(slug@),
{
    let v = text::chars_of(slug);
    let n: usize = if v.len() > 63 {
        63
    } else {
        v.len()
    };
    let cut = text::text_range(&v, 0, n);
    assert(cut@ =~= if slug@.len() > 63 {
        slug@.take(63)
    } else {
        slug@
    });
    let label = text::trim_end_matches(cut.as_str(), '-');
    if label.as_str().is_empty() {
        None
    } else {
        Some(label)
    }
}

/// Free-form name -> DNS-label-safe slug, or None if nothing usable remains.
pub fn host_slug(name: &str) -> (r: Option<String>)
    ensures
        r.deep_view() == slug_of(name@),
        r matches Some(label) ==> dns_label(label@),
{
    // Remove apostrophes, so "Bob's app" becomes "bobs-app", not "bob-s-app".
    let cleaned = drop_apostrophes(name);
    let slug = slugify(cleaned.as_str());
    proof {
        labels_are_dns_safe(slug@);
    }
    cut_to_label(slug.as_str())
}

//-- Joining ----------------------------------------------------------------------
/// What a joined share is called: by its host, or by its ID where the host gives no name.
pub open spec fn joined_name(info: ShareInfo, share_id: Seq<char>) -> Seq<char> {
    if info.name@.len() == 0 {
        share_id
    } else {
        info.name@
    }
}

/// The label that a joined share asks for.
pub open spec fn wanted_label(info: ShareInfo, share_id: Seq<char>) -> Seq<char> {
    match slug_of(joined_name(info, share_id)) {
        Some(label) => label,
        None => share_id,
    }
}

/// Whether a row that was `a` is `b` once its join is recorded, with that label.
pub open spec fn join_recorded(a: ShareRow, b: ShareRow, info: ShareInfo, label: Seq<char>) -> bool {
    &&& b.display_name.deep_view() == Some(joined_name(info, a.share_id.0@))
    &&& b.config_hash.deep_view() == Some(info.config_hash.digits())
    &&& store::same_apps(info.apps@, b.apps@)
    &&& b.hostname.deep_view() == Some(label)
    &&& b == (ShareRow {
        display_name: b.display_name,
        config_hash: b.config_hash,
        apps: b.apps,
        hostname: b.hostname,
        complete: true,
        ..a
    })
}

/// Whether a row that was `a` is `b` where its join was recorded up to the label, which it
/// could not have.
pub open spec fn join_half_recorded(a: ShareRow, b: ShareRow, info: ShareInfo) -> bool {
    &&& b.display_name.deep_view() == Some(joined_name(info, a.share_id.0@))
    &&& b.config_hash.deep_view() == Some(info.config_hash.digits())
    &&& store::same_apps(info.apps@, b.apps@)
    &&& b == (ShareRow {
        display_name: b.display_name,
        config_hash: b.config_hash,
        apps: b.apps,
        ..a
    })
}

/// Whether the `i`th row joins as a share with that label: the one it asks for, or the next
/// that is free. `None` where every one it could have is taken.
pub open spec fn joins_as(db: DB, i: int, info: ShareInfo, label: Option<Seq<char>>) -> bool {
    let share_id = db.shares@[i].share_id.0@;
    labels::comes_to(db.labels(), i, wanted_label(info, share_id), share_id, label)
}

/// Whether recording a join fails for that reason.
pub open spec fn join_fails(db: DB, id: i64, info: ShareInfo, why: StoreError) -> bool {
    match store::row_at(db.shares@, id) {
        None => why == StoreError::NoSuchRow,
        Some(i) => if store::apps_ok(info.apps@) {
            why == StoreError::LabelTaken && joins_as(db, i, info, None)
        } else {
            why == StoreError::DuplicateApp
        },
    }
}

/// The local bookkeeping of any join, once the host has answered: the names, the app list,
/// and marking the row complete so it survives the next start.
pub fn record_join(db: &mut DB, row: &Row, info: &ShareInfo) -> (r: Result<Share, StoreError>)
    requires
        old(db).wf(),
    ensures
        final(db).wf(),
        match store::row_at(old(db).shares@, row.id) {
            None => r is Err && *final(db) == *old(db),
            Some(i) => {
                let a = old(db).shares@[i];
                match r {
                    Ok(share) => {
                        &&& store::apps_ok(info.apps@)
                        &&& old(db).same_but(*final(db), i)
                        &&& join_recorded(a, final(db).shares@[i], *info, share.label@)
                        &&& store::presents(final(db).shares@[i], share)
                        &&& share.state == store::state_of(a.terminal_state)
                        &&& joins_as(*old(db), i, *info, Some(share.label@))
                    },
                    Err(StoreError::LabelTaken) => {
                        &&& old(db).same_but(*final(db), i)
                        &&& store::row_at(final(db).shares@, row.id) == Some(i)
                        &&& join_half_recorded(a, final(db).shares@[i], *info)
                    },
                    Err(_) => *final(db) == *old(db),
                }
            },
        },
        r matches Err(e) ==> join_fails(*old(db), row.id, *info, e),
{
    let share_id = match row.share_id(db) {
        Some(id) => id,
        None => {
            return Err(StoreError::NoSuchRow);
        },
    };
    let ghost d0 = *db;
    let ghost i = store::row_at(d0.shares@, row.id)->0;
    proof {
        store::lemma_row_at(d0.shares@, row.id);
    }
    if let Err(e) = row.write_share_info(db, info) {
        return Err(e);
    }
    let ghost d1 = *db;
    proof {
        lemma_same_row(d0, d1, row.id, i);
    }
    let name = if info.name.as_str().is_empty() {
        text::copied(share_id.as_str())
    } else {
        text::copied(info.name.as_str())
    };
    row.write_display_name(db, name.as_str());
    let ghost d2 = *db;
    proof {
        lemma_same_row(d1, d2, row.id, i);
    }
    let label = match host_slug(name.as_str()) {
        Some(label) => label,
        None => text::copied(share_id.as_str()),
    };
    assert(d2.labels() =~= d0.labels());
    if let Err(e) = row.write_deduped_hostname(db, label.as_str()) {
        return Err(e);
    }
    let ghost d3 = *db;
    proof {
        lemma_same_row(d2, d3, row.id, i);
    }
    row.mark_complete(db);
    proof {
        lemma_same_row(d3, *db, row.id, i);
    }
    match row.read_share(db) {
        Some(share) => {
            proof {
                let a = d0.shares@[i];
                let b = db.shares@[i];
                assert(d0.same_but(*db, i));
                assert(join_recorded(a, b, *info, share.label@));
                assert(wanted_label(*info, a.share_id.0@) == label@);
                assert(store::presents(b, share));
            }
            Ok(share)
        },
        None => Err(StoreError::NoSuchRow),
    }
}

/// A change of one row that keeps its ID leaves it where it stands.
proof fn lemma_same_row(a: DB, b: DB, id: i64, i: int)
    requires
        a.wf(),
        b.wf(),
        a.same_but(b, i),
        store::row_at(a.shares@, id) == Some(i),
        0 <= i < a.shares@.len(),
        b.shares@[i].id == id,
    ensures
        store::row_at(b.shares@, id) == Some(i),
{
    store::lemma_row_at(b.shares@, id);
    let k = store::row_at(b.shares@, id)->0;
    if k != i {
        if k < i {
            assert(b.shares@[k].id < b.shares@[i].id);
        } else {
            assert(b.shares@[i].id < b.shares@[k].id);
        }
    }
}

/// What a join comes to, by what joining the share over its transport came to. A failed
/// join leaves nothing behind.
pub fn join(db: &mut DB, row: &Row, joined: Result<ShareInfo, String>) -> (r: Result<Share, SdkError>)
    requires
        old(db).wf(),
    ensures
        final(db).wf(),
        match r {
            Ok(share) => {
                &&& joined is Ok
                &&& store::apps_ok(joined->Ok_0.apps@)
                &&& store::row_at(old(db).shares@, row.id) matches Some(i) && {
                    &&& old(db).same_but(*final(db), i)
                    &&& join_recorded(
                        old(db).shares@[i],
                        final(db).shares@[i],
                        joined->Ok_0,
                        share.label@,
                    )
                    &&& store::presents(final(db).shares@[i], share)
                    &&& joins_as(*old(db), i, joined->Ok_0, Some(share.label@))
                }
            },
            Err(e) => {
                &&& row.of(*final(db)) is None
                &&& final(db).last_id == old(db).last_id
                &&& match store::row_at(old(db).shares@, row.id) {
                    Some(i) => final(db).shares@ == old(db).shares@.remove(i),
                    None => final(db).shares@ == old(db).shares@,
                }
                &&& match joined {
                    Err(why) => e == SdkError::HostNode(why),
                    Ok(info) => exists|why: StoreError|
                        #[trigger] join_fails(*old(db), row.id, info, why) && e is Storage
                            && e->Storage_0@ == why.text(),
                }
            },
        },
        row.of(*old(db)) matches Some(a) ==> !a.complete ==> operates(
            *old(db),
            StoreOp::Join(*row),
            *final(db),
        ),
{
    let ghost before = *db;
    let failed = match joined {
        Ok(info) => match record_join(db, row, &info) {
            Ok(share) => {
                return Ok(share);
            },
            Err(e) => SdkError::storage(e),
        },
        Err(e) => SdkError::host_node(e),
    };
    proof {
        store::lemma_row_at(before.shares@, row.id);
        store::lemma_row_at(db.shares@, row.id);
    }
    let ghost between = *db;
    row.delete_row(db);
    proof {
        if let Some(i) = store::row_at(before.shares@, row.id) {
            assert(between.shares@.remove(i) =~= before.shares@.remove(i));
        }
    }
    Err(failed)
}

/// The secrets to delete once a join over a transport came to that: a failed one leaves none
/// of those that it may have saved under its share's ID.
pub fn secrets_after_join(joined: &Result<Share, SdkError>, kind: Transport) -> (r: Vec<
    &'static str,
>)
    ensures
        r.deep_view() == (match joined {
            Ok(_) => Seq::<Seq<char>>::empty(),
            Err(_) => secrets::kept_by(kind),
        }),
{
    match joined {
        Ok(_) => {
            let none: Vec<&'static str> = Vec::new();
            assert(none.deep_view() =~= Seq::<Seq<char>>::empty());
            none
        },
        Err(_) => secrets::secrets_of(kind),
    }
}

/// A failed join leaves no secret behind. It saves none but its transport's, under the new ID
/// of its share, which had none before; once those are deleted, the secret store holds what it
/// held before the join.
pub proof fn failed_joins_leave_no_secrets(
    before: Map<(Seq<char>, Seq<char>), Seq<u8>>,
    between: Map<(Seq<char>, Seq<char>), Seq<u8>>,
    after: Map<(Seq<char>, Seq<char>), Seq<u8>>,
    share: Seq<char>,
    kind: Transport,
)
    requires
        forall|k: (Seq<char>, Seq<char>)| #[trigger] before.dom().contains(k) ==> k.0 != share,
        forall|k: (Seq<char>, Seq<char>)|
            !(k.0 == share && secrets::kept_by(kind).contains(k.1)) ==> (
            #[trigger] between.dom().contains(k) == before.dom().contains(k)) && (
            before.dom().contains(k) ==> between[k] == before[k]),
        forall|k: (Seq<char>, Seq<char>)|
            #[trigger] after.dom().contains(k) == (between.dom().contains(k) && !(k.0 == share
                && secrets::kept_by(kind).contains(k.1))),
        forall|k: (Seq<char>, Seq<char>)| #[trigger]
            after.dom().contains(k) ==> after[k] == between[k],
    ensures
        after == before,
{
    assert forall|k: (Seq<char>, Seq<char>)| after.dom().contains(k) == before.dom().contains(k) by {
        if k.0 == share && secrets::kept_by(kind).contains(k.1) {
            assert(!before.dom().contains(k));
        } else {
            assert(between.dom().contains(k) == before.dom().contains(k));
        }
    }
    assert(after =~= before);
}

//-- The shares -------------------------------------------------------------------
/// Every joined share, from the store. Never waits for the network.
pub fn shares(db: &DB) -> (r: Vec<Share>)
    requires
        db.wf(),
    ensures
        r@.len() == db.complete_ids(db.shares@.len() as int).len(),
        forall|i: int|
            0 <= i < r@.len() ==> {
                let row = Row { id: db.complete_ids(db.shares@.len() as int)[i] };
                row.of(*db) is Some && store::presents(row.of(*db)->0, #[trigger] r@[i])
            },
{
    let rows = db.get_all_rows();
    let ghost ids = db.complete_ids(db.shares@.len() as int);
    let mut out: Vec<Share> = Vec::new();
    let mut i: usize = 0;
    proof {
        lemma_complete_ids(*db, db.shares@.len() as int);
    }
    while i < rows.len()
        invariant
            i <= rows@.len(),
            db.wf(),
            ids == db.complete_ids(db.shares@.len() as int),
            rows@.map_values(|row: Row| row.id) == ids,
            forall|k: int|
                0 <= k < ids.len() ==> (Row { id: #[trigger] ids[k] }).of(*db) is Some,
            out@.len() == i,
            forall|k: int|
                0 <= k < i ==> {
                    let row = Row { id: ids[k] };
                    row.of(*db) is Some && store::presents(row.of(*db)->0, #[trigger] out@[k])
                },
        decreases rows@.len() - i,
    {
        assert(rows@.map_values(|row: Row| row.id)[i as int] == rows@[i as int].id);
        assert((Row { id: ids[i as int] }).of(*db) is Some);
        let row = rows[i];
        assert(row == (Row { id: ids[i as int] }));
        match row.read_share(db) {
            Some(share) => {
                out.push(share);
            },
            None => {
                // Every listed row is in the store.
                assert(false);
            },
        }
        i = i + 1;
    }
    assert(rows@.len() == ids.len()) by {
        assert(rows@.map_values(|row: Row| row.id).len() == rows@.len());
    }
    out
}

proof fn lemma_complete_ids(db: DB, n: int)
    requires
        db.wf(),
        0 <= n <= db.shares@.len(),
    ensures
        forall|k: int|
            0 <= k < db.complete_ids(n).len() ==> (Row { id: #[trigger] db.complete_ids(n)[k] }).of(
                db,
            ) is Some,
    decreases n,
{
    if n > 0 {
        lemma_complete_ids(db, n - 1);
        store::lemma_row_at(db.shares@, db.shares@[n - 1].id);
        let before = db.complete_ids(n - 1);
        assert forall|k: int| 0 <= k < db.complete_ids(n).len() implies (Row {
            id: #[trigger] db.complete_ids(n)[k],
        }).of(db) is Some by {
            if k < before.len() {
                assert(db.complete_ids(n)[k] == before[k]);
            }
        }
    }
}

/// One share by id or label, from the store.
pub fn share(db: &DB, key: &str) -> (r: Option<Share>)
    requires
        db.wf(),
    ensures
        match db.index_for(key@, 0) {
            Some(i) => r matches Some(share) && store::presents(db.shares@[i], share),
            None => r is None,
        },
{
    match db.find_row(key) {
        Some(row) => {
            proof {
                lemma_found(*db, key@);
            }
            row.read_share(db)
        },
        None => None,
    }
}

proof fn lemma_found(db: DB, key: Seq<char>)
    requires
        db.wf(),
        db.index_for(key, 0) is Some,
        0 <= db.index_for(key, 0)->0 < db.shares@.len(),
    ensures
        store::row_at(db.shares@, db.shares@[db.index_for(key, 0)->0].id) == db.index_for(key, 0),
{
    let i = db.index_for(key, 0)->0;
    let id = db.shares@[i].id;
    store::lemma_row_at(db.shares@, id);
    let k = store::row_at(db.shares@, id)->0;
    if k < i {
        assert(db.shares@[k].id < db.shares@[i].id);
    } else if i < k {
        assert(db.shares@[i].id < db.shares@[k].id);
    }
}

//-- Guest nodes ------------------------------------------------------------------
/// What the store finds for a share, by id or label.
pub enum Found {
    Unknown,
    /// The share is known to be dead.
    Dead(TerminalState),
    /// The share's transport is to be restored, if it was not yet.
    Known { row: Row, share_id: ShareId, label: String },
}

/// How a share's host turned this device away for good, where it did.
pub open spec fn ended(row: ShareRow) -> Option<TerminalState> {
    match row.terminal_state {
        Some(s) => TerminalState::named(s@),
        None => None,
    }
}

/// Looks up the guest node of a share, by id or label. A share that was turned away for
/// good is not dialled again.
pub fn guest_node(db: &DB, key: &str) -> (r: Found)
    requires
        db.wf(),
    ensures
        match db.index_for(key@, 0) {
            None => r is Unknown,
            Some(i) => {
                let a = db.shares@[i];
                match ended(a) {
                    Some(state) => r == Found::Dead(state),
                    None => r matches Found::Known { row, share_id, label } && row.id == a.id
                        && share_id.0@ == a.share_id.0@ && label@ == text::text_or(a.hostname, ""@),
                }
            },
        },
{
    let row = match db.find_row(key) {
        Some(row) => row,
        None => {
            return Found::Unknown;
        },
    };
    proof {
        lemma_found(*db, key@);
    }
    if let Some(Some(s)) = row.read_terminal_state(db) {
        if let Some(state) = TerminalState::parse(s.as_str()) {
            return Found::Dead(state);
        }
    }
    match row.read_names(db) {
        Some((share_id, _, label)) => Found::Known { row, share_id, label },
        None => Found::Unknown,
    }
}

/// What looking a share up comes to, once its transport was restored.
#[derive(Debug, PartialEq, Eq)]
pub enum Lookup {
    Live,
    Dead(TerminalState),
    Unknown,
}

/// What restoring a share's transport came to. A terminal answer from the transport is
/// recorded in the store, so the share is dead from then on without dialling again; the
/// share as it is then is what observers are told. The share may have been left meanwhile:
/// a node that was restored is live all the same, but of a dead one nothing is left to tell.
pub fn restored(db: &mut DB, row: &Row, result: Result<(), TransportError>) -> (r: Result<
    (Lookup, Option<Share>),
    SdkError,
>)
    requires
        old(db).wf(),
    ensures
        final(db).wf(),
        match result {
            Ok(()) => *final(db) == *old(db) && r == Ok::<(Lookup, Option<Share>), SdkError>(
                (Lookup::Live, None),
            ),
            Err(TransportError::Terminal(state)) => {
                &&& store::changes_row(
                    *old(db),
                    *final(db),
                    row.id,
                    |a: ShareRow, b: ShareRow|
                        b.terminal_state.deep_view() == Some(state.name()) && b == (ShareRow {
                            terminal_state: b.terminal_state,
                            ..a
                        }),
                )
                &&& match row.of(*final(db)) {
                    Some(a) => row.of(*old(db)) is Some && (r matches Ok(
                        (Lookup::Dead(s), Some(share)),
                    ) && s == state && store::presents(a, share) && share.state
                        != ShareState::Live),
                    None => row.of(*old(db)) is None && (r matches Err(SdkError::Storage(why))
                        && why@ == StoreError::NoSuchRow.text()),
                }
            },
            Err(TransportError::Transient(e)) => *final(db) == *old(db) && r == Err::<
                (Lookup, Option<Share>),
                SdkError,
            >(SdkError::HostNode(e)),
        },
        result matches Err(TransportError::Terminal(state)) ==> (row.of(*old(db)) matches Some(a)
            ==> ended(a) is None) ==> operates(*old(db), StoreOp::End(*row, state), *final(db)),
{
    match result {
        Ok(()) => Ok((Lookup::Live, None)),
        Err(TransportError::Terminal(state)) => {
            let ghost before = *db;
            proof {
                store::lemma_row_at(before.shares@, row.id);
            }
            row.write_terminal_state(db, state.as_str());
            proof {
                if let Some(i) = store::row_at(before.shares@, row.id) {
                    lemma_same_row(before, *db, row.id, i);
                }
                crate::guest::transports::terminal_states_round_trip(state);
            }
            match row.read_share(db) {
                Some(share) => Ok((Lookup::Dead(state), Some(share))),
                None => Err(SdkError::storage(StoreError::NoSuchRow)),
            }
        },
        Err(TransportError::Transient(e)) => Err(SdkError::HostNode(e)),
    }
}

//-- What holds over time ---------------------------------------------------------
/// An operation of a client on its store.
pub enum StoreOp {
    /// A client opens the store, and sweeps what failed joins left behind.
    Open,
    /// A join makes its row.
    Make,
    /// A join fills in its row, or gives it up.
    Join(Row),
    /// The host of a share that was live turned this device away.
    End(Row, TerminalState),
    /// The host's news of a share are stored.
    News(Row, ShareInfo),
    /// The port that an app is served on is remembered.
    Port(Row),
    /// A share is left.
    Leave(Row),
}

/// Whether an operation turns a store into another.
pub open spec fn operates(a: DB, op: StoreOp, b: DB) -> bool {
    match op {
        StoreOp::Open => b.shares@ == DB::complete_rows(a.shares@, a.shares@.len() as int),
        StoreOp::Make => b.shares@.len() == a.shares@.len() + 1 && b.shares@.drop_last()
            == a.shares@,
        StoreOp::Join(row) => match store::row_at(a.shares@, row.id) {
            Some(i) => !a.shares@[i].complete && (a.same_but(b, i) || b.shares@ == a.shares@.remove(
                i,
            )),
            None => b.shares@ == a.shares@,
        },
        StoreOp::End(row, state) => match store::row_at(a.shares@, row.id) {
            Some(i) => ended(a.shares@[i]) is None && store::changes_row(
                a,
                b,
                row.id,
                |x: ShareRow, y: ShareRow|
                    y.terminal_state.deep_view() == Some(state.name()) && y == (ShareRow {
                        terminal_state: y.terminal_state,
                        ..x
                    }),
            ),
            None => b.shares@ == a.shares@,
        },
        StoreOp::News(row, info) => match store::row_at(a.shares@, row.id) {
            Some(i) => a.same_but(b, i) && store::stores_info(a.shares@[i], b.shares@[i], info),
            None => b.shares@ == a.shares@,
        },
        StoreOp::Port(row) => match store::row_at(a.shares@, row.id) {
            Some(i) => a.same_but(b, i) && b.shares@[i] == (ShareRow {
                ports: b.shares@[i].ports,
                ..a.shares@[i]
            }),
            None => b.shares@ == a.shares@,
        },
        StoreOp::Leave(row) => match store::row_at(a.shares@, row.id) {
            Some(i) => b.shares@ == a.shares@.remove(i),
            None => b.shares@ == a.shares@,
        },
    }
}

/// Whether the stores follow from one another by the operations, whichever clients made them.
pub open spec fn store_history(stores: Seq<DB>, ops: Seq<StoreOp>) -> bool {
    &&& stores.len() == ops.len() + 1
    &&& forall|i: int| 0 <= i < stores.len() ==> (#[trigger] stores[i]).wf()
    &&& forall|i: int| 0 <= i < ops.len() ==> operates(stores[i], #[trigger] ops[i], stores[i + 1])
}

/// Whether the share of that row is in the store as it was: joined, under the same ID and
/// label, and turned away in the same way.
pub open spec fn still_dead(db: DB, was: ShareRow) -> bool {
    exists|k: int|
        0 <= k < db.shares@.len() && {
            &&& (#[trigger] db.shares@[k]).id == was.id
            &&& db.shares@[k].complete
            &&& db.shares@[k].share_id == was.share_id
            &&& db.shares@[k].hostname == was.hostname
            &&& db.shares@[k].terminal_state == was.terminal_state
        }
}

proof fn lemma_at_most_one(db: DB, i: int, k: int)
    requires
        db.wf(),
        0 <= i < db.shares@.len(),
        0 <= k < db.shares@.len(),
        db.shares@[i].id == db.shares@[k].id,
    ensures
        i == k,
{
    if i < k {
        assert(db.shares@[i].id < db.shares@[k].id);
    } else if k < i {
        assert(db.shares@[k].id < db.shares@[i].id);
    }
}

proof fn lemma_complete_row_stays(shares: Seq<ShareRow>, n: int, i: int)
    requires
        0 <= i < n <= shares.len(),
        shares[i].complete,
    ensures
        exists|k: int|
            0 <= k < DB::complete_rows(shares, n).len() && #[trigger] DB::complete_rows(shares, n)[k]
                == shares[i],
    decreases n,
{
    let rows = DB::complete_rows(shares, n);
    if i == n - 1 {
        assert(rows.last() == shares[i]);
        assert(rows[rows.len() - 1] == shares[i]);
    } else {
        lemma_complete_row_stays(shares, n - 1, i);
        let before = DB::complete_rows(shares, n - 1);
        let k = choose|k: int| 0 <= k < before.len() && #[trigger] before[k] == shares[i];
        assert(rows[k] == shares[i]);
    }
}

proof fn lemma_still_dead(a: DB, op: StoreOp, b: DB, was: ShareRow)
    requires
        a.wf(),
        b.wf(),
        operates(a, op, b),
        still_dead(a, was),
        ended(was) is Some,
        !(op matches StoreOp::Leave(row) && row.id == was.id),
    ensures
        still_dead(b, was),
{
    let k = choose|k: int|
        0 <= k < a.shares@.len() && {
            &&& (#[trigger] a.shares@[k]).id == was.id
            &&& a.shares@[k].complete
            &&& a.shares@[k].share_id == was.share_id
            &&& a.shares@[k].hostname == was.hostname
            &&& a.shares@[k].terminal_state == was.terminal_state
        };
    let target = match op {
        StoreOp::Join(row) => Some(row.id),
        StoreOp::End(row, _) => Some(row.id),
        StoreOp::News(row, _) => Some(row.id),
        StoreOp::Port(row) => Some(row.id),
        StoreOp::Leave(row) => Some(row.id),
        _ => None,
    };
    match op {
        StoreOp::Open => {
            lemma_complete_row_stays(a.shares@, a.shares@.len() as int, k);
            let w = choose|w: int|
                0 <= w < b.shares@.len() && #[trigger] b.shares@[w] == a.shares@[k];
            assert(b.shares@[w].id == was.id);
        },
        StoreOp::Make => {
            assert(b.shares@.drop_last()[k] == a.shares@[k]);
            assert(b.shares@[k].id == was.id);
        },
        _ => {
            store::lemma_row_at(a.shares@, target->0);
            if let Some(i) = store::row_at(a.shares@, target->0) {
                if i == k {
                    assert(b.shares@[k].id == was.id);
                } else if b.shares@ == a.shares@.remove(i) {
                    let w = if k < i {
                        k
                    } else {
                        k - 1
                    };
                    assert(b.shares@[w] == a.shares@[k]);
                    assert(b.shares@[w].id == was.id);
                } else {
                    assert(b.shares@[k] == a.shares@[k]);
                    assert(b.shares@[k].id == was.id);
                }
            } else {
                assert(b.shares@[k].id == was.id);
            }
        },
    }
}

proof fn lemma_history_still_dead(stores: Seq<DB>, ops: Seq<StoreOp>, was: ShareRow, n: int)
    requires
        store_history(stores, ops),
        0 <= n <= ops.len(),
        still_dead(stores[0], was),
        ended(was) is Some,
        forall|i: int|
            0 <= i < ops.len() ==> !(#[trigger] ops[i] matches StoreOp::Leave(row) && row.id
                == was.id),
    ensures
        still_dead(stores[n], was),
    decreases n,
{
    if n > 0 {
        lemma_history_still_dead(stores, ops, was, n - 1);
        assert(operates(stores[n - 1], ops[n - 1], stores[n - 1 + 1]));
        assert(stores[n - 1].wf() && stores[n].wf());
        lemma_still_dead(stores[n - 1], ops[n - 1], stores[n], was);
    }
}

proof fn lemma_index_for(db: DB, key: Seq<char>, k: int, i: int)
    requires
        0 <= i <= k < db.shares@.len(),
        DB::answers_to(db.shares@[k], key),
        forall|j: int|
            0 <= j < db.shares@.len() && j != k ==> !DB::answers_to(#[trigger] db.shares@[j], key),
    ensures
        db.index_for(key, i) == Some(k),
    decreases k - i,
{
    if i < k {
        lemma_index_for(db, key, k, i + 1);
    }
}

/// A share that was turned away for good is dead at every later lookup, by its ID or its
/// label, whatever was done since and by whichever client, until it is left: it is found as
/// dead, in the same way, and so is not dialled. Only where another share has come to answer
/// to the same key does the lookup not concern it.
pub proof fn terminal_shares_stay_dead(
    stores: Seq<DB>,
    ops: Seq<StoreOp>,
    key: Seq<char>,
    state: TerminalState,
)
    requires
        store_history(stores, ops),
        stores[0].index_for(key, 0) matches Some(i) && 0 <= i < stores[0].shares@.len()
            && DB::answers_to(stores[0].shares@[i], key) && ended(stores[0].shares@[i]) == Some(
            state,
        ) && (forall|n: int|
            0 <= n < ops.len() ==> !(#[trigger] ops[n] matches StoreOp::Leave(row) && row.id
                == stores[0].shares@[i].id)) && (forall|j: int|
            0 <= j < stores.last().shares@.len() && (#[trigger] stores.last().shares@[j]).id
                != stores[0].shares@[i].id ==> !DB::answers_to(stores.last().shares@[j], key)),
    ensures
        stores.last().index_for(key, 0) matches Some(k) && 0 <= k < stores.last().shares@.len()
            && stores.last().shares@[k].id == stores[0].shares@[stores[0].index_for(key, 0)->0].id
            && ended(stores.last().shares@[k]) == Some(state),
{
    let i = stores[0].index_for(key, 0)->0;
    let was = stores[0].shares@[i];
    let last = stores.last();
    assert(stores[0].shares@[i].id == was.id);
    lemma_history_still_dead(stores, ops, was, ops.len() as int);
    let k = choose|k: int|
        0 <= k < last.shares@.len() && {
            &&& (#[trigger] last.shares@[k]).id == was.id
            &&& last.shares@[k].complete
            &&& last.shares@[k].share_id == was.share_id
            &&& last.shares@[k].hostname == was.hostname
            &&& last.shares@[k].terminal_state == was.terminal_state
        };
    assert(last.wf());
    assert forall|j: int| 0 <= j < last.shares@.len() && j != k implies !DB::answers_to(
        #[trigger] last.shares@[j],
        key,
    ) by {
        if last.shares@[j].id == was.id {
            lemma_at_most_one(last, j, k);
        }
    }
    lemma_index_for(last, key, k, 0);
}

/// A state that is recorded of a share reads back as the same state, and ends the share.
pub proof fn recorded_states_end_the_share(row: ShareRow, state: TerminalState)
    requires
        row.terminal_state.deep_view() == Some(state.name()),
    ensures
        ended(row) == Some(state),
        store::state_of(row.terminal_state) != ShareState::Live,
{
    crate::guest::transports::terminal_states_round_trip(state);
}

//-- Refreshing -------------------------------------------------------------------
/// What a refresh starts with.
#[derive(Debug, PartialEq, Eq)]
pub enum RefreshStart {
    /// There is no such share.
    NoSuchShare(SdkError),
    /// The share is dead: nothing can change.
    Nothing,
    /// Ask the host whether the share changed since this copy.
    Ask(Share),
}

/// What a refresh of a share starts with.
pub fn refresh(db: &DB, share: &ShareId) -> (r: RefreshStart)
    requires
        db.wf(),
    ensures
        match db.index_for(share.0@, 0) {
            None => r matches RefreshStart::NoSuchShare(SdkError::NoSuchShare(s)) && s@ == share.0@,
            Some(i) => if store::state_of(db.shares@[i].terminal_state) == ShareState::Live {
                r matches RefreshStart::Ask(before) && store::presents(db.shares@[i], before)
            } else {
                r is Nothing
            },
        },
{
    match self::share(db, share.as_str()) {
        None => RefreshStart::NoSuchShare(SdkError::NoSuchShare(text::copied(share.as_str()))),
        Some(before) => {
            if before.state != ShareState::Live {
                RefreshStart::Nothing
            } else {
                RefreshStart::Ask(before)
            }
        },
    }
}

/// Whether two copies of a share say the same.
pub open spec fn same_share(a: Share, b: Share) -> bool {
    &&& a.id.0@ == b.id.0@
    &&& a.name@ == b.name@
    &&& a.label@ == b.label@
    &&& a.transport == b.transport
    &&& store::same_apps(a.apps@, b.apps@)
    &&& a.state == b.state
    &&& a.joined_at == b.joined_at
}

fn is_same_share(a: &Share, b: &Share) -> (r: bool)
    ensures
        r == same_share(*a, *b),
{
    if a.apps.len() != b.apps.len() || a.transport != b.transport || a.state != b.state
        || a.joined_at != b.joined_at {
        return false;
    }
    if !text::same_text(a.id.0.as_str(), b.id.0.as_str()) || !text::same_text(
        a.name.as_str(),
        b.name.as_str(),
    ) || !text::same_text(a.label.as_str(), b.label.as_str()) {
        return false;
    }
    let mut i: usize = 0;
    while i < a.apps.len()
        invariant
            i <= a.apps@.len(),
            a.apps@.len() == b.apps@.len(),
            forall|j: int| 0 <= j < i ==> store::same_app(#[trigger] a.apps@[j], b.apps@[j]),
        decreases a.apps@.len() - i,
    {
        if a.apps[i].kind != b.apps[i].kind || !text::same_text(
            a.apps[i].id.as_str(),
            b.apps[i].id.as_str(),
        ) || !text::same_text(a.apps[i].name.as_str(), b.apps[i].name.as_str()) {
            assert(!store::same_app(a.apps@[i as int], b.apps@[i as int]));
            return false;
        }
        i = i + 1;
    }
    true
}

/// What a refresh comes to, by the copy before it, what asking the host came to (whether it
/// had news), and the copy after it. `Some` carries the share as it is now, which may also
/// mean that the host has turned this device away for good; `None` means nothing changed.
pub fn refreshed(before: &Share, asked: Result<bool, RefreshError>, after: Share) -> (r: Result<
    Option<Share>,
    SdkError,
>)
    ensures
        match asked {
            Ok(false) => r == Ok::<Option<Share>, SdkError>(None),
            Err(RefreshError::Transient(e)) => r == Err::<Option<Share>, SdkError>(
                SdkError::HostNode(e),
            ),
            _ => r == Ok::<Option<Share>, SdkError>(
                if same_share(*before, after) {
                    None
                } else {
                    Some(after)
                },
            ),
        },
{
    match asked {
        Ok(false) => {
            return Ok(None);
        },
        Ok(true) => {},
        Err(RefreshError::Terminal) => {},
        Err(RefreshError::Transient(e)) => {
            return Err(SdkError::HostNode(e));
        },
    }
    if is_same_share(before, &after) {
        Ok(None)
    } else {
        Ok(Some(after))
    }
}

/// Forgets a share that this device left.
pub fn leave(db: &mut DB, share: &ShareId) -> (r: Result<(), SdkError>)
    requires
        old(db).wf(),
    ensures
        final(db).wf(),
        match old(db).index_for(share.0@, 0) {
            None => *final(db) == *old(db) && (r matches Err(SdkError::NoSuchShare(s)) && s@
                == share.0@),
            Some(i) => r is Ok && final(db).last_id == old(db).last_id && final(db).shares@
                == old(db).shares@.remove(i) && operates(
                *old(db),
                StoreOp::Leave(Row { id: old(db).shares@[i].id }),
                *final(db),
            ),
        },
{
    match db.find_row(share.as_str()) {
        None => Err(SdkError::NoSuchShare(text::copied(share.as_str()))),
        Some(row) => {
            proof {
                lemma_found(*db, share.0@);
            }
            row.delete_row(db);
            Ok(())
        },
    }
}

//-- Where the apps are served ----------------------------------------------------
/// What to open for an app of a share on the proxy that routes by host name:
/// `http://<app>.<share>.localhost:<port>`.
pub fn host_routed_url(db: &DB, share: &ShareId, app_id: &str, port: u16) -> (r: Result<
    String,
    SdkError,
>)
    requires
        db.wf(),
    ensures
        match db.index_for(share.0@, 0) {
            None => r matches Err(SdkError::NoSuchShare(s)) && s@ == share.0@,
            Some(i) => r matches Ok(url) && url@ == "http://"@ + app_id@ + "."@ + text::text_or(
                db.shares@[i].hostname,
                ""@,
            ) + ".localhost:"@ + text::decimal(port as nat),
        },
{
    let no_such = match db.find_row(share.as_str()) {
        Some(row) => {
            proof {
                lemma_found(*db, share.0@);
            }
            row.read_names(db)
        },
        None => None,
    };
    match no_such {
        Some((_, _, label)) => {
            let mut out = text::copied("http://");
            out.append(app_id);
            out.append(".");
            out.append(label.as_str());
            out.append(".localhost:");
            text::push_decimal(&mut out, port as u64);
            Ok(out)
        },
        None => Err(SdkError::NoSuchShare(text::copied(share.as_str()))),
    }
}

/// What to open for an app on its own port: a literal address, so no name resolution is
/// involved.
pub fn per_app_url(port: u16) -> (r: String)
    ensures
        r@ == "http://127.0.0.1:"@ + text::decimal(port as nat),
{
    let mut out = text::copied("http://127.0.0.1:");
    text::push_decimal(&mut out, port as u64);
    out
}

/// Which port to bind for an app on its first use.
#[derive(Clone, Copy, Debug, PartialEq, Eq, Structural)]
pub enum PortStep {
    /// Try to bind this one: the remembered port, if it is still free.
    Try(u16),
    /// Bind any free port.
    Any,
    /// The app is served on this port.
    Bound(u16),
}

/// What is known about binding an app's port.
#[derive(Clone, Copy, Debug, PartialEq, Eq, Structural)]
pub enum PortEvent {
    /// The app's URL is asked for, for the first time.
    Asked,
    /// The remembered port could be bound.
    RememberedBound(u16),
    /// The remembered port is not free any more.
    RememberedTaken,
    /// A free port was bound.
    AnyBound(u16),
}

/// Takes the binding of an app's port a step further: the remembered port if it is still
/// free, else a new one, which is then remembered.
pub fn app_port(db: &mut DB, row: &Row, app_id: &str, event: PortEvent) -> (r: Result<
    PortStep,
    StoreError,
>)
    requires
        old(db).wf(),
    ensures
        final(db).wf(),
        match event {
            PortEvent::Asked => *final(db) == *old(db) && r == Ok::<PortStep, StoreError>(
                match row.of(*old(db)) {
                    Some(a) => match store::port_of(a.ports@, app_id@) {
                        Some(port) => PortStep::Try(port),
                        None => PortStep::Any,
                    },
                    None => PortStep::Any,
                },
            ),
            PortEvent::RememberedBound(port) => *final(db) == *old(db) && r == Ok::<
                PortStep,
                StoreError,
            >(PortStep::Bound(port)),
            PortEvent::RememberedTaken => *final(db) == *old(db) && r == Ok::<PortStep, StoreError>(
                PortStep::Any,
            ),
            PortEvent::AnyBound(port) => match store::row_at(old(db).shares@, row.id) {
                Some(i) => {
                    let a = old(db).shares@[i];
                    let b = final(db).shares@[i];
                    &&& r == Ok::<PortStep, StoreError>(PortStep::Bound(port))
                    &&& old(db).same_but(*final(db), i)
                    &&& b == (ShareRow { ports: b.ports, ..a })
                    &&& store::port_of(b.ports@, app_id@) == Some(port)
                    &&& forall|k: Seq<char>|
                        k != app_id@ ==> #[trigger] store::port_of(b.ports@, k) == store::port_of(
                            a.ports@,
                            k,
                        )
                },
                None => r == Err::<PortStep, StoreError>(StoreError::Orphan) && *final(db)
                    == *old(db),
            },
        },
        event is AnyBound ==> operates(*old(db), StoreOp::Port(*row), *final(db)),
{
    match event {
        PortEvent::Asked => match row.read_app_port(db, app_id) {
            Some(port) => Ok(PortStep::Try(port)),
            None => Ok(PortStep::Any),
        },
        PortEvent::RememberedBound(port) => Ok(PortStep::Bound(port)),
        PortEvent::RememberedTaken => Ok(PortStep::Any),
        PortEvent::AnyBound(port) => match row.write_app_port(db, app_id, port) {
            Ok(()) => Ok(PortStep::Bound(port)),
            Err(e) => Err(e),
        },
    }
}

//-- Names and copies -------------------------------------------------------------
/// A label is made of a name without its apostrophes, straight or curly, and with everything
/// else that the name has.
pub proof fn apostrophes_are_left_out(name: Seq<char>)
    ensures
        without_apostrophes(name) == name.filter(|c: char| c != '\'' && c != '\u{2019}'),
    decreases name.len(),
{
    reveal(Seq::filter);
    if name.len() > 0 {
        apostrophes_are_left_out(name.drop_last());
    }
}

/// A label is what a slug starts with: all of it where that fits into 63 characters, and
/// otherwise as much as does, without a dash at the end.
pub proof fn labels_are_what_slugs_start_with(slug: Seq<char>)
    ensures
        label_of_slug(slug) matches Some(label) ==> {
            &&& 1 <= label.len() <= 63
            &&& label == slug.take(label.len() as int)
            &&& label.last() != '-'
            &&& forall|i: int| label.len() <= i < slug.len() && i < 63 ==> #[trigger] slug[i] == '-'
        },
        label_of_slug(slug) is None ==> forall|i: int|
            0 <= i < slug.len() && i < 63 ==> #[trigger] slug[i] == '-',
{
    let cut = if slug.len() > 63 {
        slug.take(63)
    } else {
        slug
    };
    text::trimming_the_end_takes_one_character(cut, '-');
    let label = text::trim_end_of(cut, '-');
    assert(label =~= slug.take(label.len() as int));
    assert forall|i: int| label.len() <= i < slug.len() && i < 63 implies #[trigger] slug[i]
        == '-' by {
        assert(cut[i] == slug[i]);
    }
}

/// A share that is joined has the name that its host gives, or its ID where that is empty, and
/// asks for the label of that name, or its ID where there is none.
pub proof fn shares_are_named_by_their_host(info: ShareInfo, share_id: Seq<char>)
    ensures
        joined_name(info, share_id) == if info.name@.len() > 0 {
            info.name@
        } else {
            share_id
        },
        wanted_label(info, share_id) == match slug_of(joined_name(info, share_id)) {
            Some(label) => label,
            None => share_id,
        },
        slug_of(info.name@) == label_of_slug(slugified(without_apostrophes(info.name@))),
{
}

/// Recording a join stores what the host said: the name, the hash and every app, with the
/// label that was claimed; the share is then joined. What makes it up otherwise stays.
pub proof fn joins_record_what_the_host_said(
    a: ShareRow,
    b: ShareRow,
    info: ShareInfo,
    label: Seq<char>,
)
    requires
        join_recorded(a, b, info, label),
    ensures
        b.complete,
        b.display_name matches Some(name) && name@ == (if info.name@.len() > 0 {
            info.name@
        } else {
            a.share_id.0@
        }),
        b.config_hash matches Some(hash) && hash@ == info.config_hash.digits(),
        b.hostname matches Some(h) && h@ == label,
        b.apps@.len() == info.apps@.len(),
        forall|i: int|
            0 <= i < info.apps@.len() ==> {
                &&& (#[trigger] b.apps@[i]).id@ == info.apps@[i].id@
                &&& b.apps@[i].name@ == info.apps@[i].name@
                &&& b.apps@[i].kind == info.apps@[i].kind
            },
        b.id == a.id && b.share_id == a.share_id && b.transport == a.transport,
        b.wispers_connect_backend == a.wispers_connect_backend && b.iroh_endpoint_id
            == a.iroh_endpoint_id,
        b.created_at == a.created_at && b.terminal_state == a.terminal_state && b.ports == a.ports,
{
    assert forall|i: int| 0 <= i < info.apps@.len() implies {
        &&& (#[trigger] b.apps@[i]).id@ == info.apps@[i].id@
        &&& b.apps@[i].name@ == info.apps@[i].name@
        &&& b.apps@[i].kind == info.apps@[i].kind
    } by {
        assert(store::same_app(info.apps@[i], b.apps@[i]));
    }
}

/// A refresh tells of every change: two copies of a share are the same only where they agree
/// in everything, each app included.
pub proof fn copies_are_the_same_only_where_they_agree(a: Share, b: Share)
    ensures
        same_share(a, b) <==> {
            &&& a.id.0@ == b.id.0@ && a.name@ == b.name@ && a.label@ == b.label@
            &&& a.transport == b.transport && a.state == b.state && a.joined_at == b.joined_at
            &&& a.apps@.len() == b.apps@.len()
            &&& forall|i: int|
                0 <= i < a.apps@.len() ==> {
                    &&& (#[trigger] a.apps@[i]).id@ == b.apps@[i].id@
                    &&& a.apps@[i].name@ == b.apps@[i].name@
                    &&& a.apps@[i].kind == b.apps@[i].kind
                }
        },
{
    if same_share(a, b) {
        assert forall|i: int| 0 <= i < a.apps@.len() implies {
            &&& (#[trigger] a.apps@[i]).id@ == b.apps@[i].id@
            &&& a.apps@[i].name@ == b.apps@[i].name@
            &&& a.apps@[i].kind == b.apps@[i].kind
        } by {
            assert(store::same_app(a.apps@[i], b.apps@[i]));
        }
    }
    if a.apps@.len() == b.apps@.len() && forall|i: int|
        0 <= i < a.apps@.len() ==> {
            &&& (#[trigger] a.apps@[i]).id@ == b.apps@[i].id@
            &&& a.apps@[i].name@ == b.apps@[i].name@
            &&& a.apps@[i].kind == b.apps@[i].kind
        } {
        assert forall|i: int| 0 <= i < a.apps@.len() implies store::same_app(
            #[trigger] a.apps@[i],
            b.apps@[i],
        ) by {}
    }
}

/// A share is dead exactly where what was recorded of it is one of the two final states.
pub proof fn final_states_end_a_share(row: ShareRow)
    ensures
        ended(row) == match row.terminal_state {
            Some(s) => if s@ == "removed"@ {
                Some(TerminalState::Removed)
            } else if s@ == "revoked"@ {
                Some(TerminalState::Revoked)
            } else {
                None
            },
            None => None,
        },
{
}

/// Recording a join fails for three reasons alone: the share is not in the store any more, two
/// of the apps have the same ID, or every label that the share could have is taken.
pub proof fn joins_fail_for_a_reason(db: DB, id: i64, info: ShareInfo, why: StoreError)
    requires
        join_fails(db, id, info, why),
    ensures
        why == StoreError::NoSuchRow <==> forall|i: int|
            0 <= i < db.shares@.len() ==> (#[trigger] db.shares@[i]).id != id,
        why == StoreError::NoSuchRow || why == StoreError::DuplicateApp || why
            == StoreError::LabelTaken,
        why == StoreError::DuplicateApp ==> exists|i: int, j: int|
            0 <= i < j < info.apps@.len() && (#[trigger] info.apps@[i]).id@ == (
            #[trigger] info.apps@[j]).id@,
        why == StoreError::LabelTaken ==> forall|i: int, j: int|
            0 <= i < j < info.apps@.len() ==> (#[trigger] info.apps@[i]).id@ != (
            #[trigger] info.apps@[j]).id@,
{
    store::lemma_row_at(db.shares@, id);
}

/// An error is told with what it is about.
pub proof fn errors_tell_what_they_are_about(what: String)
    ensures
        SdkError::InvalidInvite(what).text() == "invalid invite code: "@ + what@,
        SdkError::NoSuchShare(what).text() == "no share "@ + what@,
        SdkError::Storage(what).text() == what@,
        SdkError::HostNode(what).text() == what@,
        SdkError::Internal(what).text() == what@,
{
}

/// A share that is joined gets the label of its name, or that with a number behind it, or its
/// ID; never one that another share has.
pub proof fn joined_shares_get_the_label_of_their_name(
    db: DB,
    i: int,
    info: ShareInfo,
    label: Seq<char>,
)
    requires
        0 <= i < db.shares@.len(),
        joins_as(db, i, info, Some(label)),
    ensures
        ({
            let id = db.shares@[i].share_id.0@;
            let name = if info.name@.len() > 0 {
                info.name@
            } else {
                id
            };
            let wanted = match label_of_slug(slugified(without_apostrophes(name))) {
                Some(l) => l,
                None => id,
            };
            label == wanted || label == id || exists|n: nat|
                n >= 2 && label == wanted + "-"@ + #[trigger] text::decimal(n)
        }),
        forall|j: int|
            0 <= j < db.shares@.len() && j != i ==> !((
            #[trigger] db.shares@[j]).hostname matches Some(h) && h@ == label),
{
    let id = db.shares@[i].share_id.0@;
    let wanted = wanted_label(info, id);
    let n = choose|n: nat| #[trigger]
        labels::ends_at(db.labels(), i, wanted, id, Some(label), n);
    if n >= 2 && !labels::too_long(labels::candidate(wanted, n)) {
        assert(label == wanted + "-"@ + text::decimal(n));
    }
    assert forall|j: int| 0 <= j < db.shares@.len() && j != i implies !((
    #[trigger] db.shares@[j]).hostname matches Some(h) && h@ == label) by {
        assert(db.labels()[j] == db.shares@[j].hostname.deep_view());
    }
}

/// Where no label is left, the row has what the host said and is not joined.
pub proof fn joins_without_a_label_are_not_complete(a: ShareRow, b: ShareRow, info: ShareInfo)
    requires
        join_half_recorded(a, b, info),
    ensures
        b.complete == a.complete,
        b.hostname == a.hostname,
        b.display_name matches Some(name) && name@ == (if info.name@.len() > 0 {
            info.name@
        } else {
            a.share_id.0@
        }),
        b.config_hash matches Some(hash) && hash@ == info.config_hash.digits(),
        b.apps@.len() == info.apps@.len(),
{
}

} // verus!
