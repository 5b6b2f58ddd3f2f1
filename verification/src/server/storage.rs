//! Per-share storage.
//!
//! A share directory holds two files with two owners: `share.toml` (the user's,
//! see [`crate::server::config`]) and `state.db` (the daemon's). [`StateDb`] is
//! what the latter holds: key material and credentials, the invites, and the
//! guest nodes that they were redeemed into.
use crate::bytes;
use crate::server::config;
use crate::text;
use crate::wire::{ActivationError, InviteSecret};
use vstd::prelude::*;
use vstd::utf8::encode_utf8;

verus! {

#[derive(Clone, Debug, PartialEq, Eq)]
pub enum Error {
    Io(String),
    Config(config::Error),
    Db(String),
    Migration(String),
    InvalidName(String),
    NotInitialised(String),
    AlreadyExists(String),
    NoSuchGuest(i64),
    CorruptKey,
    NoConfigDir,
}

impl Error {
    pub open spec fn text(self) -> Seq<char> {
        match self {
            Error::Io(why) => "io error: "@ + why@,
            Error::Config(e) => e.deep_view().message(),
            Error::Db(why) => "state database: "@ + why@,
            Error::Migration(why) => "state database migration: "@ + why@,
            Error::InvalidName(name) => "invalid share name '"@ + name@
                + "' (use letters, digits, '-' or '_')"@,
            Error::NotInitialised(name) => "share "@ + name@ + " is not initialised"@,
            Error::AlreadyExists(name) => "share "@ + name@ + " already exists"@,
            Error::NoSuchGuest(n) => "no guest node number "@ + text::signed_decimal(n as int),
            Error::CorruptKey => "stored iroh key has the wrong length"@,
            Error::NoConfigDir => "could not determine the OS config directory"@,
        }
    }

    /// The message for the user.
    pub fn message(&self) -> (r: String)
        ensures
            r@ == self.text(),
    {
        let mut out = String::new();
        match self {
            Error::Io(why) => {
                out.append("io error: ");
                out.append(why.as_str());
            },
            Error::Config(e) => {
                out.append(e.message().as_str());
            },
            Error::Db(why) => {
                out.append("state database: ");
                out.append(why.as_str());
            },
            Error::Migration(why) => {
                out.append("state database migration: ");
                out.append(why.as_str());
            },
            Error::InvalidName(name) => {
                out.append("invalid share name '");
                out.append(name.as_str());
                out.append("' (use letters, digits, '-' or '_')");
            },
            Error::NotInitialised(name) => {
                out.append("share ");
                out.append(name.as_str());
                out.append(" is not initialised");
            },
            Error::AlreadyExists(name) => {
                out.append("share ");
                out.append(name.as_str());
                out.append(" already exists");
            },
            Error::NoSuchGuest(n) => {
                out.append("no guest node number ");
                text::push_signed(&mut out, *n);
            },
            Error::CorruptKey => {
                out.append("stored iroh key has the wrong length");
            },
            Error::NoConfigDir => {
                out.append("could not determine the OS config directory");
            },
        }
        assert(out@ =~= self.text());
        out
    }
}

//-- Share directory --------------------------------------------------------------
pub const STATE_DB_FILENAME: &'static str = "state.db";

/// Where a share's files are.
#[derive(Clone, Debug, PartialEq, Eq)]
pub struct ShareDir {
    pub name: String,
    pub dir: String,
}

/// An entry of the directory that holds the shares.
pub struct DirEntry {
    pub name: String,
    /// Whether there is a config file in it.
    pub has_config: bool,
}

/// The names of those of the first `n` entries that are shares.
pub open spec fn share_names(entries: Seq<DirEntry>, n: int) -> Seq<String>
    decreases n,
{
    if n <= 0 {
        Seq::empty()
    } else if entries[n - 1].has_config {
        share_names(entries, n - 1).push(entries[n - 1].name)
    } else {
        share_names(entries, n - 1)
    }
}

/// Names of the initialised shares, unsorted: the entries with a config file in
/// them.
pub fn list_shares(entries: Vec<DirEntry>) -> (r: Vec<String>)
    ensures
        r.deep_view() == share_names(entries@, entries@.len() as int).map_values(
            |s: String| s@,
        ),
{
    let mut out: Vec<String> = Vec::new();
    let mut i: usize = 0;
    let ghost names = |s: String| s@;
    assert(share_names(entries@, 0).map_values(names) =~= Seq::<Seq<char>>::empty());
    while i < entries.len()
        invariant
            i <= entries@.len(),
            names == (|s: String| s@),
            out.deep_view() == share_names(entries@, i as int).map_values(names),
        decreases entries@.len() - i,
    {
        if entries[i].has_config {
            let ghost before = out.deep_view();
            out.push(text::copied(entries[i].name.as_str()));
            assert(out.deep_view() =~= before.push(entries@[i as int].name@));
            assert(share_names(entries@, i + 1).map_values(names) =~= before.push(
                entries@[i as int].name@,
            ));
        }
        i = i + 1;
    }
    out
}

impl ShareDir {
    /// The directory of the share of that name, under the user's config directory.
    pub open spec fn path_of(config_dir: Seq<char>, name: Seq<char>) -> Seq<char> {
        config_dir + "/waserver/shares/"@ + name
    }

    /// Validates the name and computes the path, but touches nothing on disk.
    pub fn new(name: &str, config_dir: Option<String>) -> (r: Result<ShareDir, Error>)
        ensures
            match r {
                Ok(dir) => config::valid_id(name@) && config_dir is Some && dir.name@ == name@
                    && dir.dir@ == ShareDir::path_of(config_dir->0@, name@),
                Err(Error::InvalidName(n)) => !config::valid_id(name@) && n@ == name@,
                Err(e) => e == Error::NoConfigDir && config::valid_id(name@) && config_dir is None,
            },
    {
        if !config::is_valid_id(name) {
            return Err(Error::InvalidName(text::copied(name)));
        }
        match config_dir {
            None => Err(Error::NoConfigDir),
            Some(base) => {
                let mut dir = base;
                dir.append("/waserver/shares/");
                dir.append(name);
                Ok(ShareDir { name: text::copied(name), dir })
            },
        }
    }

    /// Where the share's config file is.
    pub fn config_path(&self) -> (r: String)
        ensures
            r@ == self.dir@ + "/"@ + config::FILENAME@,
    {
        let mut out = text::copied(self.dir.as_str());
        out.append("/");
        out.append(config::FILENAME);
        out
    }

    /// Where the share's state database is.
    pub fn state_path(&self) -> (r: String)
        ensures
            r@ == self.dir@ + "/"@ + STATE_DB_FILENAME@,
    {
        let mut out = text::copied(self.dir.as_str());
        out.append("/");
        out.append(STATE_DB_FILENAME);
        out
    }

    /// A share is created only where its directory is not there yet.
    pub fn create(&self, dir_exists: bool) -> (r: Result<(), Error>)
        ensures
            match r {
                Ok(()) => !dir_exists,
                Err(Error::AlreadyExists(n)) => dir_exists && n@ == self.name@,
                Err(_) => false,
            },
    {
        if dir_exists {
            Err(Error::AlreadyExists(text::copied(self.name.as_str())))
        } else {
            Ok(())
        }
    }

    /// The config of an initialised share, as its file reads: `file` is `None` where
    /// there is no such file.
    pub fn load_config(
        &self,
        file: Option<Result<config::ShareConfig, config::Error>>,
    ) -> (r: Result<config::ShareConfig, Error>)
        ensures
            match file {
                None => r matches Err(Error::NotInitialised(n)) && n@ == self.name@,
                Some(Err(e)) => r == Err::<config::ShareConfig, Error>(Error::Config(e)),
                Some(Ok(raw)) => match r {
                    Ok(cfg) => config::config_error(raw) is None && cfg.wf() && cfg.name == raw.name
                        && cfg.transport == raw.transport && cfg.apps@.len() == raw.apps@.len() && (
                    forall|i: int|
                        0 <= i < raw.apps@.len() ==> config::normalised(
                            #[trigger] raw.apps@[i],
                            cfg.apps@[i],
                        )),
                    Err(Error::Config(e)) => config::config_error(raw) == Some(e.deep_view()),
                    Err(_) => false,
                },
            },
    {
        match file {
            None => Err(Error::NotInitialised(text::copied(self.name.as_str()))),
            Some(Err(e)) => Err(Error::Config(e)),
            Some(Ok(raw)) => match config::ShareConfig::parse(raw) {
                Ok(cfg) => Ok(cfg),
                Err(e) => Err(Error::Config(e)),
            },
        }
    }

    /// Where to open the existing `state.db`: only in an initialised share.
    pub fn open_state(&self, config_exists: bool, state_exists: bool) -> (r: Result<String, Error>)
        ensures
            match r {
                Ok(path) => config_exists && state_exists && path@ == self.dir@ + "/"@
                    + STATE_DB_FILENAME@,
                Err(Error::NotInitialised(n)) => !(config_exists && state_exists) && n@
                    == self.name@,
                Err(_) => false,
            },
    {
        if !config_exists || !state_exists {
            return Err(Error::NotInitialised(text::copied(self.name.as_str())));
        }
        Ok(self.state_path())
    }
}

//-- Rows -------------------------------------------------------------------------
/// An invite to be recorded.
pub struct NewInvite {
    /// The invite secret sent to the invitee. We only store its SHA-256.
    pub secret: InviteSecret,
    /// The user ID that will later be sent to proxied web apps in the identity
    /// header.
    pub user_id: String,
    /// Display name of the guest node, used only on the host side.
    pub node_name: String,
    /// When the invite stops being redeemable, in Unix seconds.
    pub expires_at: i64,
}

/// An invite as recorded, for `status`. Times are in Unix seconds.
#[derive(Clone, Debug, PartialEq, Eq)]
pub struct InviteRow {
    pub id: i64,
    pub user_id: String,
    pub node_name: String,
    pub created_at: i64,
    pub expires_at: i64,
    pub consumed_at: Option<i64>,
}

/// A guest node - a transport identity bound to this share by redeeming an invite.
/// A revoked node keeps its row so its key is never bound again. Times are in Unix
/// seconds.
#[derive(Clone, Debug, PartialEq, Eq)]
pub struct GuestNode {
    /// How the CLI addresses it (`waserver revoke <share> <number>`).
    pub number: i64,
    /// The transport's stable identifier for the node.
    pub peer_id: String,
    /// The user identity associated with the node.
    pub user_id: String,
    /// The node's name, shown in status output (e.g. "Alice's phone").
    pub display_name: String,
    /// Time the invite was redeemed.
    pub activated_at: i64,
    /// Time the node last connected.
    pub last_seen_at: Option<i64>,
    /// Time the host revoked this node.
    pub revoked_at: Option<i64>,
}

/// A [`GuestNode`] with its texts as character sequences.
pub struct GuestNodeView {
    pub number: i64,
    pub peer_id: Seq<char>,
    pub user_id: Seq<char>,
    pub display_name: Seq<char>,
    pub activated_at: i64,
    pub last_seen_at: Option<i64>,
    pub revoked_at: Option<i64>,
}

impl DeepView for GuestNode {
    type V = GuestNodeView;

    open spec fn deep_view(&self) -> GuestNodeView {
        GuestNodeView {
            number: self.number,
            peer_id: self.peer_id@,
            user_id: self.user_id@,
            display_name: self.display_name@,
            activated_at: self.activated_at,
            last_seen_at: self.last_seen_at,
            revoked_at: self.revoked_at,
        }
    }
}

impl GuestNode {
    /// A copy of the node.
    pub fn copied(&self) -> (r: GuestNode)
        ensures
            r.deep_view() == self.deep_view(),
    {
        GuestNode {
            number: self.number,
            peer_id: text::copied(self.peer_id.as_str()),
            user_id: text::copied(self.user_id.as_str()),
            display_name: text::copied(self.display_name.as_str()),
            activated_at: self.activated_at,
            last_seen_at: self.last_seen_at,
            revoked_at: self.revoked_at,
        }
    }
}

/// An [`InviteRow`] with its texts as character sequences.
pub struct InviteRowView {
    pub id: i64,
    pub user_id: Seq<char>,
    pub node_name: Seq<char>,
    pub created_at: i64,
    pub expires_at: i64,
    pub consumed_at: Option<i64>,
}

impl DeepView for InviteRow {
    type V = InviteRowView;

    open spec fn deep_view(&self) -> InviteRowView {
        InviteRowView {
            id: self.id,
            user_id: self.user_id@,
            node_name: self.node_name@,
            created_at: self.created_at,
            expires_at: self.expires_at,
            consumed_at: self.consumed_at,
        }
    }
}

impl InviteRow {
    /// A copy of the row.
    pub fn copied(&self) -> (r: InviteRow)
        ensures
            r.deep_view() == self.deep_view(),
    {
        InviteRow {
            id: self.id,
            user_id: text::copied(self.user_id.as_str()),
            node_name: text::copied(self.node_name.as_str()),
            created_at: self.created_at,
            expires_at: self.expires_at,
            consumed_at: self.consumed_at,
        }
    }
}

/// A row of the invite table: the invite, and the hash of its secret.
#[derive(Clone, Debug, PartialEq, Eq)]
pub struct InviteRecord {
    pub secret_hash: [u8; 32],
    pub row: InviteRow,
}

/// A row of the guest table: the guest, and the invite that it redeemed.
#[derive(Clone, Debug, PartialEq, Eq)]
pub struct GuestRecord {
    pub node: GuestNode,
    pub invite_id: i64,
}

/// A row of the table of daemon-owned blobs.
#[derive(Clone, Debug, PartialEq, Eq)]
pub struct KvRow {
    pub key: String,
    pub value: Vec<u8>,
}

/// The outcome of redeeming an invite.
#[derive(Debug, PartialEq, Eq)]
pub enum Redemption {
    Activated(GuestNode),
    Refused(ActivationError),
}

/// What `state.db` holds.
pub struct StateDb {
    pub kv: Vec<KvRow>,
    /// The invites, by ascending ID.
    pub invites: Vec<InviteRecord>,
    /// The guest nodes, by ascending number.
    pub guests: Vec<GuestRecord>,
}

//-- The state's invariant --------------------------------------------------------
/// Where the guest of that peer ID stands.
pub open spec fn guest_of_peer(guests: Seq<GuestRecord>, peer_id: Seq<char>) -> Option<int>
    decreases guests.len(),
{
    if guests.len() == 0 {
        None
    } else if guests.last().node.peer_id@ == peer_id {
        Some(guests.len() - 1)
    } else {
        guest_of_peer(guests.drop_last(), peer_id)
    }
}

/// Where the guest of that number stands.
pub open spec fn guest_of_number(guests: Seq<GuestRecord>, number: i64) -> Option<int>
    decreases guests.len(),
{
    if guests.len() == 0 {
        None
    } else if guests.last().node.number == number {
        Some(guests.len() - 1)
    } else {
        guest_of_number(guests.drop_last(), number)
    }
}

/// Where the invite of that secret's hash stands.
pub open spec fn invite_of_hash(invites: Seq<InviteRecord>, hash: Seq<u8>) -> Option<int>
    decreases invites.len(),
{
    if invites.len() == 0 {
        None
    } else if invites.last().secret_hash@ == hash {
        Some(invites.len() - 1)
    } else {
        invite_of_hash(invites.drop_last(), hash)
    }
}

/// Where the invite of that ID stands.
pub open spec fn invite_of_id(invites: Seq<InviteRecord>, id: i64) -> Option<int>
    decreases invites.len(),
{
    if invites.len() == 0 {
        None
    } else if invites.last().row.id == id {
        Some(invites.len() - 1)
    } else {
        invite_of_id(invites.drop_last(), id)
    }
}

pub(crate) proof fn lemma_guest_of_peer(guests: Seq<GuestRecord>, peer_id: Seq<char>)
    ensures
        match guest_of_peer(guests, peer_id) {
            Some(i) => 0 <= i < guests.len() && guests[i].node.peer_id@ == peer_id && (forall|
                j: int,
            |
                i < j < guests.len() ==> (#[trigger] guests[j]).node.peer_id@ != peer_id),
            None => forall|j: int|
                0 <= j < guests.len() ==> (#[trigger] guests[j]).node.peer_id@ != peer_id,
        },
    decreases guests.len(),
{
    if guests.len() > 0 && guests.last().node.peer_id@ != peer_id {
        lemma_guest_of_peer(guests.drop_last(), peer_id);
        assert(forall|j: int|
            0 <= j < guests.len() - 1 ==> #[trigger] guests[j] == guests.drop_last()[j]);
    }
}

pub(crate) proof fn lemma_guest_of_number(guests: Seq<GuestRecord>, number: i64)
    ensures
        match guest_of_number(guests, number) {
            Some(i) => 0 <= i < guests.len() && guests[i].node.number == number && (forall|j: int|
                i < j < guests.len() ==> (#[trigger] guests[j]).node.number != number),
            None => forall|j: int|
                0 <= j < guests.len() ==> (#[trigger] guests[j]).node.number != number,
        },
    decreases guests.len(),
{
    if guests.len() > 0 && guests.last().node.number != number {
        lemma_guest_of_number(guests.drop_last(), number);
        assert(forall|j: int|
            0 <= j < guests.len() - 1 ==> #[trigger] guests[j] == guests.drop_last()[j]);
    }
}

pub(crate) proof fn lemma_invite_of_hash(invites: Seq<InviteRecord>, hash: Seq<u8>)
    ensures
        match invite_of_hash(invites, hash) {
            Some(i) => 0 <= i < invites.len() && invites[i].secret_hash@ == hash && (forall|j: int|
                i < j < invites.len() ==> (#[trigger] invites[j]).secret_hash@ != hash),
            None => forall|j: int|
                0 <= j < invites.len() ==> (#[trigger] invites[j]).secret_hash@ != hash,
        },
    decreases invites.len(),
{
    if invites.len() > 0 && invites.last().secret_hash@ != hash {
        lemma_invite_of_hash(invites.drop_last(), hash);
        assert(forall|j: int|
            0 <= j < invites.len() - 1 ==> #[trigger] invites[j] == invites.drop_last()[j]);
    }
}

pub(crate) proof fn lemma_invite_of_id(invites: Seq<InviteRecord>, id: i64)
    ensures
        match invite_of_id(invites, id) {
            Some(i) => 0 <= i < invites.len() && invites[i].row.id == id && (forall|j: int|
                i < j < invites.len() ==> (#[trigger] invites[j]).row.id != id),
            None => forall|j: int|
                0 <= j < invites.len() ==> (#[trigger] invites[j]).row.id != id,
        },
    decreases invites.len(),
{
    if invites.len() > 0 && invites.last().row.id != id {
        lemma_invite_of_id(invites.drop_last(), id);
        assert(forall|j: int|
            0 <= j < invites.len() - 1 ==> #[trigger] invites[j] == invites.drop_last()[j]);
    }
}

/// The invite table's own rules: IDs count up from one, and no secret is recorded
/// twice.
pub open spec fn invites_ok(invites: Seq<InviteRecord>) -> bool {
    &&& forall|i: int| 0 <= i < invites.len() ==> (#[trigger] invites[i]).row.id >= 1
    &&& forall|i: int, j: int|
        0 <= i < j < invites.len() ==> (#[trigger] invites[i]).row.id < (
        #[trigger] invites[j]).row.id
    &&& forall|i: int, j: int|
        0 <= i < j < invites.len() ==> (#[trigger] invites[i]).secret_hash@ != (
        #[trigger] invites[j]).secret_hash@
}

/// The guest table's own rules: numbers count up from one, no peer is bound twice,
/// and no invite is redeemed into two guests.
pub open spec fn guests_ok(guests: Seq<GuestRecord>) -> bool {
    &&& forall|i: int| 0 <= i < guests.len() ==> (#[trigger] guests[i]).node.number >= 1
    &&& forall|i: int, j: int|
        0 <= i < j < guests.len() ==> (#[trigger] guests[i]).node.number < (
        #[trigger] guests[j]).node.number
    &&& forall|i: int, j: int|
        0 <= i < j < guests.len() ==> (#[trigger] guests[i]).node.peer_id@ != (
        #[trigger] guests[j]).node.peer_id@
    &&& forall|i: int, j: int|
        0 <= i < j < guests.len() ==> (#[trigger] guests[i]).invite_id != (
        #[trigger] guests[j]).invite_id
}

/// Whether a guest's invite is in the table, and consumed.
pub open spec fn redeemed(invites: Seq<InviteRecord>, guest: GuestRecord) -> bool {
    match invite_of_id(invites, guest.invite_id) {
        Some(k) => invites[k].row.consumed_at is Some,
        None => false,
    }
}

/// No key stands twice.
pub open spec fn kv_ok(kv: Seq<KvRow>) -> bool {
    forall|i: int, j: int|
        0 <= i < j < kv.len() ==> (#[trigger] kv[i]).key@ != (#[trigger] kv[j]).key@
}

impl StateDb {
    /// What holds of every state database: the tables' own rules, and every guest
    /// has redeemed a recorded invite, which is consumed.
    pub open spec fn wf(self) -> bool {
        &&& kv_ok(self.kv@)
        &&& invites_ok(self.invites@)
        &&& guests_ok(self.guests@)
        &&& forall|g: int|
            0 <= g < self.guests@.len() ==> redeemed(self.invites@, #[trigger] self.guests@[g])
    }

    /// An empty database.
    pub fn open_in_memory() -> (r: StateDb)
        ensures
            r.wf(),
            r.kv@.len() == 0,
            r.invites@.len() == 0,
            r.guests@.len() == 0,
    {
        StateDb { kv: Vec::new(), invites: Vec::new(), guests: Vec::new() }
    }

    fn find_peer(&self, peer_id: &str) -> (r: Option<usize>)
        ensures
            match r {
                Some(i) => guest_of_peer(self.guests@, peer_id@) == Some(i as int) && i
                    < self.guests@.len(),
                None => guest_of_peer(self.guests@, peer_id@) is None,
            },
    {
        let mut i: usize = self.guests.len();
        assert(self.guests@.take(i as int) =~= self.guests@);
        while i > 0
            invariant
                i <= self.guests@.len(),
                guest_of_peer(self.guests@, peer_id@) == guest_of_peer(
                    self.guests@.take(i as int),
                    peer_id@,
                ),
            decreases i,
        {
            assert(self.guests@.take(i as int).drop_last() =~= self.guests@.take(i - 1));
            i = i - 1;
            if text::same_text(self.guests[i].node.peer_id.as_str(), peer_id) {
                return Some(i);
            }
        }
        None
    }

    fn find_number(&self, number: i64) -> (r: Option<usize>)
        ensures
            match r {
                Some(i) => guest_of_number(self.guests@, number) == Some(i as int) && i
                    < self.guests@.len(),
                None => guest_of_number(self.guests@, number) is None,
            },
    {
        let mut i: usize = self.guests.len();
        assert(self.guests@.take(i as int) =~= self.guests@);
        while i > 0
            invariant
                i <= self.guests@.len(),
                guest_of_number(self.guests@, number) == guest_of_number(
                    self.guests@.take(i as int),
                    number,
                ),
            decreases i,
        {
            assert(self.guests@.take(i as int).drop_last() =~= self.guests@.take(i - 1));
            i = i - 1;
            if self.guests[i].node.number == number {
                return Some(i);
            }
        }
        None
    }

    fn find_hash(&self, hash: &[u8; 32]) -> (r: Option<usize>)
        ensures
            match r {
                Some(i) => invite_of_hash(self.invites@, hash@) == Some(i as int) && i
                    < self.invites@.len(),
                None => invite_of_hash(self.invites@, hash@) is None,
            },
    {
        let mut i: usize = self.invites.len();
        assert(self.invites@.take(i as int) =~= self.invites@);
        while i > 0
            invariant
                i <= self.invites@.len(),
                invite_of_hash(self.invites@, hash@) == invite_of_hash(
                    self.invites@.take(i as int),
                    hash@,
                ),
            decreases i,
        {
            assert(self.invites@.take(i as int).drop_last() =~= self.invites@.take(i - 1));
            i = i - 1;
            if bytes::same_bytes(self.invites[i].secret_hash.as_slice(), hash.as_slice()) {
                return Some(i);
            }
        }
        None
    }

    fn find_id(&self, id: i64) -> (r: Option<usize>)
        ensures
            match r {
                Some(i) => invite_of_id(self.invites@, id) == Some(i as int) && i
                    < self.invites@.len(),
                None => invite_of_id(self.invites@, id) is None,
            },
    {
        let mut i: usize = self.invites.len();
        assert(self.invites@.take(i as int) =~= self.invites@);
        while i > 0
            invariant
                i <= self.invites@.len(),
                invite_of_id(self.invites@, id) == invite_of_id(self.invites@.take(i as int), id),
            decreases i,
        {
            assert(self.invites@.take(i as int).drop_last() =~= self.invites@.take(i - 1));
            i = i - 1;
            if self.invites[i].row.id == id {
                return Some(i);
            }
        }
        None
    }
}

//-- Loading ----------------------------------------------------------------------
fn check_kv(kv: &Vec<KvRow>) -> (r: bool)
    ensures
        r == kv_ok(kv@),
{
    let mut j: usize = 0;
    while j < kv.len()
        invariant
            j <= kv@.len(),
            kv_ok(kv@.take(j as int)),
        decreases kv@.len() - j,
    {
        let mut i: usize = 0;
        while i < j
            invariant
                i <= j < kv@.len(),
                forall|a: int| 0 <= a < i ==> (#[trigger] kv@[a]).key@ != kv@[j as int].key@,
            decreases j - i,
        {
            if text::same_text(kv[i].key.as_str(), kv[j].key.as_str()) {
                assert(kv@[i as int].key@ == kv@[j as int].key@);
                return false;
            }
            i = i + 1;
        }
        assert forall|a: int, b: int| 0 <= a < b < j + 1 implies (#[trigger] kv@.take(
            j + 1,
        )[a]).key@ != (#[trigger] kv@.take(j + 1)[b]).key@ by {
            if b < j {
                assert(kv@.take(j as int)[a].key@ != kv@.take(j as int)[b].key@);
            }
        }
        j = j + 1;
    }
    assert(kv@.take(kv@.len() as int) =~= kv@);
    true
}

fn check_invites(v: &Vec<InviteRecord>) -> (r: bool)
    ensures
        r == invites_ok(v@),
{
    let mut j: usize = 0;
    while j < v.len()
        invariant
            j <= v@.len(),
            invites_ok(v@.take(j as int)),
        decreases v@.len() - j,
    {
        if v[j].row.id < 1 {
            assert(v@[j as int].row.id < 1);
            return false;
        }
        let mut i: usize = 0;
        while i < j
            invariant
                i <= j < v@.len(),
                forall|a: int|
                    0 <= a < i ==> (#[trigger] v@[a]).row.id < v@[j as int].row.id
                        && v@[a].secret_hash@ != v@[j as int].secret_hash@,
            decreases j - i,
        {
            if v[i].row.id >= v[j].row.id || bytes::same_bytes(
                v[i].secret_hash.as_slice(),
                v[j].secret_hash.as_slice(),
            ) {
                assert(v@[i as int].row.id >= v@[j as int].row.id || v@[i as int].secret_hash@
                    == v@[j as int].secret_hash@);
                return false;
            }
            i = i + 1;
        }
        let ghost t = v@.take(j + 1);
        assert forall|a: int, b: int| 0 <= a < b < t.len() implies (#[trigger] t[a]).row.id < (
        #[trigger] t[b]).row.id && t[a].secret_hash@ != t[b].secret_hash@ by {
            if b < j {
                assert(v@.take(j as int)[a].row.id < v@.take(j as int)[b].row.id);
            }
        }
        assert forall|a: int| 0 <= a < t.len() implies (#[trigger] t[a]).row.id >= 1 by {
            if a < j {
                assert(v@.take(j as int)[a].row.id >= 1);
            }
        }
        j = j + 1;
    }
    assert(v@.take(v@.len() as int) =~= v@);
    true
}

fn check_guests(v: &Vec<GuestRecord>) -> (r: bool)
    ensures
        r == guests_ok(v@),
{
    let mut j: usize = 0;
    while j < v.len()
        invariant
            j <= v@.len(),
            guests_ok(v@.take(j as int)),
        decreases v@.len() - j,
    {
        if v[j].node.number < 1 {
            assert(v@[j as int].node.number < 1);
            return false;
        }
        let mut i: usize = 0;
        while i < j
            invariant
                i <= j < v@.len(),
                forall|a: int|
                    0 <= a < i ==> (#[trigger] v@[a]).node.number < v@[j as int].node.number
                        && v@[a].node.peer_id@ != v@[j as int].node.peer_id@ && v@[a].invite_id
                        != v@[j as int].invite_id,
            decreases j - i,
        {
            if v[i].node.number >= v[j].node.number || v[i].invite_id == v[j].invite_id
                || text::same_text(v[i].node.peer_id.as_str(), v[j].node.peer_id.as_str()) {
                assert(v@[i as int].node.number >= v@[j as int].node.number || v@[i as int].invite_id
                    == v@[j as int].invite_id || v@[i as int].node.peer_id@
                    == v@[j as int].node.peer_id@);
                return false;
            }
            i = i + 1;
        }
        let ghost t = v@.take(j + 1);
        assert forall|a: int, b: int| 0 <= a < b < t.len() implies (#[trigger] t[a]).node.number < (
        #[trigger] t[b]).node.number && t[a].node.peer_id@ != t[b].node.peer_id@ && t[a].invite_id
            != t[b].invite_id by {
            if b < j {
                assert(v@.take(j as int)[a].node.number < v@.take(j as int)[b].node.number);
            }
        }
        assert forall|a: int| 0 <= a < t.len() implies (#[trigger] t[a]).node.number >= 1 by {
            if a < j {
                assert(v@.take(j as int)[a].node.number >= 1);
            }
        }
        j = j + 1;
    }
    assert(v@.take(v@.len() as int) =~= v@);
    true
}

impl StateDb {
    /// Takes up the tables as a database file holds them. There is no state where
    /// they break a rule that the file's schema and the operations below keep.
    pub fn from_rows(
        kv: Vec<KvRow>,
        invites: Vec<InviteRecord>,
        guests: Vec<GuestRecord>,
    ) -> (r: Option<StateDb>)
        ensures
            match r {
                Some(db) => db.wf() && db == (StateDb { kv, invites, guests }),
                None => !(StateDb { kv, invites, guests }).wf(),
            },
    {
        let db = StateDb { kv, invites, guests };
        if !check_kv(&db.kv) || !check_invites(&db.invites) || !check_guests(&db.guests) {
            return None;
        }
        let mut g: usize = 0;
        while g < db.guests.len()
            invariant
                g <= db.guests@.len(),
                db == (StateDb { kv, invites, guests }),
                forall|i: int| 0 <= i < g ==> redeemed(db.invites@, #[trigger] db.guests@[i]),
            decreases db.guests@.len() - g,
        {
            let used = match db.find_id(db.guests[g].invite_id) {
                Some(k) => db.invites[k].row.consumed_at.is_some(),
                None => false,
            };
            if !used {
                assert(!redeemed(db.invites@, db.guests@[g as int]));
                return None;
            }
            g = g + 1;
        }
        Some(db)
    }
}

//-- Invites ----------------------------------------------------------------------
/// `sha2::Sha256::digest`: the SHA-256 digest of `data`.
pub uninterp spec fn sha256_digest(data: Seq<u8>) -> Seq<u8>;

/// `sha2::Sha256::digest`. The digest is thirty-two bytes, and depends on the bytes
/// of `data` alone.
#[verifier::external_body]
fn sha256(data: &[u8]) -> (r: [u8; 32])
    ensures
        r@ == sha256_digest(data@),
{
    <sha2::Sha256 as sha2::Digest>::digest(data).into()
}

/// What is stored of an invite's secret: its SHA-256.
pub fn hash_secret(secret: &InviteSecret) -> (r: [u8; 32])
    ensures
        r@ == sha256_digest(secret.0@),
{
    sha256(secret.0.as_slice())
}

/// The IDs of the invites.
pub open spec fn invite_ids(invites: Seq<InviteRecord>) -> Seq<i64> {
    invites.map_values(|i: InviteRecord| i.row.id)
}

/// The numbers of the guests.
pub open spec fn guest_numbers(guests: Seq<GuestRecord>) -> Seq<i64> {
    guests.map_values(|g: GuestRecord| g.node.number)
}

/// Where IDs that count up from one leave out the first, looking from there on.
pub open spec fn first_gap(ids: Seq<i64>, from: int) -> int
    decreases ids.len() - from,
{
    if 0 <= from < ids.len() && ids[from] == from + 1 {
        first_gap(ids, from + 1)
    } else {
        from
    }
}

/// Where the next row of a table goes: behind the others, or into the first gap once the
/// largest ID there is is in use.
pub open spec fn next_place(ids: Seq<i64>) -> int {
    if ids.len() == 0 || ids.last() < i64::MAX {
        ids.len() as int
    } else {
        first_gap(ids, 0)
    }
}

/// The ID that the next row of a table gets: one more than the largest in use, or one in an
/// empty table. Once the largest there is is in use, the smallest that is free.
pub open spec fn next_id(ids: Seq<i64>) -> int {
    if ids.len() == 0 {
        1
    } else if ids.last() < i64::MAX {
        ids.last() + 1
    } else {
        first_gap(ids, 0) + 1
    }
}

/// Whether every ID is in use.
pub open spec fn used_up(ids: Seq<i64>) -> bool {
    ids.len() > 0 && ids.last() == i64::MAX && first_gap(ids, 0) >= ids.len()
}

/// Whether IDs count up, from one or later.
pub open spec fn counts_up(ids: Seq<i64>) -> bool {
    &&& forall|i: int| 0 <= i < ids.len() ==> #[trigger] ids[i] >= 1
    &&& forall|i: int, j: int| 0 <= i < j < ids.len() ==> #[trigger] ids[i] < #[trigger] ids[j]
}

proof fn lemma_first_gap(ids: Seq<i64>, from: int)
    requires
        counts_up(ids),
        0 <= from <= ids.len(),
        forall|i: int| 0 <= i < from ==> #[trigger] ids[i] == i + 1,
    ensures
        from <= first_gap(ids, from) <= ids.len(),
        forall|i: int| 0 <= i < first_gap(ids, from) ==> #[trigger] ids[i] == i + 1,
        forall|i: int|
            first_gap(ids, from) <= i < ids.len() ==> #[trigger] ids[i] > first_gap(ids, from) + 1,
    decreases ids.len() - from,
{
    if from < ids.len() {
        if ids[from] == from + 1 {
            lemma_first_gap(ids, from + 1);
        } else {
            if from > 0 {
                assert(ids[from - 1] < ids[from]);
            }
            assert forall|i: int| from <= i < ids.len() implies #[trigger] ids[i] > from + 1 by {
                if i > from {
                    assert(ids[from] < ids[i]);
                }
            }
        }
    }
}

/// The next ID is free, and its place is where it belongs.
proof fn lemma_next_place(ids: Seq<i64>)
    requires
        counts_up(ids),
        !used_up(ids),
    ensures
        0 <= next_place(ids) <= ids.len(),
        1 <= next_id(ids) <= i64::MAX,
        forall|i: int| 0 <= i < next_place(ids) ==> #[trigger] ids[i] < next_id(ids),
        forall|i: int| next_place(ids) <= i < ids.len() ==> #[trigger] ids[i] > next_id(ids),
{
    lemma_first_gap(ids, 0);
    if ids.len() > 0 {
        let last = ids.len() - 1;
        assert forall|i: int| 0 <= i < ids.len() implies #[trigger] ids[i] <= ids.last() by {
            if i < last {
                assert(ids[i] < ids[last]);
            }
        }
        if ids.last() == i64::MAX {
            assert(ids[last] > first_gap(ids, 0) + 1);
        }
    }
}

/// Where the next row goes, and its ID.
fn free_id(ids: &Vec<i64>) -> (r: Option<(usize, i64)>)
    requires
        counts_up(ids@),
    ensures
        match r {
            Some((p, id)) => !used_up(ids@) && p == next_place(ids@) && id == next_id(ids@),
            None => used_up(ids@),
        },
{
    let n: usize = ids.len();
    if n == 0 {
        return Some((0, 1));
    }
    let last: i64 = ids[n - 1];
    if last < i64::MAX {
        return Some((n, last + 1));
    }
    let mut p: usize = 0;
    proof {
        lemma_first_gap(ids@, 0);
    }
    while p < n && ids[p] as u64 == p as u64 + 1
        invariant
            counts_up(ids@),
            n == ids@.len(),
            p <= n,
            first_gap(ids@, 0) == first_gap(ids@, p as int),
        decreases n - p,
    {
        p = p + 1;
    }
    if p < n {
        Some((p, (p + 1) as i64))
    } else {
        None
    }
}

proof fn lemma_numbers(guests: Seq<GuestRecord>)
    requires
        guests_ok(guests),
    ensures
        counts_up(guest_numbers(guests)),
        forall|i: int|
            0 <= i < guests.len() ==> #[trigger] guest_numbers(guests)[i] == guests[i].node.number,
{
}

proof fn lemma_ids(invites: Seq<InviteRecord>)
    requires
        invites_ok(invites),
    ensures
        counts_up(invite_ids(invites)),
        forall|i: int|
            0 <= i < invites.len() ==> #[trigger] invite_ids(invites)[i] == invites[i].row.id,
{
}

/// What stands where, once a row was let in between the others.
proof fn lemma_let_in<T>(before: Seq<T>, after: Seq<T>, p: int)
    requires
        0 <= p <= before.len(),
        after.len() == before.len() + 1,
        after.remove(p) == before,
    ensures
        forall|i: int| 0 <= i < p ==> #[trigger] after[i] == before[i],
        forall|i: int| p < i < after.len() ==> #[trigger] after[i] == before[i - 1],
        forall|i: int|
            0 <= i < before.len() ==> #[trigger] before[i] == after[if i < p {
                i
            } else {
                i + 1
            }],
{
    assert forall|i: int| 0 <= i < p implies #[trigger] after[i] == before[i] by {
        assert(after.remove(p)[i] == after[i]);
    }
    assert forall|i: int| p < i < after.len() implies #[trigger] after[i] == before[i - 1] by {
        assert(after.remove(p)[i - 1] == after[i]);
    }
}

/// What redeeming an invite comes to.
pub enum RedeemCase {
    /// The peer is refused.
    Refused(ActivationError),
    /// The peer already redeemed this very invite: it is told again what it was
    /// told then.
    Again(int),
    /// The peer is bound to the invite that stands there.
    Bind(int),
    /// The peer could be bound, but every guest number is in use.
    Full,
}

impl StateDb {
    /// Whether a guest redeemed the invite of that secret hash.
    pub open spec fn bound_by(self, guest: GuestRecord, hash: Seq<u8>) -> bool {
        match invite_of_id(self.invites@, guest.invite_id) {
            Some(k) => self.invites@[k].secret_hash@ == hash,
            None => false,
        }
    }

    /// What redeeming the invite of that secret hash comes to, for that peer, at
    /// that time.
    ///
    /// First whether the peer may redeem an invite at all: one that is revoked, or
    /// already a guest, may not. One special case: a peer that redeems the same
    /// invite again probably lost the last response, so it gets it again. Then
    /// whether the invite is known, unused and not expired.
    pub open spec fn redeem_case(self, hash: Seq<u8>, peer_id: Seq<char>, now: i64) -> RedeemCase {
        match guest_of_peer(self.guests@, peer_id) {
            Some(g) => {
                let guest = self.guests@[g];
                if guest.node.revoked_at is Some {
                    RedeemCase::Refused(ActivationError::Revoked)
                } else if self.bound_by(guest, hash) {
                    RedeemCase::Again(g)
                } else {
                    RedeemCase::Refused(ActivationError::AlreadyGuest)
                }
            },
            None => match invite_of_hash(self.invites@, hash) {
                None => RedeemCase::Refused(ActivationError::InviteUnknown),
                Some(k) => {
                    let invite = self.invites@[k].row;
                    if invite.consumed_at is Some {
                        RedeemCase::Refused(ActivationError::InviteConsumed)
                    } else if invite.expires_at <= now {
                        RedeemCase::Refused(ActivationError::InviteExpired)
                    } else if used_up(guest_numbers(self.guests@)) {
                        RedeemCase::Full
                    } else {
                        RedeemCase::Bind(k)
                    }
                },
            },
        }
    }

    /// The guest that a peer becomes by redeeming the `k`th invite.
    pub open spec fn bound_guest(self, k: int, peer_id: Seq<char>, now: i64) -> GuestNodeView {
        GuestNodeView {
            number: next_id(guest_numbers(self.guests@)) as i64,
            peer_id,
            user_id: self.invites@[k].row.user_id@,
            display_name: self.invites@[k].row.node_name@,
            activated_at: now,
            last_seen_at: None,
            revoked_at: None,
        }
    }

    /// Whether redeeming turns this state into `after`, with that outcome.
    pub open spec fn redeems_to(
        self,
        hash: Seq<u8>,
        peer_id: Seq<char>,
        now: i64,
        outcome: Redemption,
        after: StateDb,
    ) -> bool {
        match self.redeem_case(hash, peer_id, now) {
            RedeemCase::Refused(why) => outcome == Redemption::Refused(why) && after == self,
            RedeemCase::Again(g) => after == self && (outcome matches Redemption::Activated(node)
                && node.deep_view() == self.guests@[g].node.deep_view()),
            RedeemCase::Full => false,
            RedeemCase::Bind(k) => {
                let p = next_place(guest_numbers(self.guests@));
                &&& outcome matches Redemption::Activated(node) && node.deep_view()
                    == self.bound_guest(k, peer_id, now)
                &&& after.kv == self.kv
                &&& after.invites@ == self.invites@.update(
                    k,
                    (InviteRecord {
                        row: InviteRow { consumed_at: Some(now), ..self.invites@[k].row },
                        ..self.invites@[k]
                    }),
                )
                &&& after.guests@.len() == self.guests@.len() + 1
                &&& after.guests@.remove(p) == self.guests@
                &&& after.guests@[p].invite_id == self.invites@[k].row.id
                &&& after.guests@[p].node.deep_view() == self.bound_guest(k, peer_id, now)
            },
        }
    }

    /// Redeem the invite code, binding `peer_id` to the metadata (user ID, node
    /// name, etc) the operator added when generating the invite.
    pub fn redeem_invite(&mut self, secret: &InviteSecret, peer_id: &str, now: i64) -> (r: Result<
        Redemption,
        Error,
    >)
        requires
            old(self).wf(),
        ensures
            final(self).wf(),
            match r {
                Ok(outcome) => old(self).redeems_to(
                    sha256_digest(secret.0@),
                    peer_id@,
                    now,
                    outcome,
                    *final(self),
                ),
                Err(e) => {
                    &&& old(self).redeem_case(sha256_digest(secret.0@), peer_id@, now) is Full
                    &&& e matches Error::Db(why) && why@ == "database or disk is full"@
                    &&& *final(self) == *old(self)
                },
            },
    {
        let hash = hash_secret(secret);
        proof {
            lemma_guest_of_peer(self.guests@, peer_id@);
            lemma_invite_of_hash(self.invites@, hash@);
        }
        match self.find_peer(peer_id) {
            Some(g) => {
                if self.guests[g].node.revoked_at.is_some() {
                    return Ok(Redemption::Refused(ActivationError::Revoked));
                }
                let bound = self.find_id(self.guests[g].invite_id);
                proof {
                    assert(redeemed(self.invites@, self.guests@[g as int]));
                    lemma_invite_of_id(self.invites@, self.guests@[g as int].invite_id);
                }
                let same = match bound {
                    Some(k) => bytes::same_bytes(
                        self.invites[k].secret_hash.as_slice(),
                        hash.as_slice(),
                    ),
                    None => false,
                };
                if same {
                    Ok(Redemption::Activated(self.guests[g].node.copied()))
                } else {
                    Ok(Redemption::Refused(ActivationError::AlreadyGuest))
                }
            },
            None => match self.find_hash(&hash) {
                None => Ok(Redemption::Refused(ActivationError::InviteUnknown)),
                Some(k) => {
                    if self.invites[k].row.consumed_at.is_some() {
                        return Ok(Redemption::Refused(ActivationError::InviteConsumed));
                    }
                    if self.invites[k].row.expires_at <= now {
                        return Ok(Redemption::Refused(ActivationError::InviteExpired));
                    }
                    match self.free_number() {
                        Some((p, number)) => Ok(self.bind(k, p, number, peer_id, now)),
                        None => Err(Error::Db(text::copied("database or disk is full"))),
                    }
                },
            },
        }
    }

    /// Where the next guest goes, and its number.
    fn free_number(&self) -> (r: Option<(usize, i64)>)
        requires
            self.wf(),
        ensures
            counts_up(guest_numbers(self.guests@)),
            match r {
                Some((p, number)) => {
                    &&& !used_up(guest_numbers(self.guests@))
                    &&& p == next_place(guest_numbers(self.guests@))
                    &&& number == next_id(guest_numbers(self.guests@))
                },
                None => used_up(guest_numbers(self.guests@)),
            },
    {
        let mut numbers: Vec<i64> = Vec::new();
        let mut i: usize = 0;
        while i < self.guests.len()
            invariant
                i <= self.guests@.len(),
                numbers@ =~= guest_numbers(self.guests@).take(i as int),
            decreases self.guests@.len() - i,
        {
            numbers.push(self.guests[i].node.number);
            i = i + 1;
        }
        assert(numbers@ =~= guest_numbers(self.guests@));
        free_id(&numbers)
    }

    /// Where the next invite goes, and its ID.
    fn free_invite_id(&self) -> (r: Option<(usize, i64)>)
        requires
            self.wf(),
        ensures
            counts_up(invite_ids(self.invites@)),
            match r {
                Some((p, id)) => {
                    &&& !used_up(invite_ids(self.invites@))
                    &&& p == next_place(invite_ids(self.invites@))
                    &&& id == next_id(invite_ids(self.invites@))
                },
                None => used_up(invite_ids(self.invites@)),
            },
    {
        let mut ids: Vec<i64> = Vec::new();
        let mut i: usize = 0;
        while i < self.invites.len()
            invariant
                i <= self.invites@.len(),
                ids@ =~= invite_ids(self.invites@).take(i as int),
            decreases self.invites@.len() - i,
        {
            ids.push(self.invites[i].row.id);
            i = i + 1;
        }
        assert(ids@ =~= invite_ids(self.invites@));
        free_id(&ids)
    }

    /// Binds `peer_id` to the `k`th invite, as the guest of that number.
    #[verifier::spinoff_prover]
    #[verifier::rlimit(40)]
    fn bind(&mut self, k: usize, p: usize, number: i64, peer_id: &str, now: i64) -> (r: Redemption)
        requires
            old(self).wf(),
            k < old(self).invites@.len(),
            !used_up(guest_numbers(old(self).guests@)),
            p == next_place(guest_numbers(old(self).guests@)),
            number == next_id(guest_numbers(old(self).guests@)),
            guest_of_peer(old(self).guests@, peer_id@) is None,
            old(self).invites@[k as int].row.consumed_at is None,
        ensures
            final(self).wf(),
            r matches Redemption::Activated(node) && node.deep_view() == old(self).bound_guest(
                k as int,
                peer_id@,
                now,
            ),
            final(self).kv == old(self).kv,
            final(self).invites@ == old(self).invites@.update(
                k as int,
                (InviteRecord {
                    row: InviteRow { consumed_at: Some(now), ..old(self).invites@[k as int].row },
                    ..old(self).invites@[k as int]
                }),
            ),
            final(self).guests@.len() == old(self).guests@.len() + 1,
            final(self).guests@.remove(p as int) == old(self).guests@,
            final(self).guests@[p as int].invite_id == old(self).invites@[k as int].row.id,
            final(self).guests@[p as int].node.deep_view() == old(self).bound_guest(
                k as int,
                peer_id@,
                now,
            ),
    {
        let ghost before = *self;
        proof {
            lemma_numbers(before.guests@);
            lemma_next_place(guest_numbers(before.guests@));
        }
        let node = GuestNode {
            number,
            peer_id: text::copied(peer_id),
            user_id: text::copied(self.invites[k].row.user_id.as_str()),
            display_name: text::copied(self.invites[k].row.node_name.as_str()),
            activated_at: now,
            last_seen_at: None,
            revoked_at: None,
        };
        let answer = node.copied();
        let invite_id: i64 = self.invites[k].row.id;
        self.guests.insert(p, GuestRecord { node, invite_id });
        self.invites[k].row.consumed_at = Some(now);
        proof {
            let invites = self.invites@;
            let guests = self.guests@;
            assert(guests.remove(p as int) =~= before.guests@);
            lemma_let_in(before.guests@, guests, p as int);
            lemma_guest_of_peer(before.guests@, peer_id@);
            lemma_invite_of_id(invites, invite_id);
            assert forall|g: int| 0 <= g < guests.len() implies redeemed(
                invites,
                #[trigger] guests[g],
            ) by {
                lemma_invite_of_id(invites, guests[g].invite_id);
                if g != p {
                    let o = if g < p {
                        g
                    } else {
                        g - 1
                    };
                    assert(redeemed(before.invites@, before.guests@[o]));
                    lemma_invite_of_id(before.invites@, before.guests@[o].invite_id);
                    let w = invite_of_id(before.invites@, before.guests@[o].invite_id)->0;
                    assert(invites[w].row.id == guests[g].invite_id);
                } else {
                    assert(invites[k as int].row.id == invite_id);
                }
            }
            // No earlier guest redeemed this invite: it was not consumed.
            assert forall|g: int| 0 <= g < before.guests@.len() implies (
            #[trigger] before.guests@[g]).invite_id != invite_id by {
                assert(redeemed(before.invites@, before.guests@[g]));
                lemma_invite_of_id(before.invites@, before.guests@[g].invite_id);
                if before.guests@[g].invite_id == invite_id {
                    let w = invite_of_id(before.invites@, invite_id)->0;
                    assert(w == k);
                }
            }
            assert forall|i: int, j: int| 0 <= i < j < guests.len() implies {
                &&& (#[trigger] guests[i]).node.peer_id@ != (#[trigger] guests[j]).node.peer_id@
                &&& guests[i].invite_id != guests[j].invite_id
                &&& guests[i].node.number < guests[j].node.number
            } by {
                let x = if i < p {
                    i
                } else {
                    i - 1
                };
                let y = if j < p {
                    j
                } else {
                    j - 1
                };
                if i != p {
                    assert(guests[i] == before.guests@[x]);
                    assert(guest_numbers(before.guests@)[x] == guests[i].node.number);
                }
                if j != p {
                    assert(guests[j] == before.guests@[y]);
                    assert(guest_numbers(before.guests@)[y] == guests[j].node.number);
                }
            }
        }
        Redemption::Activated(answer)
    }
}

/// How long a consumed or expired invite stays in `recent_invites`: seven days, in
/// seconds.
pub const INVITE_HISTORY: i64 = 604800;

/// Whether an invite is worth showing at `now`: it can still be redeemed, or it was
/// created within the last seven days.
pub open spec fn worth_showing(invite: InviteRow, now: i64) -> bool {
    ||| (invite.consumed_at is None && invite.expires_at > now)
    ||| invite.created_at > now - INVITE_HISTORY
}

/// The first `n` invites that are worth showing at `now`, newest first.
pub open spec fn shown_invites(invites: Seq<InviteRecord>, n: int, now: i64) -> Seq<InviteRowView>
    decreases n,
{
    if n <= 0 {
        Seq::empty()
    } else if worth_showing(invites[n - 1].row, now) {
        seq![invites[n - 1].row.deep_view()] + shown_invites(invites, n - 1, now)
    } else {
        shown_invites(invites, n - 1, now)
    }
}

impl StateDb {
    /// Whether recording an invite turns this state into `after`, with that ID.
    pub open spec fn creates_to(self, invite: NewInvite, now: i64, id: i64, after: StateDb) -> bool {
        let p = next_place(invite_ids(self.invites@));
        &&& !used_up(invite_ids(self.invites@))
        &&& id == next_id(invite_ids(self.invites@))
        &&& after.kv == self.kv
        &&& after.guests == self.guests
        &&& after.invites@.len() == self.invites@.len() + 1
        &&& after.invites@.remove(p) == self.invites@
        &&& after.invites@[p].secret_hash@ == sha256_digest(invite.secret.0@)
        &&& after.invites@[p].row == (InviteRow {
            id,
            user_id: invite.user_id,
            node_name: invite.node_name,
            created_at: now,
            expires_at: invite.expires_at,
            consumed_at: None,
        })
    }

    /// Records an invite, returns its ID. A secret is recorded only once.
    pub fn create_invite(&mut self, invite: NewInvite, now: i64) -> (r: Result<i64, Error>)
        requires
            old(self).wf(),
        ensures
            final(self).wf(),
            match r {
                Ok(id) => {
                    &&& invite_of_hash(old(self).invites@, sha256_digest(invite.secret.0@)) is None
                    &&& old(self).creates_to(invite, now, id, *final(self))
                },
                Err(e) => {
                    &&& *final(self) == *old(self)
                    &&& e matches Error::Db(why) && if used_up(invite_ids(old(self).invites@)) {
                        why@ == "database or disk is full"@
                    } else {
                        &&& invite_of_hash(
                            old(self).invites@,
                            sha256_digest(invite.secret.0@),
                        ) is Some
                        &&& why@ == "UNIQUE constraint failed: invites.secret_hash"@
                    }
                },
            },
    {
        let (p, id) = match self.free_invite_id() {
            Some(free) => free,
            None => {
                return Err(Error::Db(text::copied("database or disk is full")));
            },
        };
        let hash = hash_secret(&invite.secret);
        if self.find_hash(&hash).is_some() {
            return Err(Error::Db(text::copied("UNIQUE constraint failed: invites.secret_hash")));
        }
        let ghost before = *self;
        proof {
            lemma_ids(before.invites@);
            lemma_next_place(invite_ids(before.invites@));
        }
        self.invites.insert(
            p,
            InviteRecord {
                secret_hash: hash,
                row: InviteRow {
                    id,
                    user_id: invite.user_id,
                    node_name: invite.node_name,
                    created_at: now,
                    expires_at: invite.expires_at,
                    consumed_at: None,
                },
            },
        );
        proof {
            let invites = self.invites@;
            assert(invites.remove(p as int) =~= before.invites@);
            lemma_let_in(before.invites@, invites, p as int);
            lemma_invite_of_hash(before.invites@, hash@);
            assert forall|i: int, j: int| 0 <= i < j < invites.len() implies {
                &&& (#[trigger] invites[i]).row.id < (#[trigger] invites[j]).row.id
                &&& invites[i].secret_hash@ != invites[j].secret_hash@
            } by {
                let x = if i < p {
                    i
                } else {
                    i - 1
                };
                let y = if j < p {
                    j
                } else {
                    j - 1
                };
                if i != p {
                    assert(invites[i] == before.invites@[x]);
                    assert(invite_ids(before.invites@)[x] == invites[i].row.id);
                }
                if j != p {
                    assert(invites[j] == before.invites@[y]);
                    assert(invite_ids(before.invites@)[y] == invites[j].row.id);
                }
            }
            assert forall|i: int| 0 <= i < invites.len() implies (#[trigger] invites[i]).row.id
                >= 1 by {
                if i < p {
                    assert(invites[i] == before.invites@[i]);
                } else if i > p {
                    assert(invites[i] == before.invites@[i - 1]);
                }
            }
            assert forall|g: int| 0 <= g < self.guests@.len() implies redeemed(
                invites,
                #[trigger] self.guests@[g],
            ) by {
                assert(redeemed(before.invites@, before.guests@[g]));
                lemma_invite_of_id(before.invites@, before.guests@[g].invite_id);
                lemma_invite_of_id(invites, self.guests@[g].invite_id);
                let w = invite_of_id(before.invites@, before.guests@[g].invite_id)->0;
                let moved = if w < p {
                    w
                } else {
                    w + 1
                };
                assert(invites[moved] == before.invites@[w]);
                let v = invite_of_id(invites, self.guests@[g].invite_id)->0;
                assert(v == moved);
            }
        }
        Ok(id)
    }

    /// The invites worth showing, newest first: those still redeemable at `now`,
    /// plus those created within [`INVITE_HISTORY`]. Older consumed and expired
    /// invites stay in the table (guests reference the invite they redeemed) but
    /// are not listed, mirroring the hub's token listing.
    pub fn recent_invites(&self, now: i64) -> (r: Vec<InviteRow>)
        requires
            now - INVITE_HISTORY >= i64::MIN,
        ensures
            r.deep_view() == shown_invites(self.invites@, self.invites@.len() as int, now),
    {
        let mut out: Vec<InviteRow> = Vec::new();
        let mut i: usize = self.invites.len();
        let since: i64 = now - INVITE_HISTORY;
        assert(out.deep_view() + shown_invites(self.invites@, i as int, now) =~= shown_invites(
            self.invites@,
            i as int,
            now,
        ));
        while i > 0
            invariant
                i <= self.invites@.len(),
                since == now - INVITE_HISTORY,
                out.deep_view() + shown_invites(self.invites@, i as int, now) == shown_invites(
                    self.invites@,
                    self.invites@.len() as int,
                    now,
                ),
            decreases i,
        {
            i = i - 1;
            let row = &self.invites[i].row;
            if (row.consumed_at.is_none() && row.expires_at > now) || row.created_at > since {
                let ghost before = out.deep_view();
                out.push(row.copied());
                assert(out.deep_view() =~= before.push(row.deep_view()));
                assert(out.deep_view() + shown_invites(self.invites@, i as int, now) =~= before
                    + shown_invites(self.invites@, i + 1, now));
            }
        }
        assert(out.deep_view() + shown_invites(self.invites@, 0, now) =~= out.deep_view());
        out
    }

    /// Look up a GuestNode by its peer_id.
    pub fn guest_by_peer(&self, peer_id: &str) -> (r: Option<GuestNode>)
        ensures
            match guest_of_peer(self.guests@, peer_id@) {
                Some(g) => r matches Some(node) && node.deep_view()
                    == self.guests@[g].node.deep_view(),
                None => r is None,
            },
    {
        match self.find_peer(peer_id) {
            Some(g) => Some(self.guests[g].node.copied()),
            None => None,
        }
    }

    /// List of guest node, revoked ones included, by number.
    pub fn guests(&self) -> (r: Vec<GuestNode>)
        ensures
            r.deep_view() == self.guests@.map_values(|g: GuestRecord| g.node.deep_view()),
    {
        let mut out: Vec<GuestNode> = Vec::new();
        let mut i: usize = 0;
        while i < self.guests.len()
            invariant
                i <= self.guests@.len(),
                out@.len() == i,
                forall|j: int|
                    0 <= j < i ==> (#[trigger] out@[j]).deep_view()
                        == self.guests@[j].node.deep_view(),
            decreases self.guests@.len() - i,
        {
            out.push(self.guests[i].node.copied());
            i = i + 1;
        }
        assert(out.deep_view() =~= self.guests@.map_values(
            |g: GuestRecord| g.node.deep_view(),
        ));
        out
    }

    /// Whether setting the last-seen time of a peer turns this state into `after`.
    pub open spec fn touches_to(self, peer_id: Seq<char>, now: i64, after: StateDb) -> bool {
        &&& after.kv == self.kv
        &&& after.invites == self.invites
        &&& match guest_of_peer(self.guests@, peer_id) {
            Some(g) => after.guests@ == self.guests@.update(
                g,
                (GuestRecord {
                    node: GuestNode { last_seen_at: Some(now), ..self.guests@[g].node },
                    ..self.guests@[g]
                }),
            ),
            None => after.guests@ == self.guests@,
        }
    }

    /// Set last_seen for the given peer ID to now.
    pub fn touch_guest(&mut self, peer_id: &str, now: i64)
        requires
            old(self).wf(),
        ensures
            final(self).wf(),
            old(self).touches_to(peer_id@, now, *final(self)),
    {
        let ghost before = *self;
        if let Some(g) = self.find_peer(peer_id) {
            self.guests[g].node.last_seen_at = Some(now);
            proof {
                before.lemma_same_bindings(*self);
            }
        }
    }

    /// A change of times alone keeps the invariant.
    proof fn lemma_same_bindings(self, after: StateDb)
        requires
            self.wf(),
            after.kv == self.kv,
            after.invites == self.invites,
            after.guests@.len() == self.guests@.len(),
            forall|i: int|
                0 <= i < self.guests@.len() ==> {
                    &&& (#[trigger] after.guests@[i]).node.number == self.guests@[i].node.number
                    &&& after.guests@[i].node.peer_id == self.guests@[i].node.peer_id
                    &&& after.guests@[i].invite_id == self.guests@[i].invite_id
                },
        ensures
            after.wf(),
    {
        assert forall|g: int| 0 <= g < after.guests@.len() implies redeemed(
            after.invites@,
            #[trigger] after.guests@[g],
        ) by {
            assert(redeemed(self.invites@, self.guests@[g]));
        }
    }

    /// Removes the DB entry for given guest, used when the guests asks to be
    /// removed. Unlike a revoke, this leaves no mark.
    pub fn remove_guest(&mut self, number: i64) -> (r: Result<(), Error>)
        requires
            old(self).wf(),
        ensures
            final(self).wf(),
            match guest_of_number(old(self).guests@, number) {
                Some(g) => r is Ok && old(self).leaves_to(g, *final(self)),
                None => r == Err::<(), Error>(Error::NoSuchGuest(number)) && *final(self) == *old(
                    self,
                ),
            },
    {
        let ghost before = *self;
        match self.find_number(number) {
            None => Err(Error::NoSuchGuest(number)),
            Some(g) => {
                let _gone = self.guests.remove(g);
                proof {
                    let guests = self.guests@;
                    assert forall|i: int| 0 <= i < guests.len() implies redeemed(
                        self.invites@,
                        #[trigger] guests[i],
                    ) by {
                        let k = if i < g {
                            i
                        } else {
                            i + 1
                        };
                        assert(guests[i] == before.guests@[k]);
                    }
                    assert(guests_ok(guests)) by {
                        assert forall|i: int| 0 <= i < guests.len() implies #[trigger] guests[i]
                            == before.guests@[if i < g { i } else { i + 1 }] by {}
                    }
                }
                Ok(())
            },
        }
    }

    /// Whether revoking the `g`th guest turns this state into `after`.
    pub open spec fn revokes_to(self, g: int, now: i64, after: StateDb) -> bool {
        &&& after.kv == self.kv
        &&& after.invites == self.invites
        &&& if self.guests@[g].node.revoked_at is Some {
            after.guests@ == self.guests@
        } else {
            after.guests@ == self.guests@.update(
                g,
                (GuestRecord {
                    node: GuestNode { revoked_at: Some(now), ..self.guests@[g].node },
                    ..self.guests@[g]
                }),
            )
        }
    }

    /// Marks a guest node revoked. A second revocation is a no-op.
    pub fn revoke_guest(&mut self, number: i64, now: i64) -> (r: Result<GuestNode, Error>)
        requires
            old(self).wf(),
        ensures
            final(self).wf(),
            match guest_of_number(old(self).guests@, number) {
                Some(g) => {
                    &&& old(self).revokes_to(g, now, *final(self))
                    &&& r matches Ok(node) && node.deep_view()
                        == final(self).guests@[g].node.deep_view()
                },
                None => r == Err::<GuestNode, Error>(Error::NoSuchGuest(number)) && *final(self)
                    == *old(self),
            },
    {
        let ghost before = *self;
        match self.find_number(number) {
            None => Err(Error::NoSuchGuest(number)),
            Some(g) => {
                if self.guests[g].node.revoked_at.is_none() {
                    self.guests[g].node.revoked_at = Some(now);
                }
                proof {
                    before.lemma_same_bindings(*self);
                }
                Ok(self.guests[g].node.copied())
            },
        }
    }
}

//-- Daemon-owned blobs -----------------------------------------------------------
/// State specific to the Wispers Connect transport.
#[derive(Clone, Debug, PartialEq, Eq)]
pub struct WispersConnectState {
    pub api_key: String,
    pub connectivity_group_id: String,
}

/// What a Wispers Connect node keeps between runs. The registration is kept as the
/// bytes that the transport serialises it to.
#[derive(Clone, Debug, PartialEq, Eq)]
pub struct NodeState {
    pub root_key: [u8; 32],
    pub registration: Option<Vec<u8>>,
}

/// The stored root key has the wrong length.
#[derive(Clone, Copy, Debug, PartialEq, Eq, Structural)]
pub struct InvalidRootKey;

pub const KEY_API_KEY: &'static str = "api_key";

pub const KEY_CONNECTIVITY_GROUP_ID: &'static str = "connectivity_group_id";

pub const KEY_ROOT_KEY: &'static str = "root_key";

pub const KEY_REGISTRATION: &'static str = "registration";

pub const KEY_IROH_SECRET: &'static str = "iroh_secret";

/// The blob stored under `key`.
pub open spec fn kv_get(kv: Seq<KvRow>, key: Seq<char>) -> Option<Seq<u8>>
    decreases kv.len(),
{
    if kv.len() == 0 {
        None
    } else if kv.last().key@ == key {
        Some(kv.last().value@)
    } else {
        kv_get(kv.drop_last(), key)
    }
}

proof fn lemma_kv_get(kv: Seq<KvRow>, i: int)
    requires
        kv_ok(kv),
        0 <= i < kv.len(),
    ensures
        kv_get(kv, kv[i].key@) == Some(kv[i].value@),
    decreases kv.len(),
{
    if i < kv.len() - 1 {
        assert(kv.drop_last()[i] == kv[i]);
        lemma_kv_get(kv.drop_last(), i);
    }
}

proof fn lemma_kv_absent(kv: Seq<KvRow>, key: Seq<char>)
    requires
        forall|i: int| 0 <= i < kv.len() ==> (#[trigger] kv[i]).key@ != key,
    ensures
        kv_get(kv, key) is None,
    decreases kv.len(),
{
    if kv.len() > 0 {
        assert(kv.last() == kv[kv.len() - 1]);
        lemma_kv_absent(kv.drop_last(), key);
    }
}

/// A table's blobs are those of its rows: two tables that agree on the rows of a key
/// agree on its blob.
proof fn lemma_kv_agrees(a: Seq<KvRow>, b: Seq<KvRow>, key: Seq<char>)
    requires
        kv_ok(a),
        kv_ok(b),
        forall|i: int|
            0 <= i < a.len() && (#[trigger] a[i]).key@ == key ==> exists|j: int|
                0 <= j < b.len() && (#[trigger] b[j]).key@ == key && b[j].value@ == a[i].value@,
        forall|j: int|
            0 <= j < b.len() && (#[trigger] b[j]).key@ == key ==> exists|i: int|
                0 <= i < a.len() && (#[trigger] a[i]).key@ == key,
    ensures
        kv_get(a, key) == kv_get(b, key),
{
    if exists|i: int| 0 <= i < a.len() && (#[trigger] a[i]).key@ == key {
        let i = choose|i: int| 0 <= i < a.len() && (#[trigger] a[i]).key@ == key;
        let j = choose|j: int|
            0 <= j < b.len() && (#[trigger] b[j]).key@ == key && b[j].value@ == a[i].value@;
        lemma_kv_get(a, i);
        lemma_kv_get(b, j);
    } else {
        lemma_kv_absent(a, key);
        lemma_kv_absent(b, key);
    }
}

/// `String::from_utf8_lossy` of std.
pub uninterp spec fn utf8_lossy(bytes: Seq<u8>) -> Seq<char>;

/// `String::from_utf8_lossy` of std: the text that `bytes` encode in UTF-8. What
/// stands for malformed bytes is left to that function; well-formed ones are decoded.
#[verifier::external_body]
fn text_from_utf8_lossy(bytes: &Vec<u8>) -> (r: String)
    ensures
        r@ == utf8_lossy(bytes@),
        forall|s: Seq<char>| bytes@ == #[trigger] encode_utf8(s) ==> r@ == s,
{
    String::from_utf8_lossy(bytes).into_owned()
}

/// The Wispers Connect state in a table of blobs: both of its parts, or nothing.
pub open spec fn connect_state(kv: Seq<KvRow>) -> Option<(Seq<char>, Seq<char>)> {
    match (kv_get(kv, KEY_API_KEY@), kv_get(kv, KEY_CONNECTIVITY_GROUP_ID@)) {
        (Some(api_key), Some(group)) => Some((utf8_lossy(api_key), utf8_lossy(group))),
        _ => None,
    }
}

impl StateDb {
    fn find_key(&self, key: &str) -> (r: Option<usize>)
        requires
            self.wf(),
        ensures
            match r {
                Some(i) => i < self.kv@.len() && self.kv@[i as int].key@ == key@ && kv_get(
                    self.kv@,
                    key@,
                ) == Some(self.kv@[i as int].value@),
                None => kv_get(self.kv@, key@) is None && (forall|j: int|
                    0 <= j < self.kv@.len() ==> (#[trigger] self.kv@[j]).key@ != key@),
            },
    {
        let mut i: usize = 0;
        while i < self.kv.len()
            invariant
                i <= self.kv@.len(),
                self.wf(),
                forall|j: int| 0 <= j < i ==> (#[trigger] self.kv@[j]).key@ != key@,
            decreases self.kv@.len() - i,
        {
            if text::same_text(self.kv[i].key.as_str(), key) {
                proof {
                    lemma_kv_get(self.kv@, i as int);
                }
                return Some(i);
            }
            i = i + 1;
        }
        proof {
            lemma_kv_absent(self.kv@, key@);
        }
        None
    }

    /// The blob stored under `key`.
    pub fn get(&self, key: &str) -> (r: Option<Vec<u8>>)
        requires
            self.wf(),
        ensures
            r.deep_view() == kv_get(self.kv@, key@),
    {
        match self.find_key(key) {
            Some(i) => {
                let v = bytes::copied_bytes(self.kv[i].value.as_slice());
                assert(v.deep_view() =~= v@);
                Some(v)
            },
            None => None,
        }
    }

    /// Stores a blob under `key`, in place of what was there.
    pub fn set(&mut self, key: &str, value: &[u8])
        requires
            old(self).wf(),
        ensures
            final(self).wf(),
            final(self).invites == old(self).invites,
            final(self).guests == old(self).guests,
            forall|k: Seq<char>|
                #[trigger] kv_get(final(self).kv@, k) == if k == key@ {
                    Some(value@)
                } else {
                    kv_get(old(self).kv@, k)
                },
    {
        let ghost before = self.kv@;
        let v = bytes::copied_bytes(value);
        match self.find_key(key) {
            Some(i) => {
                self.kv[i].value = v;
                proof {
                    let after = self.kv@;
                    assert(kv_ok(after));
                    lemma_kv_get(after, i as int);
                    assert forall|k: Seq<char>| k != key@ implies #[trigger] kv_get(after, k)
                        == kv_get(before, k) by {
                        assert forall|a: int| 0 <= a < before.len() && (#[trigger] before[a]).key@ == k
                            implies exists|b: int|
                            0 <= b < after.len() && (#[trigger] after[b]).key@ == k
                                && after[b].value@ == before[a].value@ by {
                            assert(after[a].key@ == k);
                        }
                        assert forall|b: int| 0 <= b < after.len() && (#[trigger] after[b]).key@ == k
                            implies exists|a: int|
                            0 <= a < before.len() && (#[trigger] before[a]).key@ == k by {
                            assert(before[b].key@ == k);
                        }
                        lemma_kv_agrees(before, after, k);
                    }
                }
            },
            None => {
                self.kv.push(KvRow { key: text::copied(key), value: v });
                proof {
                    let after = self.kv@;
                    assert(after.drop_last() =~= before);
                    assert forall|i: int, j: int| 0 <= i < j < after.len() implies (
                    #[trigger] after[i]).key@ != (#[trigger] after[j]).key@ by {
                        assert(after[i] == before[i]);
                        if j < before.len() {
                            assert(after[j] == before[j]);
                        }
                    }
                }
            },
        }
    }

    /// Removes the blob stored under `key`, if there is one.
    pub fn remove(&mut self, key: &str)
        requires
            old(self).wf(),
        ensures
            final(self).wf(),
            final(self).invites == old(self).invites,
            final(self).guests == old(self).guests,
            forall|k: Seq<char>|
                #[trigger] kv_get(final(self).kv@, k) == if k == key@ {
                    None
                } else {
                    kv_get(old(self).kv@, k)
                },
    {
        let ghost before = self.kv@;
        if let Some(i) = self.find_key(key) {
            let _gone = self.kv.remove(i);
            proof {
                let after = self.kv@;
                assert forall|j: int| 0 <= j < after.len() implies #[trigger] after[j] == before[if j
                    < i {
                    j
                } else {
                    j + 1
                }] by {}
                assert(kv_ok(after));
                assert forall|j: int| 0 <= j < after.len() implies (#[trigger] after[j]).key@ != key@ by {
                    assert(before[i as int].key@ == key@);
                }
                lemma_kv_absent(after, key@);
                assert forall|k: Seq<char>| k != key@ implies #[trigger] kv_get(after, k) == kv_get(
                    before,
                    k,
                ) by {
                    assert forall|a: int| 0 <= a < before.len() && (#[trigger] before[a]).key@ == k
                        implies exists|b: int|
                        0 <= b < after.len() && (#[trigger] after[b]).key@ == k && after[b].value@
                            == before[a].value@ by {
                        let b = if a < i {
                            a
                        } else {
                            a - 1
                        };
                        assert(after[b].key@ == k);
                    }
                    assert forall|b: int| 0 <= b < after.len() && (#[trigger] after[b]).key@ == k
                        implies exists|a: int|
                        0 <= a < before.len() && (#[trigger] before[a]).key@ == k by {
                        let a = if b < i {
                            b
                        } else {
                            b + 1
                        };
                        assert(before[a].key@ == k);
                    }
                    lemma_kv_agrees(before, after, k);
                }
            }
        }
    }

    fn get_string(&self, key: &str) -> (r: Option<String>)
        requires
            self.wf(),
        ensures
            r.deep_view() == (match kv_get(self.kv@, key@) {
                Some(v) => Some(utf8_lossy(v)),
                None => None,
            }),
            forall|s: Seq<char>|
                kv_get(self.kv@, key@) == Some(#[trigger] encode_utf8(s)) ==> r.deep_view() == Some(s),
    {
        match self.find_key(key) {
            Some(i) => Some(text_from_utf8_lossy(&self.kv[i].value)),
            None => None,
        }
    }

    /// The Wispers Connect credentials, where both parts are stored.
    pub fn wispers_connect_state(&self) -> (r: Option<WispersConnectState>)
        requires
            self.wf(),
        ensures
            match r {
                Some(state) => connect_state(self.kv@) == Some(
                    (state.api_key@, state.connectivity_group_id@),
                ),
                None => connect_state(self.kv@) is None,
            },
            forall|api_key: Seq<char>, group: Seq<char>|
                #![trigger encode_utf8(api_key), encode_utf8(group)]
                kv_get(self.kv@, KEY_API_KEY@) == Some(encode_utf8(api_key)) && kv_get(
                    self.kv@,
                    KEY_CONNECTIVITY_GROUP_ID@,
                ) == Some(encode_utf8(group)) ==> (r matches Some(state) && state.api_key@
                    == api_key && state.connectivity_group_id@ == group),
    {
        match (self.get_string(KEY_API_KEY), self.get_string(KEY_CONNECTIVITY_GROUP_ID)) {
            (Some(api_key), Some(connectivity_group_id)) => Some(
                WispersConnectState { api_key, connectivity_group_id },
            ),
            _ => None,
        }
    }

    /// Stores the Wispers Connect credentials.
    pub fn set_wispers_connect_state(&mut self, state: &WispersConnectState)
        requires
            old(self).wf(),
        ensures
            final(self).wf(),
            final(self).invites == old(self).invites,
            final(self).guests == old(self).guests,
            kv_get(final(self).kv@, KEY_API_KEY@) == Some(encode_utf8(state.api_key@)),
            kv_get(final(self).kv@, KEY_CONNECTIVITY_GROUP_ID@) == Some(
                encode_utf8(state.connectivity_group_id@),
            ),
            forall|k: Seq<char>|
                k != KEY_API_KEY@ && k != KEY_CONNECTIVITY_GROUP_ID@ ==> #[trigger] kv_get(
                    final(self).kv@,
                    k,
                ) == kv_get(old(self).kv@, k),
    {
        proof {
            lemma_keys_differ();
        }
        self.set(KEY_API_KEY, state.api_key.as_str().as_bytes());
        self.set(KEY_CONNECTIVITY_GROUP_ID, state.connectivity_group_id.as_str().as_bytes());
    }

    /// The iroh endpoint's secret key.
    pub fn iroh_secret(&self) -> (r: Result<Option<[u8; 32]>, Error>)
        requires
            self.wf(),
        ensures
            match kv_get(self.kv@, KEY_IROH_SECRET@) {
                Some(v) => if v.len() == 32 {
                    r matches Ok(Some(k)) && k@ == v
                } else {
                    r == Err::<Option<[u8; 32]>, Error>(Error::CorruptKey)
                },
                None => r == Ok::<Option<[u8; 32]>, Error>(None),
            },
    {
        match self.find_key(KEY_IROH_SECRET) {
            Some(i) => match bytes::exactly_32(self.kv[i].value.as_slice()) {
                Some(k) => Ok(Some(k)),
                None => Err(Error::CorruptKey),
            },
            None => Ok(None),
        }
    }

    /// Stores the iroh endpoint's secret key.
    pub fn set_iroh_secret(&mut self, secret: &[u8; 32])
        requires
            old(self).wf(),
        ensures
            final(self).wf(),
            final(self).invites == old(self).invites,
            final(self).guests == old(self).guests,
            forall|k: Seq<char>|
                #[trigger] kv_get(final(self).kv@, k) == if k == KEY_IROH_SECRET@ {
                    Some(secret@)
                } else {
                    kv_get(old(self).kv@, k)
                },
    {
        self.set(KEY_IROH_SECRET, secret.as_slice());
    }

    /// What a Wispers Connect node stored, if anything.
    pub fn load(&self) -> (r: Result<Option<NodeState>, InvalidRootKey>)
        requires
            self.wf(),
        ensures
            match kv_get(self.kv@, KEY_ROOT_KEY@) {
                None => r == Ok::<Option<NodeState>, InvalidRootKey>(None),
                Some(v) => if v.len() == 32 {
                    r matches Ok(Some(state)) && state.root_key@ == v
                        && state.registration.deep_view() == kv_get(self.kv@, KEY_REGISTRATION@)
                } else {
                    r is Err
                },
            },
    {
        match self.find_key(KEY_ROOT_KEY) {
            None => Ok(None),
            Some(i) => match bytes::exactly_32(self.kv[i].value.as_slice()) {
                None => Err(InvalidRootKey),
                Some(root_key) => Ok(
                    Some(NodeState { root_key, registration: self.get(KEY_REGISTRATION) }),
                ),
            },
        }
    }

    /// Stores what a Wispers Connect node keeps.
    pub fn save(&mut self, state: &NodeState)
        requires
            old(self).wf(),
        ensures
            final(self).wf(),
            final(self).invites == old(self).invites,
            final(self).guests == old(self).guests,
            kv_get(final(self).kv@, KEY_ROOT_KEY@) == Some(state.root_key@),
            kv_get(final(self).kv@, KEY_REGISTRATION@) == state.registration.deep_view(),
            forall|k: Seq<char>|
                k != KEY_ROOT_KEY@ && k != KEY_REGISTRATION@ ==> #[trigger] kv_get(
                    final(self).kv@,
                    k,
                ) == kv_get(old(self).kv@, k),
    {
        proof {
            lemma_keys_differ();
        }
        self.set(KEY_ROOT_KEY, state.root_key.as_slice());
        match &state.registration {
            Some(reg) => {
                self.set(KEY_REGISTRATION, reg.as_slice());
                assert(reg.deep_view() =~= reg@);
            },
            None => {
                self.remove(KEY_REGISTRATION);
            },
        }
    }

    /// Forgets what a Wispers Connect node keeps.
    pub fn delete(&mut self)
        requires
            old(self).wf(),
        ensures
            final(self).wf(),
            final(self).invites == old(self).invites,
            final(self).guests == old(self).guests,
            kv_get(final(self).kv@, KEY_ROOT_KEY@) is None,
            kv_get(final(self).kv@, KEY_REGISTRATION@) is None,
            forall|k: Seq<char>|
                k != KEY_ROOT_KEY@ && k != KEY_REGISTRATION@ ==> #[trigger] kv_get(
                    final(self).kv@,
                    k,
                ) == kv_get(old(self).kv@, k),
    {
        proof {
            lemma_keys_differ();
        }
        self.remove(KEY_ROOT_KEY);
        self.remove(KEY_REGISTRATION);
    }
}

proof fn lemma_keys_differ()
    ensures
        KEY_API_KEY@ != KEY_CONNECTIVITY_GROUP_ID@,
        KEY_API_KEY@ != KEY_ROOT_KEY@,
        KEY_API_KEY@ != KEY_REGISTRATION@,
        KEY_CONNECTIVITY_GROUP_ID@ != KEY_ROOT_KEY@,
        KEY_CONNECTIVITY_GROUP_ID@ != KEY_REGISTRATION@,
        KEY_ROOT_KEY@ != KEY_REGISTRATION@,
{
    reveal_strlit("api_key");
    reveal_strlit("connectivity_group_id");
    reveal_strlit("root_key");
    reveal_strlit("registration");
    assert(KEY_API_KEY@.len() == 7);
    assert(KEY_CONNECTIVITY_GROUP_ID@.len() == 21);
    assert(KEY_ROOT_KEY@.len() == 8);
    assert(KEY_REGISTRATION@.len() == 12);
}

/// Backend credentials survive a node reset: forgetting a node, or storing another
/// one, leaves them as they are.
pub proof fn node_reset_keeps_credentials(before: Seq<KvRow>, after: Seq<KvRow>)
    requires
        forall|k: Seq<char>|
            k != KEY_ROOT_KEY@ && k != KEY_REGISTRATION@ ==> #[trigger] kv_get(after, k) == kv_get(
                before,
                k,
            ),
    ensures
        connect_state(after) == connect_state(before),
{
    lemma_keys_differ();
}

//-- What holds over time ---------------------------------------------------------
impl StateDb {
    /// Whether the invite of that secret hash has been redeemed.
    pub open spec fn spent(self, hash: Seq<u8>) -> bool {
        match invite_of_hash(self.invites@, hash) {
            Some(k) => self.invites@[k].row.consumed_at is Some,
            None => false,
        }
    }

    /// Whether that peer is a guest whom the host has revoked.
    pub open spec fn revoked(self, peer_id: Seq<char>) -> bool {
        match guest_of_peer(self.guests@, peer_id) {
            Some(g) => self.guests@[g].node.revoked_at is Some,
            None => false,
        }
    }

    /// Whether a guest leaving turns this state into `after`.
    pub open spec fn leaves_to(self, g: int, after: StateDb) -> bool {
        &&& 0 <= g < self.guests@.len()
        &&& after.kv == self.kv
        &&& after.invites == self.invites
        &&& after.guests@ == self.guests@.remove(g)
    }

    /// Whether one operation that is not a guest leaving turns this state into
    /// `after`.
    pub open spec fn step(self, after: StateDb) -> bool {
        ||| exists|hash: Seq<u8>, peer_id: Seq<char>, now: i64, outcome: Redemption|
            #[trigger] self.redeems_to(hash, peer_id, now, outcome, after)
        ||| exists|invite: NewInvite, now: i64, id: i64|
            invite_of_hash(self.invites@, sha256_digest(invite.secret.0@)) is None
                && #[trigger] self.creates_to(invite, now, id, after)
        ||| exists|peer_id: Seq<char>, now: i64| #[trigger] self.touches_to(peer_id, now, after)
        ||| exists|g: int, now: i64|
            0 <= g < self.guests@.len() && #[trigger] self.revokes_to(g, now, after)
        ||| (after.invites == self.invites && after.guests == self.guests)
    }
}

/// Redeeming an invite spends it.
pub proof fn redeeming_spends_the_invite(
    db: StateDb,
    hash: Seq<u8>,
    peer_id: Seq<char>,
    now: i64,
    outcome: Redemption,
    after: StateDb,
)
    requires
        db.wf(),
        db.redeems_to(hash, peer_id, now, outcome, after),
        outcome is Activated,
    ensures
        after.spent(hash),
{
    lemma_guest_of_peer(db.guests@, peer_id);
    lemma_invite_of_hash(db.invites@, hash);
    lemma_invite_of_hash(after.invites@, hash);
    match db.redeem_case(hash, peer_id, now) {
        RedeemCase::Again(g) => {
            assert(redeemed(db.invites@, db.guests@[g]));
            lemma_invite_of_id(db.invites@, db.guests@[g].invite_id);
        },
        RedeemCase::Bind(k) => {
            assert(after.invites@[k].secret_hash == db.invites@[k].secret_hash);
        },
        _ => {},
    }
}

/// No operation makes a spent invite fresh again: neither another redemption, nor a
/// new invite, nor a guest being seen, revoked or leaving.
#[verifier::spinoff_prover]
#[verifier::rlimit(40)]
pub proof fn spent_invites_stay_spent(db: StateDb, after: StateDb, hash: Seq<u8>)
    requires
        db.wf(),
        db.step(after) || (exists|g: int| #[trigger] db.leaves_to(g, after)),
        db.spent(hash),
    ensures
        after.spent(hash),
{
    let k = invite_of_hash(db.invites@, hash)->0;
    lemma_invite_of_hash(db.invites@, hash);
    lemma_invite_of_hash(after.invites@, hash);
    if exists|h: Seq<u8>, p: Seq<char>, t: i64, o: Redemption|
        #[trigger] db.redeems_to(h, p, t, o, after) {
        let (h, p, t, o) = choose|h: Seq<u8>, p: Seq<char>, t: i64, o: Redemption|
            #[trigger] db.redeems_to(h, p, t, o, after);
        lemma_invite_of_hash(db.invites@, h);
        match db.redeem_case(h, p, t) {
            RedeemCase::Bind(b) => {
                assert(after.invites@[k].secret_hash@ == hash);
                assert(after.invites@[k].row.consumed_at is Some);
                let w = invite_of_hash(after.invites@, hash)->0;
                assert(db.invites@[w].secret_hash@ == hash);
            },
            _ => {},
        }
    } else if exists|invite: NewInvite, now: i64, id: i64|
        invite_of_hash(db.invites@, sha256_digest(invite.secret.0@)) is None
            && #[trigger] db.creates_to(invite, now, id, after) {
        let (invite, now, id) = choose|invite: NewInvite, now: i64, id: i64|
            invite_of_hash(db.invites@, sha256_digest(invite.secret.0@)) is None
                && #[trigger] db.creates_to(invite, now, id, after);
        lemma_invite_of_hash(db.invites@, sha256_digest(invite.secret.0@));
        let p = next_place(invite_ids(db.invites@));
        lemma_ids(db.invites@);
        lemma_next_place(invite_ids(db.invites@));
        lemma_let_in(db.invites@, after.invites@, p);
        let moved = if k < p {
            k
        } else {
            k + 1
        };
        assert(after.invites@[moved] == db.invites@[k]);
        assert(after.invites@[p].secret_hash@ != hash);
        let w = invite_of_hash(after.invites@, hash)->0;
        let o = if w < p {
            w
        } else {
            w - 1
        };
        assert(after.invites@[w] == db.invites@[o]);
    }
}

/// A spent invite binds nobody: whoever presents it is refused, but for the guest
/// that redeemed it, which is told again what it was told then.
pub proof fn spent_invites_bind_nobody(db: StateDb, hash: Seq<u8>, peer_id: Seq<char>, now: i64)
    requires
        db.wf(),
        db.spent(hash),
    ensures
        match guest_of_peer(db.guests@, peer_id) {
            None => db.redeem_case(hash, peer_id, now) == RedeemCase::Refused(
                ActivationError::InviteConsumed,
            ),
            Some(g) => db.redeem_case(hash, peer_id, now) is Refused || (db.redeem_case(
                hash,
                peer_id,
                now,
            ) == RedeemCase::Again(g) && db.bound_by(db.guests@[g], hash)),
        },
        forall|other: Seq<char>, g: int|
            #![trigger db.bound_by(db.guests@[g], hash), db.redeem_case(hash, other, now)]
            0 <= g < db.guests@.len() && db.bound_by(db.guests@[g], hash) && other
                != db.guests@[g].node.peer_id@ ==> db.redeem_case(hash, other, now) is Refused,
{
    assert forall|other: Seq<char>, g: int|
        #![trigger db.bound_by(db.guests@[g], hash), db.redeem_case(hash, other, now)]
        0 <= g < db.guests@.len() && db.bound_by(db.guests@[g], hash) && other
            != db.guests@[g].node.peer_id@ implies db.redeem_case(hash, other, now) is Refused by {
        lemma_guest_of_peer(db.guests@, other);
        match guest_of_peer(db.guests@, other) {
            Some(o) => {
                lemma_invite_of_id(db.invites@, db.guests@[g].invite_id);
                lemma_invite_of_id(db.invites@, db.guests@[o].invite_id);
                if db.bound_by(db.guests@[o], hash) {
                    let a = invite_of_id(db.invites@, db.guests@[g].invite_id)->0;
                    let b = invite_of_id(db.invites@, db.guests@[o].invite_id)->0;
                    assert(db.invites@[a].secret_hash@ == db.invites@[b].secret_hash@);
                    assert(a == b);
                    assert(o == g);
                }
            },
            None => {},
        }
    }
}

/// A lost response is harmless: a peer that redeems its invite again, however late,
/// gets the same node, and nothing changes.
pub proof fn redeeming_again_is_idempotent(
    db: StateDb,
    hash: Seq<u8>,
    peer_id: Seq<char>,
    now: i64,
    node: GuestNode,
    after: StateDb,
    later: i64,
    outcome: Redemption,
    last: StateDb,
)
    requires
        db.wf(),
        after.wf(),
        db.redeems_to(hash, peer_id, now, Redemption::Activated(node), after),
        after.redeems_to(hash, peer_id, later, outcome, last),
    ensures
        last == after,
        outcome matches Redemption::Activated(again) && again.deep_view() == node.deep_view(),
{
    lemma_guest_of_peer(db.guests@, peer_id);
    lemma_guest_of_peer(after.guests@, peer_id);
    match db.redeem_case(hash, peer_id, now) {
        RedeemCase::Bind(k) => {
            lemma_invite_of_hash(db.invites@, hash);
            let id = db.invites@[k].row.id;
            lemma_invite_of_id(after.invites@, id);
            assert(after.invites@[k].row.id == id);
            let p = next_place(guest_numbers(db.guests@));
            lemma_numbers(db.guests@);
            lemma_next_place(guest_numbers(db.guests@));
            assert(after.guests@[p].node.peer_id@ == peer_id);
            let w = guest_of_peer(after.guests@, peer_id)->0;
            if w != p {
                lemma_let_in(db.guests@, after.guests@, p);
            }
            assert(guest_of_peer(after.guests@, peer_id) == Some(p));
            assert(invite_of_id(after.invites@, id) == Some(k));
        },
        _ => {},
    }
}

/// A revoked key is never bound again, whatever invite it presents.
pub proof fn revoked_peers_are_refused(
    db: StateDb,
    hash: Seq<u8>,
    peer_id: Seq<char>,
    now: i64,
    outcome: Redemption,
    after: StateDb,
)
    requires
        db.revoked(peer_id),
        db.redeems_to(hash, peer_id, now, outcome, after),
    ensures
        outcome == Redemption::Refused(ActivationError::Revoked),
        after == db,
{
}

/// A revocation lasts: no operation on the state clears it.
#[verifier::spinoff_prover]
#[verifier::rlimit(40)]
pub proof fn revoked_peers_stay_revoked(db: StateDb, after: StateDb, peer_id: Seq<char>)
    requires
        db.wf(),
        db.step(after),
        db.revoked(peer_id),
    ensures
        after.revoked(peer_id),
{
    let r = guest_of_peer(db.guests@, peer_id)->0;
    lemma_guest_of_peer(db.guests@, peer_id);
    lemma_guest_of_peer(after.guests@, peer_id);
    if exists|h: Seq<u8>, p: Seq<char>, t: i64, o: Redemption|
        #[trigger] db.redeems_to(h, p, t, o, after) {
        let (h, p, t, o) = choose|h: Seq<u8>, p: Seq<char>, t: i64, o: Redemption|
            #[trigger] db.redeems_to(h, p, t, o, after);
        match db.redeem_case(h, p, t) {
            RedeemCase::Bind(b) => {
                let at = next_place(guest_numbers(db.guests@));
                lemma_numbers(db.guests@);
                lemma_next_place(guest_numbers(db.guests@));
                lemma_let_in(db.guests@, after.guests@, at);
                let moved = if r < at {
                    r
                } else {
                    r + 1
                };
                assert(after.guests@[moved] == db.guests@[r]);
                lemma_guest_of_peer(db.guests@, p);
                assert(p != peer_id);
                let w = guest_of_peer(after.guests@, peer_id)->0;
                assert(w != at);
                let o = if w < at {
                    w
                } else {
                    w - 1
                };
                assert(after.guests@[w] == db.guests@[o]);
            },
            _ => {},
        }
    } else if exists|p: Seq<char>, t: i64| #[trigger] db.touches_to(p, t, after) {
        let (p, t) = choose|p: Seq<char>, t: i64| #[trigger] db.touches_to(p, t, after);
        lemma_guest_of_peer(db.guests@, p);
        assert(after.guests@[r].node.peer_id@ == peer_id);
        let w = guest_of_peer(after.guests@, peer_id)->0;
        assert(db.guests@[w].node.peer_id@ == peer_id);
    } else if exists|g: int, t: i64|
        0 <= g < db.guests@.len() && #[trigger] db.revokes_to(g, t, after) {
        let (g, t) = choose|g: int, t: i64|
            0 <= g < db.guests@.len() && #[trigger] db.revokes_to(g, t, after);
        assert(after.guests@[r].node.peer_id@ == peer_id);
        let w = guest_of_peer(after.guests@, peer_id)->0;
        assert(db.guests@[w].node.peer_id@ == peer_id);
    }
}

/// A guest that leaves is forgotten outright: its peer is bound to nothing, and
/// everybody else is as before.
pub proof fn leaving_forgets_the_guest(db: StateDb, g: int, after: StateDb)
    requires
        db.wf(),
        db.leaves_to(g, after),
    ensures
        guest_of_peer(after.guests@, db.guests@[g].node.peer_id@) is None,
        forall|i: int|
            0 <= i < db.guests@.len() && i != g ==> after.guests@.contains(#[trigger] db.guests@[i]),
{
    let peer_id = db.guests@[g].node.peer_id@;
    lemma_guest_of_peer(after.guests@, peer_id);
    if guest_of_peer(after.guests@, peer_id) is Some {
        let w = guest_of_peer(after.guests@, peer_id)->0;
        let k = if w < g {
            w
        } else {
            w + 1
        };
        assert(after.guests@[w] == db.guests@[k]);
    }
    assert forall|i: int| 0 <= i < db.guests@.len() && i != g implies after.guests@.contains(
        #[trigger] db.guests@[i],
    ) by {
        let k = if i < g {
            i
        } else {
            i - 1
        };
        assert(after.guests@[k] == db.guests@[i]);
    }
}

/// A redemption that is refused, or that a guest repeats, changes nothing: every row of the
/// invites and of the guests stays as it is.
pub proof fn refused_and_repeated_redemptions_change_nothing(
    db: StateDb,
    hash: Seq<u8>,
    peer_id: Seq<char>,
    now: i64,
    outcome: Redemption,
    after: StateDb,
)
    requires
        db.redeems_to(hash, peer_id, now, outcome, after),
        outcome is Refused || guest_of_peer(db.guests@, peer_id) is Some,
    ensures
        after == db,
{
}

impl StateDb {
    /// Whether one operation turns this state into `after`: an invite being recorded or
    /// redeemed, a guest being seen, revoked or leaving, or anything that touches neither.
    pub open spec fn any_step(self, after: StateDb) -> bool {
        self.step(after) || exists|g: int| #[trigger] self.leaves_to(g, after)
    }

    /// Whether that peer alone is bound by the invite of that secret hash, if anybody is.
    pub open spec fn binds_only(self, hash: Seq<u8>, peer_id: Seq<char>) -> bool {
        forall|g: int|
            0 <= g < self.guests@.len() && self.bound_by(#[trigger] self.guests@[g], hash)
                ==> self.guests@[g].node.peer_id@ == peer_id
    }
}

/// Whether each of the states follows from the one before by one operation.
pub open spec fn history(states: Seq<StateDb>) -> bool {
    &&& forall|i: int| 0 <= i < states.len() ==> (#[trigger] states[i]).wf()
    &&& forall|i: int|
        0 <= i < states.len() - 1 ==> (#[trigger] states[i]).any_step(states[i + 1])
}

/// A change of the invites that keeps their IDs and secrets, and lets in at most a new one at
/// `p`, binds every guest as before.
proof fn lemma_bound_as_before(a: StateDb, b: StateDb, p: int, guest: GuestRecord, hash: Seq<u8>)
    requires
        a.wf(),
        b.wf(),
        redeemed(a.invites@, guest),
        a.invites@.len() + (if p < b.invites@.len() {
            1int
        } else {
            0
        }) == b.invites@.len(),
        forall|i: int|
            0 <= i < a.invites@.len() ==> {
                let j = if i < p {
                    i
                } else {
                    i + 1
                };
                &&& b.invites@[j].row.id == (#[trigger] a.invites@[i]).row.id
                &&& b.invites@[j].secret_hash == a.invites@[i].secret_hash
            },
    ensures
        b.bound_by(guest, hash) == a.bound_by(guest, hash),
{
    lemma_invite_of_id(a.invites@, guest.invite_id);
    lemma_invite_of_id(b.invites@, guest.invite_id);
    let i = invite_of_id(a.invites@, guest.invite_id)->0;
    let k = if i < p {
        i
    } else {
        i + 1
    };
    assert(b.invites@[k].row.id == a.invites@[i].row.id);
    let w = invite_of_id(b.invites@, guest.invite_id)->0;
    if k < w {
        assert(b.invites@[k].row.id < b.invites@[w].row.id);
    } else if w < k {
        assert(b.invites@[w].row.id < b.invites@[k].row.id);
    }
}

/// Redeeming an invite binds that peer alone.
#[verifier::spinoff_prover]
#[verifier::rlimit(40)]
proof fn lemma_redeeming_binds_only(
    db: StateDb,
    hash: Seq<u8>,
    peer_id: Seq<char>,
    now: i64,
    outcome: Redemption,
    after: StateDb,
)
    requires
        db.wf(),
        after.wf(),
        db.redeems_to(hash, peer_id, now, outcome, after),
        outcome is Activated,
    ensures
        after.binds_only(hash, peer_id),
{
    lemma_guest_of_peer(db.guests@, peer_id);
    lemma_invite_of_hash(db.invites@, hash);
    match db.redeem_case(hash, peer_id, now) {
        RedeemCase::Again(g) => {
            assert forall|o: int|
                0 <= o < after.guests@.len() && after.bound_by(
                    #[trigger] after.guests@[o],
                    hash,
                ) implies after.guests@[o].node.peer_id@ == peer_id by {
                lemma_same_invite_same_guest(db, g, o, hash);
            }
        },
        RedeemCase::Bind(k) => {
            assert forall|o: int|
                0 <= o < after.guests@.len() && after.bound_by(
                    #[trigger] after.guests@[o],
                    hash,
                ) implies after.guests@[o].node.peer_id@ == peer_id by {
                let p = next_place(guest_numbers(db.guests@));
                lemma_numbers(db.guests@);
                lemma_next_place(guest_numbers(db.guests@));
                if o != p {
                    lemma_let_in(db.guests@, after.guests@, p);
                    let g = if o < p {
                        o
                    } else {
                        o - 1
                    };
                    assert(after.guests@[o] == db.guests@[g]);
                    assert(redeemed(db.invites@, db.guests@[g]));
                    lemma_bound_as_before(
                        db,
                        after,
                        after.invites@.len() as int,
                        db.guests@[g],
                        hash,
                    );
                    lemma_invite_of_id(db.invites@, db.guests@[g].invite_id);
                    let w = invite_of_id(db.invites@, db.guests@[g].invite_id)->0;
                    // The invite was not consumed, so no guest had redeemed it.
                    assert(w == k);
                }
            }
        },
        _ => {},
    }
}

/// Two guests that the same invite bound are the same.
proof fn lemma_same_invite_same_guest(db: StateDb, g: int, o: int, hash: Seq<u8>)
    requires
        db.wf(),
        0 <= g < db.guests@.len(),
        0 <= o < db.guests@.len(),
        db.bound_by(db.guests@[g], hash),
        db.bound_by(db.guests@[o], hash),
    ensures
        o == g,
{
    lemma_invite_of_id(db.invites@, db.guests@[g].invite_id);
    lemma_invite_of_id(db.invites@, db.guests@[o].invite_id);
    let a = invite_of_id(db.invites@, db.guests@[g].invite_id)->0;
    let b = invite_of_id(db.invites@, db.guests@[o].invite_id)->0;
    assert(db.invites@[a].secret_hash@ == db.invites@[b].secret_hash@);
    assert(a == b);
}

/// No operation binds anybody else to a spent invite.
#[verifier::spinoff_prover]
#[verifier::rlimit(40)]
proof fn lemma_step_binds_only(db: StateDb, after: StateDb, hash: Seq<u8>, peer_id: Seq<char>)
    requires
        db.wf(),
        after.wf(),
        db.any_step(after),
        db.spent(hash),
        db.binds_only(hash, peer_id),
    ensures
        after.spent(hash),
        after.binds_only(hash, peer_id),
{
    spent_invites_stay_spent(db, after, hash);
    lemma_invite_of_hash(db.invites@, hash);
    assert forall|o: int|
        0 <= o < after.guests@.len() && after.bound_by(
            #[trigger] after.guests@[o],
            hash,
        ) implies after.guests@[o].node.peer_id@ == peer_id by {
        if exists|h: Seq<u8>, p: Seq<char>, t: i64, r: Redemption|
            #[trigger] db.redeems_to(h, p, t, r, after) {
            let (h, p, t, r) = choose|h: Seq<u8>, p: Seq<char>, t: i64, r: Redemption|
                #[trigger] db.redeems_to(h, p, t, r, after);
            match db.redeem_case(h, p, t) {
                RedeemCase::Bind(k) => {
                    lemma_invite_of_hash(db.invites@, h);
                    let at = next_place(guest_numbers(db.guests@));
                    lemma_numbers(db.guests@);
                    lemma_next_place(guest_numbers(db.guests@));
                    if o != at {
                        lemma_let_in(db.guests@, after.guests@, at);
                        let g = if o < at {
                            o
                        } else {
                            o - 1
                        };
                        assert(after.guests@[o] == db.guests@[g]);
                        assert(redeemed(db.invites@, db.guests@[g]));
                        lemma_bound_as_before(
                            db,
                            after,
                            after.invites@.len() as int,
                            db.guests@[g],
                            hash,
                        );
                        assert(db.bound_by(db.guests@[g], hash));
                    } else {
                        // The invite that was redeemed just now was not a spent one.
                        lemma_invite_of_id(after.invites@, after.guests@[o].invite_id);
                        let w = invite_of_id(after.invites@, after.guests@[o].invite_id)->0;
                        assert(after.invites@[k].row.id == after.guests@[o].invite_id);
                        if k < w {
                            assert(after.invites@[k].row.id < after.invites@[w].row.id);
                        } else if w < k {
                            assert(after.invites@[w].row.id < after.invites@[k].row.id);
                        }
                        assert(db.invites@[k].secret_hash@ == hash);
                    }
                },
                _ => {
                    assert(db.bound_by(db.guests@[o], hash));
                },
            }
        } else if exists|invite: NewInvite, now: i64, id: i64|
            invite_of_hash(db.invites@, sha256_digest(invite.secret.0@)) is None
                && #[trigger] db.creates_to(invite, now, id, after) {
            let p = next_place(invite_ids(db.invites@));
            lemma_ids(db.invites@);
            lemma_next_place(invite_ids(db.invites@));
            lemma_let_in(db.invites@, after.invites@, p);
            assert(redeemed(db.invites@, db.guests@[o]));
            lemma_bound_as_before(db, after, p, db.guests@[o], hash);
        } else if exists|p: Seq<char>, t: i64| #[trigger] db.touches_to(p, t, after) {
            let (p, t) = choose|p: Seq<char>, t: i64| #[trigger] db.touches_to(p, t, after);
            lemma_guest_of_peer(db.guests@, p);
            assert(db.bound_by(db.guests@[o], hash));
        } else if exists|g: int, t: i64|
            0 <= g < db.guests@.len() && #[trigger] db.revokes_to(g, t, after) {
            assert(db.bound_by(db.guests@[o], hash));
        } else if exists|g: int| #[trigger] db.leaves_to(g, after) {
            let g = choose|g: int| #[trigger] db.leaves_to(g, after);
            let k = if o < g {
                o
            } else {
                o + 1
            };
            assert(after.guests@[o] == db.guests@[k]);
            assert(db.bound_by(db.guests@[k], hash));
        } else {
            assert(db.bound_by(db.guests@[o], hash));
        }
    }
}

proof fn lemma_history_binds_only(
    states: Seq<StateDb>,
    hash: Seq<u8>,
    peer_id: Seq<char>,
    from: int,
    to: int,
)
    requires
        history(states),
        0 <= from <= to < states.len(),
        states[from].spent(hash),
        states[from].binds_only(hash, peer_id),
    ensures
        states[to].spent(hash),
        states[to].binds_only(hash, peer_id),
    decreases to - from,
{
    if from < to {
        lemma_history_binds_only(states, hash, peer_id, from, to - 1);
        assert(states[to - 1].any_step(states[to - 1 + 1]));
        lemma_step_binds_only(states[to - 1], states[to], hash, peer_id);
    }
}

/// An invite makes at most one peer a guest. Once it was redeemed, whatever happens since (new
/// invites and redemptions, guests being seen, revoked and leaving, the one that redeemed it
/// included), any other peer that presents it is refused, at any time.
pub proof fn invites_make_one_guest(
    states: Seq<StateDb>,
    hash: Seq<u8>,
    peer_id: Seq<char>,
    now: i64,
    outcome: Redemption,
    other: Seq<char>,
    later: i64,
    answer: Redemption,
    last: StateDb,
)
    requires
        history(states),
        states.len() >= 2,
        states[0].redeems_to(hash, peer_id, now, outcome, states[1]),
        outcome is Activated,
        other != peer_id,
        states.last().redeems_to(hash, other, later, answer, last),
    ensures
        answer is Refused,
        last == states.last(),
{
    assert(states[0].wf() && states[1].wf());
    redeeming_spends_the_invite(states[0], hash, peer_id, now, outcome, states[1]);
    lemma_redeeming_binds_only(states[0], hash, peer_id, now, outcome, states[1]);
    lemma_history_binds_only(states, hash, peer_id, 1, states.len() - 1);
    let db = states.last();
    assert(db.wf());
    spent_invites_bind_nobody(db, hash, other, later);
    lemma_guest_of_peer(db.guests@, other);
}

/// A revocation lasts, whatever happens since, as long as the guest's row is there.
pub proof fn revocations_last(states: Seq<StateDb>, peer_id: Seq<char>, to: int)
    requires
        history(states),
        0 <= to < states.len(),
        states[0].revoked(peer_id),
        forall|i: int| 0 <= i < to ==> (#[trigger] states[i]).step(states[i + 1]),
    ensures
        states[to].revoked(peer_id),
    decreases to,
{
    if to > 0 {
        revocations_last(states, peer_id, to - 1);
        assert(states[to - 1].wf());
        assert(states[to - 1].step(states[to - 1 + 1]));
        revoked_peers_stay_revoked(states[to - 1], states[to], peer_id);
    }
}

//-- What the operations do to the rows -------------------------------------------
/// Redeeming goes by the rows. A peer that is a guest is told what its own row says, and
/// nothing changes. Any other peer is bound if the secret is that of an invite which is
/// unused and has not expired: to the user and the node name of that invite and no other,
/// under a number that nobody has. The invite is then used, and every other row is as
/// before.
#[verifier::spinoff_prover]
#[verifier::rlimit(60)]
pub proof fn redeeming_goes_by_the_rows(
    db: StateDb,
    hash: Seq<u8>,
    peer_id: Seq<char>,
    now: i64,
    outcome: Redemption,
    after: StateDb,
)
    requires
        db.wf(),
        db.redeems_to(hash, peer_id, now, outcome, after),
    ensures
        after.kv == db.kv,
        forall|g: int|
            0 <= g < db.guests@.len() && (#[trigger] db.guests@[g]).node.peer_id@ == peer_id ==> {
                &&& after == db
                &&& if db.guests@[g].node.revoked_at is Some {
                    outcome == Redemption::Refused(ActivationError::Revoked)
                } else if exists|k: int|
                    0 <= k < db.invites@.len() && (#[trigger] db.invites@[k]).row.id
                        == db.guests@[g].invite_id && db.invites@[k].secret_hash@ == hash {
                    outcome matches Redemption::Activated(node) && {
                        &&& node.number == db.guests@[g].node.number
                        &&& node.peer_id@ == peer_id
                        &&& node.user_id@ == db.guests@[g].node.user_id@
                        &&& node.display_name@ == db.guests@[g].node.display_name@
                        &&& node.activated_at == db.guests@[g].node.activated_at
                        &&& node.last_seen_at == db.guests@[g].node.last_seen_at
                        &&& node.revoked_at is None
                    }
                } else {
                    outcome == Redemption::Refused(ActivationError::AlreadyGuest)
                }
            },
        (forall|g: int|
            0 <= g < db.guests@.len() ==> (#[trigger] db.guests@[g]).node.peer_id@ != peer_id)
            && (forall|k: int|
            0 <= k < db.invites@.len() ==> (#[trigger] db.invites@[k]).secret_hash@ != hash)
            ==> outcome == Redemption::Refused(ActivationError::InviteUnknown) && after == db,
        forall|k: int|
            0 <= k < db.invites@.len() && (#[trigger] db.invites@[k]).secret_hash@ == hash && (
            forall|g: int|
                0 <= g < db.guests@.len() ==> (#[trigger] db.guests@[g]).node.peer_id@ != peer_id)
                ==> if db.invites@[k].row.consumed_at is Some {
                outcome == Redemption::Refused(ActivationError::InviteConsumed) && after == db
            } else if db.invites@[k].row.expires_at <= now {
                outcome == Redemption::Refused(ActivationError::InviteExpired) && after == db
            } else {
                &&& outcome matches Redemption::Activated(node) && {
                    &&& node.user_id@ == db.invites@[k].row.user_id@
                    &&& node.display_name@ == db.invites@[k].row.node_name@
                    &&& node.peer_id@ == peer_id
                    &&& node.activated_at == now
                    &&& node.last_seen_at is None
                    &&& node.revoked_at is None
                    &&& node.number >= 1
                    &&& forall|g: int|
                        0 <= g < db.guests@.len() ==> (#[trigger] db.guests@[g]).node.number
                            != node.number
                    &&& exists|p: int|
                        0 <= p < after.guests@.len() && {
                            &&& (#[trigger] after.guests@[p]).invite_id == db.invites@[k].row.id
                            &&& after.guests@[p].node.number == node.number
                            &&& after.guests@[p].node.peer_id@ == peer_id
                            &&& after.guests@[p].node.user_id@ == db.invites@[k].row.user_id@
                            &&& after.guests@[p].node.display_name@
                                == db.invites@[k].row.node_name@
                            &&& after.guests@[p].node.activated_at == now
                            &&& after.guests@[p].node.last_seen_at is None
                            &&& after.guests@[p].node.revoked_at is None
                        }
                }
                &&& after.guests@.len() == db.guests@.len() + 1
                &&& forall|g: int|
                    0 <= g < db.guests@.len() ==> after.guests@.contains(#[trigger] db.guests@[g])
                &&& after.invites@.len() == db.invites@.len()
                &&& forall|j: int|
                    0 <= j < db.invites@.len() && j != k ==> #[trigger] after.invites@[j]
                        == db.invites@[j]
                &&& after.invites@[k].secret_hash == db.invites@[k].secret_hash
                &&& after.invites@[k].row.consumed_at == Some(now)
                &&& after.invites@[k].row.id == db.invites@[k].row.id
                &&& after.invites@[k].row.user_id == db.invites@[k].row.user_id
                &&& after.invites@[k].row.node_name == db.invites@[k].row.node_name
                &&& after.invites@[k].row.created_at == db.invites@[k].row.created_at
                &&& after.invites@[k].row.expires_at == db.invites@[k].row.expires_at
            },
{
    lemma_guest_of_peer(db.guests@, peer_id);
    lemma_invite_of_hash(db.invites@, hash);
    assert forall|g: int|
        0 <= g < db.guests@.len() && (#[trigger] db.guests@[g]).node.peer_id@ == peer_id implies
        guest_of_peer(db.guests@, peer_id) == Some(g) by {
        let w = guest_of_peer(db.guests@, peer_id)->0;
        if w < g {
            assert(db.guests@[w].node.peer_id@ != db.guests@[g].node.peer_id@);
        } else if g < w {
            assert(db.guests@[g].node.peer_id@ != db.guests@[w].node.peer_id@);
        }
    }
    assert forall|k: int|
        0 <= k < db.invites@.len() && (#[trigger] db.invites@[k]).secret_hash@ == hash implies
        invite_of_hash(db.invites@, hash) == Some(k) by {
        let w = invite_of_hash(db.invites@, hash)->0;
        if w < k {
            assert(db.invites@[w].secret_hash@ != db.invites@[k].secret_hash@);
        } else if k < w {
            assert(db.invites@[k].secret_hash@ != db.invites@[w].secret_hash@);
        }
    }
    match db.redeem_case(hash, peer_id, now) {
        RedeemCase::Bind(k) => {
            let p = next_place(guest_numbers(db.guests@));
            lemma_numbers(db.guests@);
            lemma_next_place(guest_numbers(db.guests@));
            lemma_let_in(db.guests@, after.guests@, p);
            assert forall|g: int| 0 <= g < db.guests@.len() implies after.guests@.contains(
                #[trigger] db.guests@[g],
            ) && db.guests@[g].node.number != next_id(guest_numbers(db.guests@)) by {
                assert(guest_numbers(db.guests@)[g] == db.guests@[g].node.number);
                let moved = if g < p {
                    g
                } else {
                    g + 1
                };
                assert(after.guests@[moved] == db.guests@[g]);
            }
            assert(after.guests@[p].node.deep_view() == db.bound_guest(k, peer_id, now));
        },
        _ => {
            if let Some(g) = guest_of_peer(db.guests@, peer_id) {
                lemma_invite_of_id(db.invites@, db.guests@[g].invite_id);
                assert forall|k: int|
                    0 <= k < db.invites@.len() && (#[trigger] db.invites@[k]).row.id
                        == db.guests@[g].invite_id implies invite_of_id(
                    db.invites@,
                    db.guests@[g].invite_id,
                ) == Some(k) by {
                    let w = invite_of_id(db.invites@, db.guests@[g].invite_id)->0;
                    if w < k {
                        assert(db.invites@[w].row.id < db.invites@[k].row.id);
                    } else if k < w {
                        assert(db.invites@[k].row.id < db.invites@[w].row.id);
                    }
                }
            }
        },
    }
}

/// A peer that could be bound is, unless there is a guest for every number there is.
pub proof fn guests_run_out_with_the_numbers(
    db: StateDb,
    hash: Seq<u8>,
    peer_id: Seq<char>,
    now: i64,
)
    requires
        db.wf(),
        db.redeem_case(hash, peer_id, now) is Full,
    ensures
        db.guests@.len() == i64::MAX,
{
    lemma_numbers(db.guests@);
    lemma_first_gap(guest_numbers(db.guests@), 0);
    let last = db.guests@.len() - 1;
    assert(guest_numbers(db.guests@)[last] == last + 1);
}

/// The IDs of a table run out only with as many rows as there are IDs.
pub proof fn invites_run_out_with_the_ids(db: StateDb)
    requires
        db.wf(),
        used_up(invite_ids(db.invites@)),
    ensures
        db.invites@.len() == i64::MAX,
{
    lemma_ids(db.invites@);
    lemma_first_gap(invite_ids(db.invites@), 0);
    let last = db.invites@.len() - 1;
    assert(invite_ids(db.invites@)[last] == last + 1);
}

/// An invite is recorded as it was asked for, unused, under an ID that no other has, and
/// everything else is as before.
pub proof fn recording_adds_the_invite(
    db: StateDb,
    invite: NewInvite,
    now: i64,
    id: i64,
    after: StateDb,
)
    requires
        db.wf(),
        db.creates_to(invite, now, id, after),
    ensures
        after.kv == db.kv,
        after.guests == db.guests,
        after.invites@.len() == db.invites@.len() + 1,
        id >= 1,
        forall|k: int| 0 <= k < db.invites@.len() ==> (#[trigger] db.invites@[k]).row.id != id,
        forall|k: int|
            0 <= k < db.invites@.len() ==> after.invites@.contains(#[trigger] db.invites@[k]),
        exists|p: int|
            0 <= p < after.invites@.len() && {
                &&& (#[trigger] after.invites@[p]).row.id == id
                &&& after.invites@[p].secret_hash@ == sha256_digest(invite.secret.0@)
                &&& after.invites@[p].row.user_id@ == invite.user_id@
                &&& after.invites@[p].row.node_name@ == invite.node_name@
                &&& after.invites@[p].row.created_at == now
                &&& after.invites@[p].row.expires_at == invite.expires_at
                &&& after.invites@[p].row.consumed_at is None
            },
{
    let p = next_place(invite_ids(db.invites@));
    lemma_ids(db.invites@);
    lemma_next_place(invite_ids(db.invites@));
    lemma_let_in(db.invites@, after.invites@, p);
    assert forall|k: int| 0 <= k < db.invites@.len() implies after.invites@.contains(
        #[trigger] db.invites@[k],
    ) && db.invites@[k].row.id != id by {
        assert(invite_ids(db.invites@)[k] == db.invites@[k].row.id);
        let moved = if k < p {
            k
        } else {
            k + 1
        };
        assert(after.invites@[moved] == db.invites@[k]);
    }
    assert(after.invites@[p].row.id == id);
}

impl StateDb {
    /// Whether an invite of that secret hash is recorded, made for that user and node name,
    /// and whoever it bound is that user with that node name.
    pub open spec fn stands_for(self, hash: Seq<u8>, user: Seq<char>, name: Seq<char>) -> bool {
        &&& exists|k: int|
            0 <= k < self.invites@.len() && (#[trigger] self.invites@[k]).secret_hash@ == hash
        &&& forall|k: int|
            0 <= k < self.invites@.len() && (#[trigger] self.invites@[k]).secret_hash@ == hash
                ==> self.invites@[k].row.user_id@ == user && self.invites@[k].row.node_name@ == name
        &&& forall|g: int|
            0 <= g < self.guests@.len() && self.bound_by(#[trigger] self.guests@[g], hash)
                ==> self.guests@[g].node.user_id@ == user && self.guests@[g].node.display_name@
                == name
    }
}

#[verifier::spinoff_prover]
#[verifier::rlimit(60)]
proof fn lemma_step_stands_for(
    db: StateDb,
    after: StateDb,
    hash: Seq<u8>,
    user: Seq<char>,
    name: Seq<char>,
)
    requires
        db.wf(),
        after.wf(),
        db.any_step(after),
        db.stands_for(hash, user, name),
    ensures
        after.stands_for(hash, user, name),
{
    let at = choose|k: int|
        0 <= k < db.invites@.len() && (#[trigger] db.invites@[k]).secret_hash@ == hash;
    if exists|h: Seq<u8>, p: Seq<char>, t: i64, r: Redemption|
        #[trigger] db.redeems_to(h, p, t, r, after) {
        let (h, p, t, r) = choose|h: Seq<u8>, p: Seq<char>, t: i64, r: Redemption|
            #[trigger] db.redeems_to(h, p, t, r, after);
        match db.redeem_case(h, p, t) {
            RedeemCase::Bind(k) => {
                lemma_invite_of_hash(db.invites@, h);
                assert(after.invites@[at].secret_hash@ == hash);
                let place = next_place(guest_numbers(db.guests@));
                lemma_numbers(db.guests@);
                lemma_next_place(guest_numbers(db.guests@));
                lemma_let_in(db.guests@, after.guests@, place);
                assert forall|j: int|
                    0 <= j < after.invites@.len() && (#[trigger] after.invites@[j]).secret_hash@
                        == hash implies after.invites@[j].row.user_id@ == user
                    && after.invites@[j].row.node_name@ == name by {
                    assert(db.invites@[j].secret_hash@ == hash);
                }
                assert forall|o: int|
                    0 <= o < after.guests@.len() && after.bound_by(
                        #[trigger] after.guests@[o],
                        hash,
                    ) implies after.guests@[o].node.user_id@ == user
                    && after.guests@[o].node.display_name@ == name by {
                    if o != place {
                        let g = if o < place {
                            o
                        } else {
                            o - 1
                        };
                        assert(after.guests@[o] == db.guests@[g]);
                        assert(redeemed(db.invites@, db.guests@[g]));
                        lemma_bound_as_before(
                            db,
                            after,
                            after.invites@.len() as int,
                            db.guests@[g],
                            hash,
                        );
                        assert(db.bound_by(db.guests@[g], hash));
                    } else {
                        lemma_invite_of_id(after.invites@, after.guests@[o].invite_id);
                        let w = invite_of_id(after.invites@, after.guests@[o].invite_id)->0;
                        assert(after.invites@[k].row.id == after.guests@[o].invite_id);
                        if k < w {
                            assert(after.invites@[k].row.id < after.invites@[w].row.id);
                        } else if w < k {
                            assert(after.invites@[w].row.id < after.invites@[k].row.id);
                        }
                        assert(db.invites@[k].secret_hash@ == hash);
                        assert(after.guests@[o].node.deep_view() == db.bound_guest(k, p, t));
                        assert(after.guests@[o].node.deep_view().user_id
                            == db.invites@[k].row.user_id@);
                    }
                }
            },
            _ => {},
        }
    } else if exists|invite: NewInvite, now: i64, id: i64|
        invite_of_hash(db.invites@, sha256_digest(invite.secret.0@)) is None
            && #[trigger] db.creates_to(invite, now, id, after) {
        let (invite, now, id) = choose|invite: NewInvite, now: i64, id: i64|
            invite_of_hash(db.invites@, sha256_digest(invite.secret.0@)) is None
                && #[trigger] db.creates_to(invite, now, id, after);
        lemma_invite_of_hash(db.invites@, sha256_digest(invite.secret.0@));
        let p = next_place(invite_ids(db.invites@));
        lemma_ids(db.invites@);
        lemma_next_place(invite_ids(db.invites@));
        lemma_let_in(db.invites@, after.invites@, p);
        assert(after.invites@[if at < p {
            at
        } else {
            at + 1
        }].secret_hash@ == hash);
        assert forall|j: int|
            0 <= j < after.invites@.len() && (#[trigger] after.invites@[j]).secret_hash@
                == hash implies after.invites@[j].row.user_id@ == user
            && after.invites@[j].row.node_name@ == name by {
            assert(j != p);
            let o = if j < p {
                j
            } else {
                j - 1
            };
            assert(after.invites@[j] == db.invites@[o]);
        }
        assert forall|o: int|
            0 <= o < after.guests@.len() && after.bound_by(
                #[trigger] after.guests@[o],
                hash,
            ) implies after.guests@[o].node.user_id@ == user
            && after.guests@[o].node.display_name@ == name by {
            assert(redeemed(db.invites@, db.guests@[o]));
            lemma_bound_as_before(db, after, p, db.guests@[o], hash);
            assert(db.bound_by(db.guests@[o], hash));
        }
    } else {
        assert(after.invites@[at].secret_hash@ == hash);
        assert forall|o: int|
            0 <= o < after.guests@.len() && after.bound_by(
                #[trigger] after.guests@[o],
                hash,
            ) implies after.guests@[o].node.user_id@ == user
            && after.guests@[o].node.display_name@ == name by {
            if exists|p: Seq<char>, t: i64| #[trigger] db.touches_to(p, t, after) {
                let (p, t) = choose|p: Seq<char>, t: i64| #[trigger] db.touches_to(p, t, after);
                lemma_guest_of_peer(db.guests@, p);
                assert(db.bound_by(db.guests@[o], hash));
            } else if exists|g: int, t: i64|
                0 <= g < db.guests@.len() && #[trigger] db.revokes_to(g, t, after) {
                assert(db.bound_by(db.guests@[o], hash));
            } else if exists|g: int| #[trigger] db.leaves_to(g, after) {
                let g = choose|g: int| #[trigger] db.leaves_to(g, after);
                let k = if o < g {
                    o
                } else {
                    o + 1
                };
                assert(after.guests@[o] == db.guests@[k]);
                assert(db.bound_by(db.guests@[k], hash));
            } else {
                assert(db.bound_by(db.guests@[o], hash));
            }
        }
    }
}

proof fn lemma_history_stands_for(
    states: Seq<StateDb>,
    hash: Seq<u8>,
    user: Seq<char>,
    name: Seq<char>,
    from: int,
    to: int,
)
    requires
        history(states),
        0 <= from <= to < states.len(),
        states[from].stands_for(hash, user, name),
    ensures
        states[to].stands_for(hash, user, name),
    decreases to - from,
{
    if from < to {
        lemma_history_stands_for(states, hash, user, name, from, to - 1);
        assert(states[to - 1].any_step(states[to - 1 + 1]));
        lemma_step_stands_for(states[to - 1], states[to], hash, user, name);
    }
}

/// An invite makes its own user a guest. Once an invite was recorded for a user, whatever
/// happens since, and whatever other invites there are, whoever redeems it is bound to that
/// user, with the node name that the invite was made for.
#[verifier::spinoff_prover]
#[verifier::rlimit(60)]
pub proof fn guests_are_the_users_their_invites_were_made_for(
    states: Seq<StateDb>,
    invite: NewInvite,
    now: i64,
    id: i64,
    peer_id: Seq<char>,
    later: i64,
    node: GuestNode,
    last: StateDb,
)
    requires
        history(states),
        states.len() >= 2,
        forall|k: int|
            0 <= k < states[0].invites@.len() ==> (
            #[trigger] states[0].invites@[k]).secret_hash@ != sha256_digest(invite.secret.0@),
        states[0].creates_to(invite, now, id, states[1]),
        states.last().redeems_to(
            sha256_digest(invite.secret.0@),
            peer_id,
            later,
            Redemption::Activated(node),
            last,
        ),
    ensures
        node.user_id@ == invite.user_id@,
        node.display_name@ == invite.node_name@,
        node.peer_id@ == peer_id,
{
    let hash = sha256_digest(invite.secret.0@);
    let a = states[0];
    let b = states[1];
    assert(a.wf() && b.wf());
    let p = next_place(invite_ids(a.invites@));
    lemma_ids(a.invites@);
    lemma_next_place(invite_ids(a.invites@));
    lemma_let_in(a.invites@, b.invites@, p);
    assert(b.invites@[p].secret_hash@ == hash);
    assert forall|k: int|
        0 <= k < b.invites@.len() && (#[trigger] b.invites@[k]).secret_hash@ == hash implies
        b.invites@[k].row.user_id@ == invite.user_id@ && b.invites@[k].row.node_name@
        == invite.node_name@ by {
        if k != p {
            let o = if k < p {
                k
            } else {
                k - 1
            };
            assert(b.invites@[k] == a.invites@[o]);
        }
    }
    assert forall|g: int|
        0 <= g < b.guests@.len() implies !b.bound_by(#[trigger] b.guests@[g], hash) by {
        assert(redeemed(a.invites@, a.guests@[g]));
        lemma_invite_of_id(a.invites@, a.guests@[g].invite_id);
        lemma_bound_as_before(a, b, p, a.guests@[g], hash);
    }
    lemma_history_stands_for(states, hash, invite.user_id@, invite.node_name@, 1, states.len() - 1);
    let db = states.last();
    assert(db.wf());
    lemma_guest_of_peer(db.guests@, peer_id);
    lemma_invite_of_hash(db.invites@, hash);
    match db.redeem_case(hash, peer_id, later) {
        RedeemCase::Bind(k) => {
            assert(node.deep_view() == db.bound_guest(k, peer_id, later));
            assert(node.deep_view().user_id == db.invites@[k].row.user_id@);
        },
        RedeemCase::Again(g) => {
            assert(db.bound_by(db.guests@[g], hash));
            assert(node.deep_view().user_id == db.guests@[g].node.deep_view().user_id);
        },
        _ => {},
    }
}

/// The invites that are shown are those that can still be redeemed and those of the last
/// seven days: all of them and no others, as they are recorded, the newest first.
pub proof fn shown_invites_are_open_or_recent(invites: Seq<InviteRecord>, now: i64)
    ensures
        shown_invites(invites, invites.len() as int, now) == invites.filter(
            |i: InviteRecord|
                (i.row.consumed_at is None && i.row.expires_at > now) || i.row.created_at > now - 7
                    * 24 * 3600,
        ).reverse().map_values(|i: InviteRecord| i.row.deep_view()),
{
    lemma_shown(invites, invites.len() as int, now);
    assert(invites.take(invites.len() as int) =~= invites);
}

proof fn lemma_shown(invites: Seq<InviteRecord>, n: int, now: i64)
    requires
        0 <= n <= invites.len(),
    ensures
        shown_invites(invites, n, now) == invites.take(n).filter(
            |i: InviteRecord|
                (i.row.consumed_at is None && i.row.expires_at > now) || i.row.created_at > now - 7
                    * 24 * 3600,
        ).reverse().map_values(|i: InviteRecord| i.row.deep_view()),
    decreases n,
{
    reveal(Seq::filter);
    let f = |i: InviteRecord|
        (i.row.consumed_at is None && i.row.expires_at > now) || i.row.created_at > now - 7 * 24
            * 3600;
    let g = |i: InviteRecord| i.row.deep_view();
    if n > 0 {
        lemma_shown(invites, n - 1, now);
        let before = invites.take(n - 1).filter(f);
        assert(invites.take(n).drop_last() =~= invites.take(n - 1));
        assert(invites.take(n).last() == invites[n - 1]);
        if f(invites[n - 1]) {
            assert(invites.take(n).filter(f) == before.push(invites[n - 1]));
            assert(before.push(invites[n - 1]).reverse() =~= seq![invites[n - 1]]
                + before.reverse());
            assert((seq![invites[n - 1]] + before.reverse()).map_values(g)
                =~= seq![invites[n - 1].row.deep_view()] + before.reverse().map_values(g));
        } else {
            assert(invites.take(n).filter(f) == before);
        }
    } else {
        assert(invites.take(0).filter(f) =~= Seq::<InviteRecord>::empty());
        assert(Seq::<InviteRecord>::empty().reverse().map_values(g) =~= Seq::<
            InviteRowView,
        >::empty());
    }
}

/// Seeing a guest sets when it was last seen, and nothing else; revoking one sets when it was
/// revoked, unless it was before, and nothing else. Every other row stays as it is.
pub proof fn seeing_and_revoking_touch_one_time(db: StateDb, after: StateDb, g: int, now: i64)
    requires
        db.wf(),
        0 <= g < db.guests@.len(),
    ensures
        db.touches_to(db.guests@[g].node.peer_id@, now, after) ==> {
            &&& after.kv == db.kv && after.invites == db.invites
            &&& after.guests@.len() == db.guests@.len()
            &&& forall|i: int|
                0 <= i < db.guests@.len() && i != g ==> #[trigger] after.guests@[i] == db.guests@[i]
            &&& after.guests@[g].invite_id == db.guests@[g].invite_id
            &&& after.guests@[g].node == (GuestNode {
                last_seen_at: Some(now),
                ..db.guests@[g].node
            })
        },
        guest_of_number(db.guests@, db.guests@[g].node.number) == Some(g),
        guest_of_peer(db.guests@, db.guests@[g].node.peer_id@) == Some(g),
        db.revokes_to(g, now, after) ==> {
            &&& after.kv == db.kv && after.invites == db.invites
            &&& after.guests@.len() == db.guests@.len()
            &&& forall|i: int|
                0 <= i < db.guests@.len() && i != g ==> #[trigger] after.guests@[i] == db.guests@[i]
            &&& after.guests@[g].invite_id == db.guests@[g].invite_id
            &&& after.guests@[g].node == (GuestNode {
                revoked_at: if db.guests@[g].node.revoked_at is Some {
                    db.guests@[g].node.revoked_at
                } else {
                    Some(now)
                },
                ..db.guests@[g].node
            })
        },
{
    let peer_id = db.guests@[g].node.peer_id@;
    let number = db.guests@[g].node.number;
    lemma_guest_of_peer(db.guests@, peer_id);
    lemma_guest_of_number(db.guests@, number);
    let w = guest_of_peer(db.guests@, peer_id)->0;
    if w < g {
        assert(db.guests@[w].node.peer_id@ != db.guests@[g].node.peer_id@);
    } else if g < w {
        assert(db.guests@[g].node.peer_id@ != db.guests@[w].node.peer_id@);
    }
    let v = guest_of_number(db.guests@, number)->0;
    if v < g {
        assert(db.guests@[v].node.number < db.guests@[g].node.number);
    } else if g < v {
        assert(db.guests@[g].node.number < db.guests@[v].node.number);
    }
}

/// Nobody is found where nobody is.
pub proof fn strangers_are_not_found(db: StateDb, peer_id: Seq<char>, number: i64)
    ensures
        guest_of_peer(db.guests@, peer_id) is None <==> forall|g: int|
            0 <= g < db.guests@.len() ==> (#[trigger] db.guests@[g]).node.peer_id@ != peer_id,
        guest_of_number(db.guests@, number) is None <==> forall|g: int|
            0 <= g < db.guests@.len() ==> (#[trigger] db.guests@[g]).node.number != number,
{
    lemma_guest_of_peer(db.guests@, peer_id);
    lemma_guest_of_number(db.guests@, number);
}

/// A blob is found under its key wherever it stands, and nothing is found under another.
pub proof fn blobs_are_found_under_their_keys(kv: Seq<KvRow>, key: Seq<char>)
    requires
        kv_ok(kv),
    ensures
        forall|i: int|
            0 <= i < kv.len() && (#[trigger] kv[i]).key@ == key ==> kv_get(kv, key) == Some(
                kv[i].value@,
            ),
        (forall|i: int| 0 <= i < kv.len() ==> (#[trigger] kv[i]).key@ != key) ==> kv_get(
            kv,
            key,
        ) is None,
{
    assert forall|i: int| 0 <= i < kv.len() && (#[trigger] kv[i]).key@ == key implies kv_get(
        kv,
        key,
    ) == Some(kv[i].value@) by {
        lemma_kv_get(kv, i);
    }
    if forall|i: int| 0 <= i < kv.len() ==> (#[trigger] kv[i]).key@ != key {
        lemma_kv_absent(kv, key);
    }
}

/// The initialised shares are the entries with a config in them, each under its own name, in
/// the order in which they were found.
pub proof fn shares_are_the_entries_with_a_config(entries: Seq<DirEntry>)
    ensures
        share_names(entries, entries.len() as int) == entries.filter(
            |e: DirEntry| e.has_config,
        ).map_values(|e: DirEntry| e.name),
{
    lemma_share_names(entries, entries.len() as int);
    assert(entries.take(entries.len() as int) =~= entries);
}

proof fn lemma_share_names(entries: Seq<DirEntry>, n: int)
    requires
        0 <= n <= entries.len(),
    ensures
        share_names(entries, n) == entries.take(n).filter(|e: DirEntry| e.has_config).map_values(
            |e: DirEntry| e.name,
        ),
    decreases n,
{
    reveal(Seq::filter);
    let f = |e: DirEntry| e.has_config;
    let g = |e: DirEntry| e.name;
    if n > 0 {
        lemma_share_names(entries, n - 1);
        assert(entries.take(n).drop_last() =~= entries.take(n - 1));
        assert(entries.take(n).last() == entries[n - 1]);
        if entries[n - 1].has_config {
            assert(entries.take(n).filter(f) == entries.take(n - 1).filter(f).push(entries[n - 1]));
            assert(entries.take(n - 1).filter(f).push(entries[n - 1]).map_values(g)
                =~= entries.take(n - 1).filter(f).map_values(g).push(entries[n - 1].name));
        }
    } else {
        assert(entries.take(0).filter(f).map_values(g) =~= Seq::<String>::empty());
    }
}

/// The view of a guest and that of an invite hold every part of them.
pub proof fn rows_are_seen_whole(g: GuestNode, i: InviteRow)
    ensures
        ({
            let v = g.deep_view();
            &&& v.number == g.number
            &&& v.peer_id == g.peer_id@
            &&& v.user_id == g.user_id@
            &&& v.display_name == g.display_name@
            &&& v.activated_at == g.activated_at
            &&& v.last_seen_at == g.last_seen_at
            &&& v.revoked_at == g.revoked_at
        }),
        ({
            let v = i.deep_view();
            &&& v.id == i.id
            &&& v.user_id == i.user_id@
            &&& v.node_name == i.node_name@
            &&& v.created_at == i.created_at
            &&& v.expires_at == i.expires_at
            &&& v.consumed_at == i.consumed_at
        }),
{
}

/// The credentials are what is stored under their two keys, and there are none where either is
/// missing.
pub proof fn credentials_are_both_their_parts(kv: Seq<KvRow>)
    ensures
        connect_state(kv) matches Some((api_key, group)) ==> {
            &&& kv_get(kv, "api_key"@) matches Some(k) && api_key == utf8_lossy(k)
            &&& kv_get(kv, "connectivity_group_id"@) matches Some(g) && group == utf8_lossy(g)
        },
        connect_state(kv) is None <==> kv_get(kv, "api_key"@) is None || kv_get(
            kv,
            "connectivity_group_id"@,
        ) is None,
{
}

/// A peer that was activated is found as the guest that it was told to be, from then on: under
/// the same number and user.
pub proof fn activated_peers_are_found_as_guests(
    db: StateDb,
    hash: Seq<u8>,
    peer_id: Seq<char>,
    now: i64,
    node: GuestNode,
    after: StateDb,
)
    requires
        db.wf(),
        after.wf(),
        db.redeems_to(hash, peer_id, now, Redemption::Activated(node), after),
    ensures
        guest_of_peer(after.guests@, peer_id) matches Some(g) && {
            let found = after.guests@[g].node;
            &&& found.number == node.number
            &&& found.peer_id@ == peer_id
            &&& found.user_id@ == node.user_id@
            &&& found.display_name@ == node.display_name@
            &&& found.revoked_at is None
        },
{
    lemma_guest_of_peer(db.guests@, peer_id);
    lemma_guest_of_peer(after.guests@, peer_id);
    match db.redeem_case(hash, peer_id, now) {
        RedeemCase::Bind(k) => {
            let p = next_place(guest_numbers(db.guests@));
            lemma_numbers(db.guests@);
            lemma_next_place(guest_numbers(db.guests@));
            assert(after.guests@[p].node.deep_view() == db.bound_guest(k, peer_id, now));
            assert(after.guests@[p].node.peer_id@ == peer_id);
            let g = guest_of_peer(after.guests@, peer_id)->0;
            if g < p {
                assert(after.guests@[g].node.peer_id@ != after.guests@[p].node.peer_id@);
            } else if p < g {
                assert(after.guests@[p].node.peer_id@ != after.guests@[g].node.peer_id@);
            }
            assert(after.guests@[g].node.deep_view() == node.deep_view());
        },
        _ => {},
    }
}

/// The files of a share are in a directory of its own, named after it.
pub proof fn shares_have_directories_of_their_own(
    config_dir: Seq<char>,
    a: Seq<char>,
    b: Seq<char>,
)
    ensures
        ShareDir::path_of(config_dir, a) == config_dir + "/waserver/shares/"@ + a,
        ShareDir::path_of(config_dir, a) == ShareDir::path_of(config_dir, b) ==> a == b,
{
    let head = config_dir + "/waserver/shares/"@;
    if ShareDir::path_of(config_dir, a) == ShareDir::path_of(config_dir, b) {
        assert((head + a).skip(head.len() as int) =~= a);
        assert((head + b).skip(head.len() as int) =~= b);
    }
}

/// A failure is told with what it is about.
pub proof fn failures_tell_what_they_are_about(name: String, why: String, n: i64)
    ensures
        Error::InvalidName(name).text() == "invalid share name '"@ + name@
            + "' (use letters, digits, '-' or '_')"@,
        Error::NotInitialised(name).text() == "share "@ + name@ + " is not initialised"@,
        Error::AlreadyExists(name).text() == "share "@ + name@ + " already exists"@,
        Error::NoSuchGuest(n).text() == "no guest node number "@ + text::signed_decimal(n as int),
        Error::Db(why).text() == "state database: "@ + why@,
        Error::Io(why).text() == "io error: "@ + why@,
{
}

} // verus!
