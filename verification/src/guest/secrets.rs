//! Where a share's key material lives: a store the host app provides, or the file store
//! under the data directory by default.
use crate::bytes;
use crate::guest::store::ShareId;
use crate::guest::transports::Transport;
use crate::server::storage::{InvalidRootKey, NodeState};
use crate::text;
use vstd::prelude::*;

verus! {

/// Key material per share, under transport-defined keys (`root_key`, `iroh_secret`, …).
/// Apps implement this on the platform's secure store; a secret is never written anywhere
/// else.
pub trait SecretStore {
    fn load(&self, share: &ShareId, key: &str) -> Result<Option<Vec<u8>>, SecretStoreError>;

    fn save(&self, share: &ShareId, key: &str, value: &[u8]) -> Result<(), SecretStoreError>;

    /// Deleting what is not there is not an error.
    fn delete(&self, share: &ShareId, key: &str) -> Result<(), SecretStoreError>;
}

#[derive(Clone, Debug, PartialEq, Eq)]
pub struct SecretStoreError(pub String);

impl SecretStoreError {
    pub fn message(&self) -> (r: String)
        ensures
            r@ == self.0@,
    {
        text::copied(self.0.as_str())
    }
}

/// The default store: one file per secret, `<dir>/<share id>/<key>`, readable by the owner
/// only. For desktop, and for tests.
#[derive(Clone, Debug, PartialEq, Eq)]
pub struct FileSecretStore {
    pub dir: String,
}

impl FileSecretStore {
    pub fn new(dir: String) -> (r: FileSecretStore)
        ensures
            r.dir == dir,
    {
        FileSecretStore { dir }
    }

    /// The directory of a share's secrets, which goes with the last of them.
    pub fn share_dir(&self, share: &ShareId) -> (r: String)
        ensures
            r@ == self.dir@ + "/"@ + share.0@,
    {
        let mut out = text::copied(self.dir.as_str());
        out.append("/");
        out.append(share.as_str());
        out
    }

    /// Where a secret is. Secret keys are plain names.
    pub fn path(&self, share: &ShareId, key: &str) -> (r: String)
        requires
            forall|i: int| 0 <= i < key@.len() ==> #[trigger] key@[i] != '/' && key@[i] != '\\',
        ensures
            r@ == self.dir@ + "/"@ + share.0@ + "/"@ + key@,
    {
        let mut out = self.share_dir(share);
        out.append("/");
        out.append(key);
        out
    }
}

proof fn lemma_last_parts(x: Seq<char>, a: Seq<char>, y: Seq<char>, b: Seq<char>)
    requires
        x + "/"@ + a == y + "/"@ + b,
        forall|i: int| 0 <= i < a.len() ==> #[trigger] a[i] != '/',
        forall|i: int| 0 <= i < b.len() ==> #[trigger] b[i] != '/',
    ensures
        a == b,
        x == y,
{
    reveal_strlit("/");
    assert("/"@.len() == 1);
    let p = x + "/"@ + a;
    let q = y + "/"@ + b;
    assert(x.len() + 1 + a.len() == p.len());
    assert(y.len() + 1 + b.len() == q.len());
    if x.len() < y.len() {
        assert(q[y.len() as int] == '/');
        assert(p[y.len() as int] == a[y.len() - x.len() - 1]);
    } else if y.len() < x.len() {
        assert(p[x.len() as int] == '/');
        assert(q[x.len() as int] == b[x.len() - y.len() - 1]);
    }
    assert(p.skip(x.len() as int + 1) =~= a);
    assert(q.skip(y.len() as int + 1) =~= b);
    assert(p.take(x.len() as int) =~= x);
    assert(q.take(y.len() as int) =~= y);
}

/// No two secrets of a store share a file.
pub proof fn secrets_have_files_of_their_own(
    dir: Seq<char>,
    share_a: Seq<char>,
    key_a: Seq<char>,
    share_b: Seq<char>,
    key_b: Seq<char>,
)
    requires
        forall|i: int| 0 <= i < key_a.len() ==> #[trigger] key_a[i] != '/',
        forall|i: int| 0 <= i < key_b.len() ==> #[trigger] key_b[i] != '/',
        forall|i: int| 0 <= i < share_a.len() ==> #[trigger] share_a[i] != '/',
        forall|i: int| 0 <= i < share_b.len() ==> #[trigger] share_b[i] != '/',
        dir + "/"@ + share_a + "/"@ + key_a == dir + "/"@ + share_b + "/"@ + key_b,
    ensures
        share_a == share_b,
        key_a == key_b,
{
    lemma_last_parts(dir + "/"@ + share_a, key_a, dir + "/"@ + share_b, key_b);
    lemma_last_parts(dir, share_a, dir, share_b);
}

/// The secret store keys of a share's node state: the root key the node minted, and its
/// registration with the hub.
pub const ROOT_KEY: &'static str = "root_key";

pub const REGISTRATION: &'static str = "registration";

/// The secret store key of this device's key for an iroh share; its public key is what the
/// host bound to the invite.
pub const IROH_SECRET: &'static str = "iroh_secret";

/// The keys of the secrets that a share keeps on its transport.
pub open spec fn kept_by(kind: Transport) -> Seq<Seq<char>> {
    match kind {
        Transport::WispersConnect => seq![ROOT_KEY@, REGISTRATION@],
        Transport::Iroh => seq![IROH_SECRET@],
        Transport::Tailscale => Seq::empty(),
    }
}

/// The keys of the secrets that a share keeps on its transport.
pub fn secrets_of(kind: Transport) -> (r: Vec<&'static str>)
    ensures
        r.deep_view() == kept_by(kind),
{
    let mut keys: Vec<&'static str> = Vec::new();
    match kind {
        Transport::WispersConnect => {
            keys.push(ROOT_KEY);
            keys.push(REGISTRATION);
        },
        Transport::Iroh => {
            keys.push(IROH_SECRET);
        },
        Transport::Tailscale => {},
    }
    assert(keys.deep_view() =~= kept_by(kind));
    keys
}

/// What is stored under the two keys of a share's node.
pub struct NodeSecrets {
    pub root_key: Option<Vec<u8>>,
    /// The registration as the bytes that the transport serialises it to. One that does not
    /// read as a registration counts as none.
    pub registration: Option<Vec<u8>>,
}

impl NodeSecrets {
    /// Nothing is stored.
    pub fn new() -> (r: NodeSecrets)
        ensures
            r.root_key is None,
            r.registration is None,
    {
        NodeSecrets { root_key: None, registration: None }
    }

    /// What a Wispers Connect node stored. With no root key nothing has been saved yet.
    pub fn load(&self) -> (r: Result<Option<NodeState>, InvalidRootKey>)
        ensures
            match self.root_key {
                None => r == Ok::<Option<NodeState>, InvalidRootKey>(None),
                Some(k) => if k@.len() == 32 {
                    r matches Ok(Some(state)) && state.root_key@ == k@
                        && state.registration.deep_view() == self.registration.deep_view()
                } else {
                    r is Err
                },
            },
    {
        match &self.root_key {
            None => Ok(None),
            Some(k) => match bytes::exactly_32(k.as_slice()) {
                Some(root_key) => {
                    let registration = match &self.registration {
                        Some(reg) => {
                            let copy = bytes::copied_bytes(reg.as_slice());
                            assert(copy.deep_view() =~= reg.deep_view());
                            Some(copy)
                        },
                        None => None,
                    };
                    Ok(Some(NodeState { root_key, registration }))
                },
                None => Err(InvalidRootKey),
            },
        }
    }

    /// Stores what a Wispers Connect node keeps, in place of what was there.
    pub fn save(&mut self, state: NodeState)
        ensures
            final(self).root_key matches Some(k) && k@ == state.root_key@,
            final(self).registration == state.registration,
    {
        self.root_key = Some(bytes::copied_bytes(state.root_key.as_slice()));
        self.registration = state.registration;
    }

    /// Forgets what a Wispers Connect node keeps.
    pub fn delete_all(&mut self)
        ensures
            final(self).root_key is None,
            final(self).registration is None,
    {
        self.root_key = None;
        self.registration = None;
    }
}

/// The key of an iroh share, by the secret under its name.
pub fn load_iroh_key(secret: Option<Vec<u8>>) -> (r: Result<[u8; 32], String>)
    ensures
        match secret {
            None => r matches Err(e) && e@ == "share has no iroh key"@,
            Some(k) => if k@.len() == 32 {
                r matches Ok(key) && key@ == k@
            } else {
                r matches Err(e) && e@ == "stored iroh key has the wrong length"@
            },
        },
{
    match secret {
        None => Err(text::copied("share has no iroh key")),
        Some(k) => match bytes::exactly_32(k.as_slice()) {
            Some(key) => Ok(key),
            None => Err(text::copied("stored iroh key has the wrong length")),
        },
    }
}

} // verus!
