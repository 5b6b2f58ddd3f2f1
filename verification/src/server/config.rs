//! The per-share config file.
//!
//! These files are generated once, then edited by the user. After that, the host
//! only reads them, at start and on `reload`.
use crate::text;
pub use crate::wire::AppKind;
use vstd::prelude::*;
use vstd::utf8::encode_utf8;

verus! {

pub const FILENAME: &'static str = "share.toml";

#[derive(Clone, Debug)]
pub struct ShareConfig {
    /// Display name, shown to guests.
    pub name: String,
    pub transport: TransportConfig,
    /// The shared apps, in the order found in the config file.
    pub apps: Vec<AppConfig>,
}

/// Peer-to-peer transport config.
///
/// Each transport type can have its own parameters. In the file, that looks like
/// this:
///
/// ```toml
/// [transport]
/// kind = "wispers-connect"
/// backend = "https://hub.example"
/// ```
#[derive(Clone, Debug, PartialEq, Eq)]
pub enum TransportConfig {
    WispersConnect {
        /// Optional base URL of a self-hosted backend.
        backend: Option<String>,
    },
    Iroh {},
}

/// If not specified the transport defaults to Wispers Connect with the managed
/// backend.
impl Default for TransportConfig {
    fn default() -> (r: TransportConfig)
        ensures
            r == (TransportConfig::WispersConnect { backend: None }),
    {
        TransportConfig::WispersConnect { backend: None }
    }
}

impl TransportConfig {
    pub open spec fn kind_spec(self) -> TransportKind {
        match self {
            TransportConfig::WispersConnect { .. } => TransportKind::WispersConnect,
            TransportConfig::Iroh {  } => TransportKind::Iroh,
        }
    }

    pub fn kind(&self) -> (r: TransportKind)
        ensures
            r == self.kind_spec(),
    {
        match self {
            TransportConfig::WispersConnect { .. } => TransportKind::WispersConnect,
            TransportConfig::Iroh {  } => TransportKind::Iroh,
        }
    }
}

/// The transport names, as on the command line and in status output.
#[derive(Clone, Copy, Debug, PartialEq, Eq, Structural)]
pub enum TransportKind {
    WispersConnect,
    Iroh,
}

impl TransportKind {
    pub open spec fn name(self) -> Seq<char> {
        match self {
            TransportKind::WispersConnect => "wispers-connect"@,
            TransportKind::Iroh => "iroh"@,
        }
    }

    pub fn as_str(self) -> (r: &'static str)
        ensures
            r@ == self.name(),
    {
        match self {
            TransportKind::WispersConnect => "wispers-connect",
            TransportKind::Iroh => "iroh",
        }
    }

    /// The kind of that name.
    pub open spec fn named(s: Seq<char>) -> Option<TransportKind> {
        if s == "wispers-connect"@ {
            Some(TransportKind::WispersConnect)
        } else if s == "iroh"@ {
            Some(TransportKind::Iroh)
        } else {
            None
        }
    }

    /// Reads back what [`TransportKind::as_str`] wrote.
    pub fn parse(s: &str) -> (r: Option<TransportKind>)
        ensures
            r == TransportKind::named(s@),
    {
        if text::same_text(s, "wispers-connect") {
            Some(TransportKind::WispersConnect)
        } else if text::same_text(s, "iroh") {
            Some(TransportKind::Iroh)
        } else {
            None
        }
    }
}

impl TransportConfig {
    /// The transport that a `[transport]` table of the config file names.
    pub open spec fn tabled(kind: Seq<char>, backend: Option<String>) -> Option<TransportConfig> {
        match (TransportKind::named(kind), backend) {
            (Some(TransportKind::WispersConnect), _) => Some(
                TransportConfig::WispersConnect { backend },
            ),
            (Some(TransportKind::Iroh), None) => Some(TransportConfig::Iroh {  }),
            _ => None,
        }
    }

    /// Reads the `[transport]` table of the config file. An unknown kind is refused, and so is
    /// a setting that belongs to another transport.
    pub fn from_table(kind: &str, backend: Option<String>) -> (r: Option<TransportConfig>)
        ensures
            r == TransportConfig::tabled(kind@, backend),
    {
        match (TransportKind::parse(kind), backend) {
            (Some(TransportKind::WispersConnect), backend) => Some(
                TransportConfig::WispersConnect { backend },
            ),
            (Some(TransportKind::Iroh), None) => Some(TransportConfig::Iroh {  }),
            _ => None,
        }
    }

    /// The base URL of the self-hosted backend, where the transport has one.
    pub open spec fn own_backend(self) -> Option<String> {
        match self {
            TransportConfig::WispersConnect { backend } => backend,
            TransportConfig::Iroh {  } => None,
        }
    }
}

/// A transport's name is what the config file takes for its kind: a table with that name
/// reads as a transport of that kind, and a transport reads back from its own name and
/// backend.
pub proof fn transport_names_read_back(kind: TransportKind, transport: TransportConfig)
    ensures
        TransportKind::named(kind.name()) == Some(kind),
        TransportConfig::tabled(kind.name(), None) matches Some(t) && t.kind_spec() == kind,
        TransportConfig::tabled(transport.kind_spec().name(), transport.own_backend()) == Some(
            transport,
        ),
{
    reveal_strlit("wispers-connect");
    reveal_strlit("iroh");
    assert("wispers-connect"@.len() != "iroh"@.len());
}

#[derive(Clone, Debug, PartialEq, Eq)]
pub struct AppConfig {
    /// Stable identifier, used by guest nodes when accessing a shared app.
    pub id: String,
    /// Display name, defaults to the ID.
    pub name: String,
    /// Custom integrations (e.g. Jellyfin) use a specific identifiers here, so the
    /// clients can find the shared apps they know how to work with. `web` (the
    /// default) is any web app browsed as is.
    pub kind: AppKind,
    /// `host:port`, or `:port` for localhost.
    pub upstream: String,
}

#[derive(Clone, Debug, PartialEq, Eq)]
pub enum Error {
    /// The file cannot be read: its path, and why.
    Read(String, String),
    /// The file is not the TOML of a share config.
    Parse(String),
    EmptyName,
    InvalidAppId(String),
    DuplicateAppId(String),
    InvalidUpstream { app: String, reason: String },
}

/// An [`Error`] with its texts as character sequences.
pub enum ErrorView {
    Read(Seq<char>, Seq<char>),
    Parse(Seq<char>),
    EmptyName,
    InvalidAppId(Seq<char>),
    DuplicateAppId(Seq<char>),
    InvalidUpstream { app: Seq<char>, reason: Seq<char> },
}

impl DeepView for Error {
    type V = ErrorView;

    open spec fn deep_view(&self) -> ErrorView {
        match *self {
            Error::Read(path, why) => ErrorView::Read(path@, why@),
            Error::Parse(why) => ErrorView::Parse(why@),
            Error::EmptyName => ErrorView::EmptyName,
            Error::InvalidAppId(id) => ErrorView::InvalidAppId(id@),
            Error::DuplicateAppId(id) => ErrorView::DuplicateAppId(id@),
            Error::InvalidUpstream { app, reason } => ErrorView::InvalidUpstream {
                app: app@,
                reason: reason@,
            },
        }
    }
}

impl ErrorView {
    /// The message for the user.
    pub open spec fn message(self) -> Seq<char> {
        match self {
            ErrorView::Read(path, why) => "cannot read "@ + path + ": "@ + why,
            ErrorView::Parse(why) => why,
            ErrorView::EmptyName => "share name is empty"@,
            ErrorView::InvalidAppId(id) => "app "@ + id
                + ": invalid id (use letters, digits, '-' or '_')"@,
            ErrorView::DuplicateAppId(id) => "app "@ + id + ": duplicate id"@,
            ErrorView::InvalidUpstream { app, reason } => "app "@ + app + ": invalid upstream: "@
                + reason,
        }
    }
}

impl Error {
    /// The message for the user.
    pub fn message(&self) -> (r: String)
        ensures
            r@ == self.deep_view().message(),
    {
        match self {
            Error::Read(path, why) => {
                let mut out = text::copied("cannot read ");
                out.append(path.as_str());
                out.append(": ");
                out.append(why.as_str());
                out
            },
            Error::Parse(why) => text::copied(why.as_str()),
            Error::EmptyName => text::copied("share name is empty"),
            Error::InvalidAppId(id) => {
                let mut out = text::copied("app ");
                out.append(id.as_str());
                out.append(": invalid id (use letters, digits, '-' or '_')");
                out
            },
            Error::DuplicateAppId(id) => {
                let mut out = text::copied("app ");
                out.append(id.as_str());
                out.append(": duplicate id");
                out
            },
            Error::InvalidUpstream { app, reason } => {
                let mut out = text::copied("app ");
                out.append(app.as_str());
                out.append(": invalid upstream: ");
                out.append(reason.as_str());
                out
            },
        }
    }
}

//-- Identifiers and upstreams ----------------------------------------------------
/// The characters an identifier is made of.
pub open spec fn id_char(c: char) -> bool {
    ||| '0' <= c <= '9'
    ||| 'a' <= c <= 'z'
    ||| 'A' <= c <= 'Z'
    ||| c == '-'
    ||| c == '_'
}

/// What a share or app ID may be: 1 to 63 letters, digits, dashes and
/// underscores, with a letter or a digit at either end.
pub open spec fn valid_id(s: Seq<char>) -> bool {
    &&& 1 <= s.len() <= 63
    &&& forall|i: int| 0 <= i < s.len() ==> id_char(#[trigger] s[i])
    &&& s[0] != '-' && s[0] != '_'
    &&& s.last() != '-' && s.last() != '_'
}

/// Validate share or app ID. They need to be file-system and DNS-label safe.
pub fn is_valid_id(s: &str) -> (r: bool)
    ensures
        r == valid_id(s@),
{
    let v = text::chars_of(s);
    let n: usize = v.len();
    if n == 0 || n > 63 {
        return false;
    }
    let mut i: usize = 0;
    while i < n
        invariant
            i <= n,
            n == v@.len(),
            v@ == s@,
            forall|j: int| 0 <= j < i ==> id_char(#[trigger] v@[j]),
        decreases n - i,
    {
        let c = v[i];
        if !(('0' <= c && c <= '9') || ('a' <= c && c <= 'z') || ('A' <= c && c <= 'Z') || c == '-'
            || c == '_') {
            assert(!id_char(s@[i as int]));
            return false;
        }
        i = i + 1;
    }
    v[0] != '-' && v[0] != '_' && v[n - 1] != '-' && v[n - 1] != '_'
}


/// What an upstream's text stands for: the dial target in `host:port` form, or
/// why there is none.
pub open spec fn upstream_of(given: Seq<char>) -> Result<Seq<char>, Seq<char>> {
    let s = text::trimmed(given);
    if s.len() == 0 {
        Err("upstream is empty"@)
    } else {
        match text::cut_last(s, ':') {
            None => Err("expected host:port or :port, got '"@ + s + "'"@),
            Some((host, port)) => dial_target(host, port),
        }
    }
}

/// The dial target for a host and the text of a port.
pub open spec fn dial_target(host: Seq<char>, port: Seq<char>) -> Result<Seq<char>, Seq<char>> {
    match text::parsed_number(port, 10, 65535) {
        None => Err("invalid port '"@ + port + "' (expected 1–65535)"@),
        Some(n) => if n == 0 {
            Err("port 0 is not a valid upstream"@)
        } else {
            Ok((if host.len() == 0 { "localhost"@ } else { host }) + ":"@ + text::decimal(n))
        },
    }
}

/// The view of a result of two strings.
pub open spec fn texts(r: Result<String, String>) -> Result<Seq<char>, Seq<char>> {
    match r {
        Ok(s) => Ok(s@),
        Err(e) => Err(e@),
    }
}

/// The dial target for a host and the text of a port. An empty host means
/// `localhost`.
pub fn dial(host: &str, port: &str) -> (r: Result<String, String>)
    ensures
        texts(r) == dial_target(host@, port@),
{
    match text::parse_number(port, 10, 65535) {
        None => {
            let mut out = text::copied("invalid port '");
            out.append(port);
            out.append("' (expected 1–65535)");
            Err(out)
        },
        Some(n) => {
            if n == 0 {
                return Err(text::copied("port 0 is not a valid upstream"));
            }
            let mut out = if host.is_empty() {
                text::copied("localhost")
            } else {
                text::copied(host)
            };
            out.append(":");
            text::push_decimal(&mut out, n);
            Ok(out)
        },
    }
}

/// Parse an upstream dial target in `host:port` form into a normalized
/// `host:port` string. An empty host (`:3000`) means `localhost`. It's
/// `localhost` rather than `127.0.0.1` so the dial tries both IPv4 and IPv6
/// addresses families if available. IPv6 literals would need bracket form
/// (`[::1]:3000`) and aren't handled.
pub fn parse_upstream(s: &str) -> (r: Result<String, String>)
    ensures
        texts(r) == upstream_of(s@),
{
    let s = text::trim(s);
    if s.as_str().is_empty() {
        return Err(text::copied("upstream is empty"));
    }
    // Split off the port after the last colon so the host may itself be a name
    // like `app`.
    match text::rsplit_once(s.as_str(), ':') {
        None => {
            let mut out = text::copied("expected host:port or :port, got '");
            out.append(s.as_str());
            out.append("'");
            Err(out)
        },
        Some((host, port)) => dial(host.as_str(), port.as_str()),
    }
}

//-- Validation -------------------------------------------------------------------
/// Whether an earlier app than the `i`th has the same ID.
pub open spec fn duplicates_earlier(apps: Seq<AppConfig>, i: int) -> bool {
    exists|j: int| 0 <= j < i && #[trigger] apps[j].id@ == apps[i].id@
}

/// What is wrong with the `i`th app, if anything.
pub open spec fn app_error(apps: Seq<AppConfig>, i: int) -> Option<ErrorView> {
    let id = apps[i].id@;
    if !valid_id(id) {
        Some(ErrorView::InvalidAppId(id))
    } else if duplicates_earlier(apps, i) {
        Some(ErrorView::DuplicateAppId(id))
    } else {
        match upstream_of(apps[i].upstream@) {
            Err(reason) => Some(ErrorView::InvalidUpstream { app: id, reason }),
            Ok(_) => None,
        }
    }
}

/// What is wrong with the first bad app from the `i`th on.
pub open spec fn first_app_error(apps: Seq<AppConfig>, i: int) -> Option<ErrorView>
    decreases apps.len() - i,
{
    if i >= apps.len() {
        None
    } else {
        match app_error(apps, i) {
            Some(e) => Some(e),
            None => first_app_error(apps, i + 1),
        }
    }
}

/// Why a config as written is refused, if it is: the name is blank, or the first
/// bad app's error.
pub open spec fn config_error(raw: ShareConfig) -> Option<ErrorView> {
    if text::trimmed(raw.name@).len() == 0 {
        Some(ErrorView::EmptyName)
    } else {
        first_app_error(raw.apps@, 0)
    }
}

/// What an app as written is served as: a blank name gives way to the ID, and the
/// upstream is a dial target.
pub open spec fn normalised(raw: AppConfig, cfg: AppConfig) -> bool {
    &&& cfg.id == raw.id
    &&& cfg.name@ == if text::trimmed(raw.name@).len() == 0 {
        raw.id@
    } else {
        raw.name@
    }
    &&& cfg.kind == raw.kind
    &&& upstream_of(raw.upstream@) == Ok::<Seq<char>, Seq<char>>(cfg.upstream@)
}

/// Whether two transports are configured alike.
pub open spec fn same_transport(a: TransportConfig, b: TransportConfig) -> bool {
    match (a, b) {
        (
            TransportConfig::WispersConnect { backend: x },
            TransportConfig::WispersConnect { backend: y },
        ) => x.deep_view() == y.deep_view(),
        (TransportConfig::Iroh {  }, TransportConfig::Iroh {  }) => true,
        _ => false,
    }
}

/// Whether two apps are configured alike.
pub open spec fn same_app(a: AppConfig, b: AppConfig) -> bool {
    &&& a.id@ == b.id@
    &&& a.name@ == b.name@
    &&& a.kind == b.kind
    &&& a.upstream@ == b.upstream@
}

/// Whether two configs say the same.
pub open spec fn same_config(a: ShareConfig, b: ShareConfig) -> bool {
    &&& a.name@ == b.name@
    &&& same_transport(a.transport, b.transport)
    &&& a.apps@.len() == b.apps@.len()
    &&& forall|i: int| 0 <= i < a.apps@.len() ==> same_app(#[trigger] a.apps@[i], b.apps@[i])
}

impl TransportConfig {
    /// A copy of the transport config.
    pub fn copied(&self) -> (r: TransportConfig)
        ensures
            same_transport(*self, r),
    {
        match self {
            TransportConfig::WispersConnect { backend } => TransportConfig::WispersConnect {
                backend: text::copied_opt(backend),
            },
            TransportConfig::Iroh {  } => TransportConfig::Iroh {  },
        }
    }
}

impl AppConfig {
    /// A copy of the app config.
    pub fn copied(&self) -> (r: AppConfig)
        ensures
            same_app(*self, r),
    {
        AppConfig {
            id: text::copied(self.id.as_str()),
            name: text::copied(self.name.as_str()),
            kind: self.kind,
            upstream: text::copied(self.upstream.as_str()),
        }
    }
}

impl ShareConfig {
    /// A copy of the config.
    pub fn copied(&self) -> (r: ShareConfig)
        ensures
            same_config(*self, r),
            self.wf() ==> r.wf(),
            r.hash_spec() == self.hash_spec(),
    {
        let mut apps: Vec<AppConfig> = Vec::new();
        let mut i: usize = 0;
        while i < self.apps.len()
            invariant
                i <= self.apps@.len(),
                apps@.len() == i,
                forall|j: int| 0 <= j < i ==> same_app(#[trigger] self.apps@[j], apps@[j]),
            decreases self.apps@.len() - i,
        {
            apps.push(self.apps[i].copied());
            i = i + 1;
        }
        let r = ShareConfig {
            name: text::copied(self.name.as_str()),
            transport: self.transport.copied(),
            apps,
        };
        proof {
            assert(forall|j: int|
                0 <= j < self.apps@.len() ==> same_app(#[trigger] self.apps@[j], r.apps@[j]));
            unchanged_configs_hash_alike(*self, r);
            if self.wf() {
                assert forall|a: int| 0 <= a < r.apps@.len() implies valid_id(
                    #[trigger] r.apps@[a].id@,
                ) by {
                    assert(same_app(self.apps@[a], r.apps@[a]));
                }
                assert forall|a: int, b: int| 0 <= a < b < r.apps@.len() implies #[trigger] r.apps@[a].id@
                    != #[trigger] r.apps@[b].id@ by {
                    assert(same_app(self.apps@[a], r.apps@[a]));
                    assert(same_app(self.apps@[b], r.apps@[b]));
                }
            }
        }
        r
    }

    /// Whether a config may be served: it has a name, and its apps have valid,
    /// distinct IDs and names.
    pub open spec fn wf(self) -> bool {
        &&& text::trimmed(self.name@).len() > 0
        &&& forall|i: int| 0 <= i < self.apps@.len() ==> valid_id(#[trigger] self.apps@[i].id@)
        &&& forall|i: int, j: int|
            0 <= i < j < self.apps@.len() ==> #[trigger] self.apps@[i].id@
                != #[trigger] self.apps@[j].id@
    }

    /// Normalise and validate a config as the file has it.
    pub fn parse(raw: ShareConfig) -> (r: Result<ShareConfig, Error>)
        ensures
            match r {
                Err(e) => config_error(raw) == Some(e.deep_view()),
                Ok(cfg) => {
                    &&& config_error(raw) is None
                    &&& cfg.wf()
                    &&& cfg.name == raw.name
                    &&& cfg.transport == raw.transport
                    &&& cfg.apps@.len() == raw.apps@.len()
                    &&& forall|i: int|
                        0 <= i < raw.apps@.len() ==> normalised(
                            #[trigger] raw.apps@[i],
                            cfg.apps@[i],
                        )
                },
            },
    {
        let mut cfg = raw;
        let ghost given = raw.apps@;
        if text::trim(cfg.name.as_str()).as_str().is_empty() {
            return Err(Error::EmptyName);
        }
        let mut i: usize = 0;
        while i < cfg.apps.len()
            invariant
                given == raw.apps@,
                i <= cfg.apps@.len(),
                cfg.apps@.len() == given.len(),
                cfg.name == raw.name,
                cfg.transport == raw.transport,
                text::trimmed(raw.name@).len() > 0,
                config_error(raw) == first_app_error(given, i as int),
                forall|j: int| 0 <= j < i ==> normalised(#[trigger] given[j], cfg.apps@[j]),
                forall|j: int| i <= j < given.len() ==> #[trigger] cfg.apps@[j] == given[j],
                forall|j: int| 0 <= j < i ==> valid_id(#[trigger] given[j].id@),
                forall|j: int| 0 <= j < i ==> !#[trigger] duplicates_earlier(given, j),
            decreases given.len() - i,
        {
            assert(cfg.apps@[i as int] == given[i as int]);
            let id = text::copied(cfg.apps[i].id.as_str());
            if !is_valid_id(id.as_str()) {
                return Err(Error::InvalidAppId(id));
            }
            let mut k: usize = 0;
            while k < i
                invariant
                    k <= i < given.len(),
                    cfg.apps@.len() == given.len(),
                    id@ == given[i as int].id@,
                    given == raw.apps@,
                    config_error(raw) == first_app_error(given, i as int),
                    valid_id(id@),
                    forall|j: int| 0 <= j < i ==> normalised(#[trigger] given[j], cfg.apps@[j]),
                    forall|j: int| 0 <= j < k ==> #[trigger] given[j].id@ != id@,
                decreases i - k,
            {
                assert(normalised(given[k as int], cfg.apps@[k as int]));
                if text::same_text(cfg.apps[k].id.as_str(), id.as_str()) {
                    assert(given[k as int].id@ == given[i as int].id@);
                    return Err(Error::DuplicateAppId(id));
                }
                k = k + 1;
            }
            assert(!duplicates_earlier(given, i as int));
            let upstream = match parse_upstream(cfg.apps[i].upstream.as_str()) {
                Ok(u) => u,
                Err(reason) => {
                    return Err(Error::InvalidUpstream { app: id, reason });
                },
            };
            if text::trim(cfg.apps[i].name.as_str()).as_str().is_empty() {
                cfg.apps[i].name = id;
            }
            cfg.apps[i].upstream = upstream;
            i = i + 1;
        }
        proof {
            assert forall|a: int, b: int| 0 <= a < b < cfg.apps@.len() implies #[trigger] cfg.apps@[a].id@
                != #[trigger] cfg.apps@[b].id@ by {
                assert(normalised(given[a], cfg.apps@[a]));
                assert(normalised(given[b], cfg.apps@[b]));
                assert(!duplicates_earlier(given, b));
                assert(given[a].id@ != given[b].id@);
            }
            assert forall|a: int| 0 <= a < cfg.apps@.len() implies valid_id(
                #[trigger] cfg.apps@[a].id@,
            ) by {
                assert(normalised(given[a], cfg.apps@[a]));
                assert(valid_id(given[a].id@));
            }
        }
        Ok(cfg)
    }
}

//-- Lookup and hash --------------------------------------------------------------
/// The FNV-1a hash of `bytes`, continued from `h`.
pub open spec fn fnv1a(h: u64, bytes: Seq<u8>) -> u64
    decreases bytes.len(),
{
    if bytes.len() == 0 {
        h
    } else {
        (fnv1a(h, bytes.drop_last()) ^ (bytes.last() as u64)).wrapping_mul(0x100000001b3u64)
    }
}

proof fn lemma_fnv1a_adds(h: u64, a: Seq<u8>, b: Seq<u8>)
    ensures
        fnv1a(h, a + b) == fnv1a(fnv1a(h, a), b),
    decreases b.len(),
{
    if b.len() == 0 {
        assert(a + b =~= a);
    } else {
        lemma_fnv1a_adds(h, a, b.drop_last());
        assert((a + b).drop_last() =~= a + b.drop_last());
    }
}

/// One field as it goes into the hash: its UTF-8 bytes and a zero byte. Fields are
/// separated so shifting bytes between them changes what is hashed.
pub open spec fn field_bytes(s: Seq<char>) -> Seq<u8> {
    encode_utf8(s).push(0u8)
}

/// What an app adds to the hashed bytes.
pub open spec fn app_bytes(app: AppConfig) -> Seq<u8> {
    field_bytes(app.id@) + field_bytes(app.name@) + field_bytes(app.kind.name()) + field_bytes(
        app.upstream@,
    )
}

/// What the first `n` apps add to the hashed bytes.
pub open spec fn apps_bytes(apps: Seq<AppConfig>, n: int) -> Seq<u8>
    decreases n,
{
    if n <= 0 {
        Seq::empty()
    } else {
        apps_bytes(apps, n - 1) + app_bytes(apps[n - 1])
    }
}

/// 64-bit FNV-1a hash, deterministic across processes and Rust versions, unlike
/// `DefaultHasher`. Fields are separated so shifting bytes between them changes
/// the hash.
pub struct Fnv1a(u64);

impl Fnv1a {
    /// The hash so far.
    pub closed spec fn state(self) -> u64 {
        self.0
    }

    pub fn new() -> (r: Fnv1a)
        ensures
            r.state() == 0xcbf29ce484222325,
    {
        Fnv1a(0xcbf29ce484222325)
    }

    /// Hashes one field: its bytes, then the separating zero byte.
    pub fn write(&mut self, bytes: &[u8])
        ensures
            final(self).state() == fnv1a(old(self).state(), bytes@.push(0u8)),
    {
        let ghost start = self.0;
        let mut i: usize = 0;
        assert(bytes@.take(0) =~= Seq::<u8>::empty());
        while i < bytes.len()
            invariant
                i <= bytes@.len(),
                self.0 == fnv1a(start, bytes@.take(i as int)),
            decreases bytes@.len() - i,
        {
            self.step(bytes[i]);
            assert(bytes@.take(i + 1).drop_last() =~= bytes@.take(i as int));
            i = i + 1;
        }
        assert(bytes@.take(bytes@.len() as int) =~= bytes@);
        self.step(0);
        assert(bytes@.push(0u8).drop_last() =~= bytes@);
    }

    fn step(&mut self, b: u8)
        ensures
            final(self).0 == (old(self).0 ^ (b as u64)).wrapping_mul(0x100000001b3u64),
    {
        self.0 = (self.0 ^ (b as u64)).wrapping_mul(0x100000001b3u64);
    }

    pub fn finish(&self) -> (r: u64)
        ensures
            r == self.state(),
    {
        self.0
    }
}

impl ShareConfig {
    /// Where the app of that ID first stands.
    pub open spec fn app_index(self, app_id: Seq<char>) -> Option<int> {
        self.app_index_from(app_id, 0)
    }

    /// Where the app of that ID first stands from the `i`th app on.
    pub open spec fn app_index_from(self, app_id: Seq<char>, i: int) -> Option<int>
        decreases self.apps@.len() - i,
    {
        if i >= self.apps@.len() {
            None
        } else if self.apps@[i].id@ == app_id {
            Some(i)
        } else {
            self.app_index_from(app_id, i + 1)
        }
    }

    /// What is hashed of a config: the transport that it rides, the name and the apps.
    pub open spec fn observable_bytes(self) -> Seq<u8> {
        field_bytes(self.transport.kind_spec().name()) + (field_bytes(self.name@) + apps_bytes(
            self.apps@,
            self.apps@.len() as int,
        ))
    }

    /// Hash of the observable parts of the config.
    pub open spec fn hash_spec(self) -> u64 {
        fnv1a(0xcbf29ce484222325, self.observable_bytes())
    }

    /// Finds and returns the AppConfig for the given ID.
    pub fn find_app(&self, app_id: &str) -> (r: Option<&AppConfig>)
        ensures
            match r {
                Some(app) => self.app_index(app_id@) is Some && *app
                    == self.apps@[self.app_index(app_id@)->0] && app.id@ == app_id@,
                None => self.app_index(app_id@) is None && (forall|j: int|
                    0 <= j < self.apps@.len() ==> #[trigger] self.apps@[j].id@ != app_id@),
            },
    {
        let mut i: usize = 0;
        while i < self.apps.len()
            invariant
                i <= self.apps@.len(),
                self.app_index(app_id@) == self.app_index_from(app_id@, i as int),
                forall|j: int| 0 <= j < i ==> #[trigger] self.apps@[j].id@ != app_id@,
            decreases self.apps@.len() - i,
        {
            if text::same_text(self.apps[i].id.as_str(), app_id) {
                return Some(&self.apps[i]);
            }
            i = i + 1;
        }
        None
    }

    /// The app used for requests that name no app.
    pub fn default_app(&self) -> (r: Option<&AppConfig>)
        ensures
            match r {
                Some(app) => self.apps@.len() > 0 && *app == self.apps@[0],
                None => self.apps@.len() == 0,
            },
    {
        if self.apps.len() > 0 {
            Some(&self.apps[0])
        } else {
            None
        }
    }

    /// Hash of the (observable parts of the) config, used to detect config updates
    /// without having to compare the entire data structure.
    pub fn config_hash(&self) -> (r: u64)
        ensures
            r == self.hash_spec(),
    {
        let mut h = Fnv1a::new();
        h.write(self.transport.kind().as_str().as_bytes());
        h.write(self.name.as_str().as_bytes());
        let ghost seed = 0xcbf29ce484222325u64;
        let ghost kind = field_bytes(self.transport.kind_spec().name());
        let ghost head = kind + field_bytes(self.name@);
        proof {
            lemma_fnv1a_adds(seed, kind, field_bytes(self.name@));
        }
        let mut i: usize = 0;
        assert(head + apps_bytes(self.apps@, 0) =~= head);
        while i < self.apps.len()
            invariant
                i <= self.apps@.len(),
                seed == 0xcbf29ce484222325u64,
                h.state() == fnv1a(seed, head + apps_bytes(self.apps@, i as int)),
            decreases self.apps@.len() - i,
        {
            let app = &self.apps[i];
            let ghost done = head + apps_bytes(self.apps@, i as int);
            let ghost b1 = field_bytes(app.id@);
            let ghost b2 = field_bytes(app.name@);
            let ghost b3 = field_bytes(app.kind.name());
            let ghost b4 = field_bytes(app.upstream@);
            h.write(app.id.as_str().as_bytes());
            h.write(app.name.as_str().as_bytes());
            h.write(app.kind.as_str().as_bytes());
            h.write(app.upstream.as_str().as_bytes());
            proof {
                lemma_fnv1a_adds(seed, done, b1);
                lemma_fnv1a_adds(seed, done + b1, b2);
                lemma_fnv1a_adds(seed, done + b1 + b2, b3);
                lemma_fnv1a_adds(seed, done + b1 + b2 + b3, b4);
                assert(head + apps_bytes(self.apps@, i + 1) =~= done + b1 + b2 + b3 + b4);
            }
            i = i + 1;
        }
        assert(head + apps_bytes(self.apps@, i as int) =~= self.observable_bytes());
        h.finish()
    }
}

/// Configs that agree in the transport they ride, in their name and in their apps hash alike:
/// an unchanged share has an unchanged hash.
pub proof fn unchanged_configs_hash_alike(a: ShareConfig, b: ShareConfig)
    requires
        a.transport.kind_spec() == b.transport.kind_spec(),
        same_name_and_apps(a, b),
    ensures
        a.hash_spec() == b.hash_spec(),
{
    lemma_same_apps_bytes(a.apps@, b.apps@, a.apps@.len() as int);
}

/// Whether two configs agree in their name and in their apps.
pub open spec fn same_name_and_apps(a: ShareConfig, b: ShareConfig) -> bool {
    &&& a.name@ == b.name@
    &&& a.apps@.len() == b.apps@.len()
    &&& forall|i: int| 0 <= i < a.apps@.len() ==> same_app(#[trigger] a.apps@[i], b.apps@[i])
}

/// A share that moves to another transport has another hash.
pub proof fn transports_change_the_hash(a: ShareConfig, b: ShareConfig)
    requires
        a.transport.kind_spec() != b.transport.kind_spec(),
        same_name_and_apps(a, b),
    ensures
        a.hash_spec() != b.hash_spec(),
{
    let seed = 0xcbf29ce484222325u64;
    lemma_same_apps_bytes(a.apps@, b.apps@, a.apps@.len() as int);
    let rest = field_bytes(a.name@) + apps_bytes(a.apps@, a.apps@.len() as int);
    let x = field_bytes(a.transport.kind_spec().name());
    let y = field_bytes(b.transport.kind_spec().name());
    lemma_fnv1a_adds(seed, x, rest);
    lemma_fnv1a_adds(seed, y, rest);
    lemma_kinds_hash();
    if a.hash_spec() == b.hash_spec() {
        lemma_fnv1a_injective(fnv1a(seed, x), fnv1a(seed, y), rest);
    }
}

/// One round of the hash can be undone: its factor is odd.
proof fn lemma_round_injective(x: u64, y: u64, b: u64)
    requires
        (x ^ b).wrapping_mul(0x100000001b3u64) == (y ^ b).wrapping_mul(0x100000001b3u64),
    ensures
        x == y,
{
    let m = 0x1_0000_0000_0000_0000int;
    let p = 0x100000001b3int;
    let inverse = 14886173955864302971int;
    let u = (x ^ b) as int;
    let v = (y ^ b) as int;
    assert(p * inverse == 1 + 887285111055int * m);
    assert forall|w: int| 0 <= w < m implies #[trigger] ((((w * p) % m) * inverse) % m) == w by {
        vstd::arithmetic::div_mod::lemma_mul_mod_noop_left(w * p, inverse, m);
        assert(w * p * inverse == w + (w * 887285111055int) * m) by (nonlinear_arith)
            requires
                p * inverse == 1 + 887285111055int * m,
        ;
        vstd::arithmetic::div_mod::lemma_mod_multiples_vanish(w * 887285111055int, w, m);
        vstd::arithmetic::div_mod::lemma_small_mod(w as nat, m as nat);
    }
    assert((((u * p) % m) * inverse) % m == u);
    assert((((v * p) % m) * inverse) % m == v);
    assert(x ^ b == y ^ b);
    assert(x ^ b == y ^ b ==> x == y) by (bit_vector);
}

proof fn lemma_fnv1a_injective(x: u64, y: u64, bytes: Seq<u8>)
    requires
        fnv1a(x, bytes) == fnv1a(y, bytes),
    ensures
        x == y,
    decreases bytes.len(),
{
    if bytes.len() > 0 {
        lemma_round_injective(
            fnv1a(x, bytes.drop_last()),
            fnv1a(y, bytes.drop_last()),
            bytes.last() as u64,
        );
        lemma_fnv1a_injective(x, y, bytes.drop_last());
    }
}

/// One round of the hash, on given numbers.
/// The hash of the first `n` bytes.
#[verifier::opaque]
spec fn hashed(bytes: Seq<u8>, n: int) -> u64 {
    fnv1a(0xcbf29ce484222325, bytes.take(n))
}

proof fn lemma_hashed(bytes: Seq<u8>)
    ensures
        hashed(bytes, 0) == 0xcbf29ce484222325u64,
        hashed(bytes, bytes.len() as int) == fnv1a(0xcbf29ce484222325, bytes),
{
    reveal(hashed);
    assert(bytes.take(0) =~= Seq::<u8>::empty());
    assert(bytes.take(bytes.len() as int) =~= bytes);
}

proof fn lemma_round(bytes: Seq<u8>, n: int, h: u64, b: u8, mixed: u64, next: u64)
    requires
        0 <= n < bytes.len(),
        bytes[n] == b,
        hashed(bytes, n) == h,
        h ^ (b as u64) == mixed,
        (mixed as nat * 0x100000001b3) % 0x1_0000_0000_0000_0000 == next,
    ensures
        hashed(bytes, n + 1) == next,
{
    reveal(hashed);
    assert(bytes.take(n + 1).drop_last() =~= bytes.take(n));
    assert(bytes.take(n + 1).last() == b);
}

/// The names of the transports as they go into the hash.
proof fn lemma_kind_fields()
    ensures
        field_bytes("wispers-connect"@) == seq![119u8, 105, 115, 112, 101, 114, 115, 45, 99, 111, 110, 110, 101, 99, 116, 0],
        field_bytes("iroh"@) == seq![105u8, 114, 111, 104, 0],
{
    reveal_strlit("wispers-connect");
    reveal_strlit("iroh");
    assert(vstd::utf8::is_ascii_chars("wispers-connect"@));
    assert(vstd::utf8::is_ascii_chars("iroh"@));
    vstd::utf8::is_ascii_chars_encode_utf8("wispers-connect"@);
    vstd::utf8::is_ascii_chars_encode_utf8("iroh"@);
    assert(field_bytes("wispers-connect"@) =~= seq![119u8, 105, 115, 112, 101, 114, 115, 45, 99, 111, 110, 110, 101, 99, 116, 0]);
    assert(field_bytes("iroh"@) =~= seq![105u8, 114, 111, 104, 0]);
}

proof fn lemma_connect_hash(w: Seq<u8>)
    requires
        w == seq![119u8, 105, 115, 112, 101, 114, 115, 45, 99, 111, 110, 110, 101, 99, 116, 0],
    ensures
        fnv1a(0xcbf29ce484222325, w) == 0x16392d665907c357u64,
{
    lemma_hashed(w);
    assert(0xcbf29ce484222325u64 ^ 119u64 == 0xcbf29ce484222352u64
        && 0xaf63ea4c86020456u64 ^ 105u64 == 0xaf63ea4c8602043fu64
        && 0x8cb5f07b56d370du64 ^ 115u64 == 0x8cb5f07b56d377eu64
        && 0x5ec9f81948954b1au64 ^ 112u64 == 0x5ec9f81948954b6au64
        && 0xa67bfcf655af251eu64 ^ 101u64 == 0xa67bfcf655af257bu64
        && 0x93d45193989cb001u64 ^ 114u64 == 0x93d45193989cb073u64
        && 0xce7710cc523fd369u64 ^ 115u64 == 0xce7710cc523fd31au64
        && 0x1424a52fc273b52eu64 ^ 45u64 == 0x1424a52fc273b503u64
        && 0xadf9b3276a9c9419u64 ^ 99u64 == 0xadf9b3276a9c947au64
        && 0x3bdfe5fa28104b4eu64 ^ 111u64 == 0x3bdfe5fa28104b21u64
        && 0xcdbee91213afa913u64 ^ 110u64 == 0xcdbee91213afa97du64
        && 0x4b0f86b7737cff67u64 ^ 110u64 == 0x4b0f86b7737cff09u64
        && 0x860f2b93d655c4bu64 ^ 101u64 == 0x860f2b93d655c2eu64
        && 0xa2189ec3533ba22au64 ^ 99u64 == 0xa2189ec3533ba249u64
        && 0xab780ee66e54c20bu64 ^ 116u64 == 0xab780ee66e54c27fu64
        && 0xb1c3d08d7a067dcdu64 ^ 0u64 == 0xb1c3d08d7a067dcdu64) by (bit_vector);
    lemma_round(w, 0, 0xcbf29ce484222325, 119, 0xcbf29ce484222352, 0xaf63ea4c86020456);
    lemma_round(w, 1, 0xaf63ea4c86020456, 105, 0xaf63ea4c8602043f, 0x8cb5f07b56d370d);
    lemma_round(w, 2, 0x8cb5f07b56d370d, 115, 0x8cb5f07b56d377e, 0x5ec9f81948954b1a);
    lemma_round(w, 3, 0x5ec9f81948954b1a, 112, 0x5ec9f81948954b6a, 0xa67bfcf655af251e);
    lemma_round(w, 4, 0xa67bfcf655af251e, 101, 0xa67bfcf655af257b, 0x93d45193989cb001);
    lemma_round(w, 5, 0x93d45193989cb001, 114, 0x93d45193989cb073, 0xce7710cc523fd369);
    lemma_round(w, 6, 0xce7710cc523fd369, 115, 0xce7710cc523fd31a, 0x1424a52fc273b52e);
    lemma_round(w, 7, 0x1424a52fc273b52e, 45, 0x1424a52fc273b503, 0xadf9b3276a9c9419);
    lemma_round(w, 8, 0xadf9b3276a9c9419, 99, 0xadf9b3276a9c947a, 0x3bdfe5fa28104b4e);
    lemma_round(w, 9, 0x3bdfe5fa28104b4e, 111, 0x3bdfe5fa28104b21, 0xcdbee91213afa913);
    lemma_round(w, 10, 0xcdbee91213afa913, 110, 0xcdbee91213afa97d, 0x4b0f86b7737cff67);
    lemma_round(w, 11, 0x4b0f86b7737cff67, 110, 0x4b0f86b7737cff09, 0x860f2b93d655c4b);
    lemma_round(w, 12, 0x860f2b93d655c4b, 101, 0x860f2b93d655c2e, 0xa2189ec3533ba22a);
    lemma_round(w, 13, 0xa2189ec3533ba22a, 99, 0xa2189ec3533ba249, 0xab780ee66e54c20b);
    lemma_round(w, 14, 0xab780ee66e54c20b, 116, 0xab780ee66e54c27f, 0xb1c3d08d7a067dcd);
    lemma_round(w, 15, 0xb1c3d08d7a067dcd, 0, 0xb1c3d08d7a067dcd, 0x16392d665907c357);
}

proof fn lemma_iroh_hash(i: Seq<u8>)
    requires
        i == seq![105u8, 114, 111, 104, 0],
    ensures
        fnv1a(0xcbf29ce484222325, i) == 0x867c9df3e5766d97u64,
{
    lemma_hashed(i);
    assert(0xcbf29ce484222325u64 ^ 105u64 == 0xcbf29ce48422234cu64
        && 0xaf63e44c8601fa24u64 ^ 114u64 == 0xaf63e44c8601fa56u64
        && 0x8b74407b55c6022u64 ^ 111u64 == 0x8b74407b55c604du64
        && 0x2bc8e6192bf7a2d7u64 ^ 104u64 == 0x2bc8e6192bf7a2bfu64
        && 0x5e01bbc5b5c98a8du64 ^ 0u64 == 0x5e01bbc5b5c98a8du64) by (bit_vector);
    lemma_round(i, 0, 0xcbf29ce484222325, 105, 0xcbf29ce48422234c, 0xaf63e44c8601fa24);
    lemma_round(i, 1, 0xaf63e44c8601fa24, 114, 0xaf63e44c8601fa56, 0x8b74407b55c6022);
    lemma_round(i, 2, 0x8b74407b55c6022, 111, 0x8b74407b55c604d, 0x2bc8e6192bf7a2d7);
    lemma_round(i, 3, 0x2bc8e6192bf7a2d7, 104, 0x2bc8e6192bf7a2bf, 0x5e01bbc5b5c98a8d);
    lemma_round(i, 4, 0x5e01bbc5b5c98a8d, 0, 0x5e01bbc5b5c98a8d, 0x867c9df3e5766d97);
}

proof fn lemma_kinds_hash()
    ensures
        fnv1a(0xcbf29ce484222325, field_bytes(TransportKind::WispersConnect.name()))
            == 0x16392d665907c357u64,
        fnv1a(0xcbf29ce484222325, field_bytes(TransportKind::Iroh.name())) == 0x867c9df3e5766d97u64,
{
    lemma_kind_fields();
    lemma_connect_hash(field_bytes("wispers-connect"@));
    lemma_iroh_hash(field_bytes("iroh"@));
}

proof fn lemma_same_apps_bytes(a: Seq<AppConfig>, b: Seq<AppConfig>, n: int)
    requires
        n <= a.len(),
        a.len() == b.len(),
        forall|i: int| 0 <= i < a.len() ==> same_app(#[trigger] a[i], b[i]),
    ensures
        apps_bytes(a, n) == apps_bytes(b, n),
    decreases n,
{
    if n > 0 {
        lemma_same_apps_bytes(a, b, n - 1);
        assert(same_app(a[n - 1], b[n - 1]));
    }
}

//-- The file that `init` writes --------------------------------------------------
/// How the `toml` crate writes a string as a TOML value.
pub uninterp spec fn toml_quoted(s: Seq<char>) -> Seq<char>;

/// `toml::Value::String(..).to_string()`: a string as a TOML value, quoted and
/// escaped. The result depends on the characters of `s` alone.
#[verifier::external_body]
fn quote(s: &str) -> (r: String)
    ensures
        r@ == toml_quoted(s@),
{
    toml::Value::String(s.to_owned()).to_string()
}

/// The line that names a self-hosted backend, or shows how one is named.
pub open spec fn backend_line(transport: TransportConfig) -> Seq<char> {
    match transport {
        TransportConfig::WispersConnect { backend: Some(b) } => "backend = "@ + toml_quoted(b@)
            + "\n"@,
        TransportConfig::WispersConnect {
            backend: None,
        } => "# backend = \"https://hub.example\"   # self-hosted Wispers Connect backend\n"@,
        TransportConfig::Iroh {  } => Seq::empty(),
    }
}

/// The `share.toml` of a new share.
pub open spec fn template(name: Seq<char>, transport: TransportConfig) -> Seq<char> {
    "# This share's config. Edit freely and apply with `waserver reload`.\n"@
        + "# Reference: one [[app]] block per shared app.\n\n"@ + "name = "@ + toml_quoted(name)
        + "\n\n"@ + "[transport]\n"@ + "kind = "@ + toml_quoted(transport.kind_spec().name())
        + "\n"@ + backend_line(transport)
        + "\n# One [[app]] block per app. Keep `id` stable, guest nodes refer to it.\n"@
        + "# `upstream` is host:port, or :port for localhost.\n"@
        + "#\n# [[app]]\n# id = \"myapp\"\n# name = \"My App\"\n# upstream = \":3000\"\n"@
}

/// Renders the `share.toml` written by `init`.
pub fn render_template(name: &str, transport: &TransportConfig) -> (r: String)
    ensures
        r@ == template(name@, *transport),
{
    let mut out = text::copied(
        "# This share's config. Edit freely and apply with `waserver reload`.\n",
    );
    out.append("# Reference: one [[app]] block per shared app.\n\n");
    out.append("name = ");
    out.append(quote(name).as_str());
    out.append("\n\n");
    out.append("[transport]\n");
    out.append("kind = ");
    out.append(quote(transport.kind().as_str()).as_str());
    out.append("\n");
    let ghost head = out@;
    match transport {
        TransportConfig::WispersConnect { backend: Some(b) } => {
            out.append("backend = ");
            out.append(quote(b.as_str()).as_str());
            out.append("\n");
        },
        TransportConfig::WispersConnect { backend: None } => {
            out.append(
                "# backend = \"https://hub.example\"   # self-hosted Wispers Connect backend\n",
            );
        },
        TransportConfig::Iroh {  } => {},
    }
    assert(out@ =~= head + backend_line(*transport));
    out.append("\n# One [[app]] block per app. Keep `id` stable, guest nodes refer to it.\n");
    out.append("# `upstream` is host:port, or :port for localhost.\n");
    out.append(
        "#\n# [[app]]\n# id = \"myapp\"\n# name = \"My App\"\n# upstream = \":3000\"\n",
    );
    out
}

/// A dial target is its own normal form.
pub proof fn upstreams_are_normal(given: Seq<char>, target: Seq<char>)
    requires
        upstream_of(given) == Ok::<Seq<char>, Seq<char>>(target),
    ensures
        upstream_of(target) == Ok::<Seq<char>, Seq<char>>(target),
{
    reveal_strlit(":");
    reveal_strlit("localhost");
    let s = text::trimmed(given);
    text::lemma_trimmed(given);
    text::lemma_last_index(s, ':');
    let (host, port) = text::cut_last(s, ':')->0;
    let n = text::parsed_number(port, 10, 65535)->0;
    let dialled = if host.len() == 0 {
        "localhost"@
    } else {
        host
    };
    text::lemma_decimal(n);
    text::lemma_decimal_parses(n, 65535);
    assert(target == dialled + ":"@ + text::decimal(n));
    assert(target[0] == dialled[0]);
    assert(target.last() == text::decimal(n).last());
    text::lemma_trimmed(target);
    // The colon in front of the port is the last one.
    text::lemma_last_index(target, ':');
    let at = dialled.len() as int;
    assert(target[at] == ':');
    assert forall|j: int| at < j < target.len() implies target[j] != ':' by {
        assert(target[j] == text::decimal(n)[j - at - 1]);
    }
    assert(target.take(at) =~= dialled);
    assert(target.skip(at + 1) =~= text::decimal(n));
}

proof fn lemma_no_app_error(apps: Seq<AppConfig>, i: int, k: int)
    requires
        0 <= i <= k < apps.len(),
        first_app_error(apps, i) is None,
    ensures
        app_error(apps, k) is None,
    decreases k - i,
{
    if i < k {
        lemma_no_app_error(apps, i + 1, k);
    }
}

proof fn lemma_no_error_at_all(apps: Seq<AppConfig>, i: int)
    requires
        0 <= i <= apps.len(),
        forall|k: int| i <= k < apps.len() ==> #[trigger] app_error(apps, k) is None,
    ensures
        first_app_error(apps, i) is None,
    decreases apps.len() - i,
{
    if i < apps.len() {
        lemma_no_error_at_all(apps, i + 1);
    }
}

/// A config that was normalised is accepted again, and stays as it is.
pub proof fn normal_configs_stay_as_they_are(raw: ShareConfig, cfg: ShareConfig)
    requires
        config_error(raw) is None,
        cfg.name == raw.name,
        cfg.apps@.len() == raw.apps@.len(),
        forall|i: int|
            0 <= i < raw.apps@.len() ==> normalised(#[trigger] raw.apps@[i], cfg.apps@[i]),
    ensures
        config_error(cfg) is None,
        forall|i: int| 0 <= i < cfg.apps@.len() ==> normalised(#[trigger] cfg.apps@[i], cfg.apps@[i]),
{
    let a = raw.apps@;
    let b = cfg.apps@;
    assert forall|k: int| 0 <= k < b.len() implies #[trigger] app_error(b, k) is None && normalised(
        b[k],
        b[k],
    ) by {
        assert(normalised(a[k], b[k]));
        lemma_no_app_error(a, 0, k);
        upstreams_are_normal(a[k].upstream@, b[k].upstream@);
        if duplicates_earlier(b, k) {
            let j = choose|j: int| 0 <= j < k && #[trigger] b[j].id@ == b[k].id@;
            assert(normalised(a[j], b[j]));
            assert(a[j].id@ == a[k].id@);
        }
        let id = b[k].id@;
        assert(id_char(id[0]));
        assert(id_char(id.last()));
        text::lemma_trimmed(id);
    }
    assert forall|i: int| 0 <= i < cfg.apps@.len() implies normalised(
        #[trigger] cfg.apps@[i],
        cfg.apps@[i],
    ) by {
        assert(app_error(b, i) is None);
    }
    lemma_no_error_at_all(b, 0);
}

/// What a new share's file names is accepted as it stands: with the name and the transport it
/// was rendered for, by the transport's name and backend, and with no app yet.
pub proof fn rendered_configs_are_accepted(name: String, transport: TransportConfig, raw: ShareConfig)
    requires
        text::trimmed(name@).len() > 0,
        raw.name == name,
        Some(raw.transport) == TransportConfig::tabled(
            transport.kind_spec().name(),
            transport.own_backend(),
        ),
        raw.apps@.len() == 0,
    ensures
        config_error(raw) is None,
        raw.transport == transport,
{
    transport_names_read_back(transport.kind_spec(), transport);
}

//-- What may be shared -----------------------------------------------------------
/// Every port from 1 to 65535 can be an app's, on whatever host: the upstream is dialled as
/// it is written, on `localhost` where the host is left out. No other number is a port.
pub proof fn every_port_can_be_dialled(host: Seq<char>, n: nat)
    requires
        host.len() > 0 ==> !text::white(host[0]),
    ensures
        1 <= n <= 65535 && host.len() > 0 ==> upstream_of(host + ":"@ + text::decimal(n)) == Ok::<
            Seq<char>,
            Seq<char>,
        >(host + ":"@ + text::decimal(n)),
        1 <= n <= 65535 ==> upstream_of(":"@ + text::decimal(n)) == Ok::<Seq<char>, Seq<char>>(
            "localhost:"@ + text::decimal(n),
        ),
        n == 0 || n > 65535 ==> upstream_of(host + ":"@ + text::decimal(n)) is Err && upstream_of(
            ":"@ + text::decimal(n),
        ) is Err,
        upstream_of(text::decimal(n)) is Err,
{
    reveal_strlit(":");
    reveal_strlit("localhost");
    reveal_strlit("localhost:");
    text::lemma_decimal(n);
    if n <= 65535 {
        text::lemma_decimal_parses(n, 65535);
    }
    lemma_upstream_parts(host, text::decimal(n));
    lemma_upstream_parts(Seq::empty(), text::decimal(n));
    assert(Seq::<char>::empty() + ":"@ + text::decimal(n) =~= ":"@ + text::decimal(n));
    assert("localhost"@ + ":"@ + text::decimal(n) =~= "localhost:"@ + text::decimal(n));
    assert('0' <= text::decimal(n)[0] <= '9');
    text::lemma_trimmed(text::decimal(n));
    text::lemma_last_index(text::decimal(n), ':');
}

/// An upstream whose port is written in digits comes to its host and that port.
pub(crate) proof fn lemma_upstream_parts(host: Seq<char>, port: Seq<char>)
    requires
        host.len() > 0 ==> !text::white(host[0]),
        port.len() > 0,
        forall|i: int| 0 <= i < port.len() ==> '0' <= #[trigger] port[i] <= '9',
    ensures
        upstream_of(host + ":"@ + port) == dial_target(host, port),
{
    reveal_strlit(":");
    let s = host + ":"@ + port;
    let at = host.len() as int;
    assert(s[at] == ':');
    assert(s.last() == port.last());
    assert('0' <= port[port.len() - 1] <= '9');
    assert(s[0] == if host.len() > 0 {
        host[0]
    } else {
        ':'
    });
    text::lemma_trimmed(s);
    text::lemma_last_index(s, ':');
    assert forall|j: int| at < j < s.len() implies s[j] != ':' by {
        assert(s[j] == port[j - at - 1]);
    }
    assert(s.take(at) =~= host);
    assert(s.skip(at + 1) =~= port);
}

/// An ID is made of up to 63 letters, digits, dashes and underscores, with a letter or a
/// digit at either end; everything of that form is one.
pub proof fn ids_are_labels(s: Seq<char>)
    ensures
        valid_id(s) <==> {
            &&& s.len() != 0 && s.len() < 64
            &&& forall|i: int|
                0 <= i < s.len() ==> {
                    let c = #[trigger] s[i];
                    ||| 'a' <= c <= 'z' || 'A' <= c <= 'Z' || '0' <= c <= '9'
                    ||| (c == '-' || c == '_') && i != 0 && i != s.len() - 1
                }
        },
{
    if s.len() != 0 && s.len() < 64 && forall|i: int|
        0 <= i < s.len() ==> {
            let c = #[trigger] s[i];
            ||| 'a' <= c <= 'z' || 'A' <= c <= 'Z' || '0' <= c <= '9'
            ||| (c == '-' || c == '_') && i != 0 && i != s.len() - 1
        } {
        let a = s[0];
        let b = s[s.len() - 1];
        assert(valid_id(s));
    }
    if valid_id(s) {
        assert forall|i: int| 0 <= i < s.len() implies {
            let c = #[trigger] s[i];
            ||| 'a' <= c <= 'z' || 'A' <= c <= 'Z' || '0' <= c <= '9'
            ||| (c == '-' || c == '_') && i != 0 && i != s.len() - 1
        } by {
            assert(id_char(s[i]));
        }
    }
}

/// A config is accepted exactly where it has a name that is not blank, and each of its apps
/// has a valid ID, which no other has, and an upstream that can be dialled.
pub proof fn configs_are_accepted_where_every_app_is_in_order(raw: ShareConfig)
    ensures
        config_error(raw) is None <==> {
            &&& text::trimmed(raw.name@).len() > 0
            &&& forall|i: int|
                0 <= i < raw.apps@.len() ==> valid_id((#[trigger] raw.apps@[i]).id@) && upstream_of(
                    raw.apps@[i].upstream@,
                ) is Ok
            &&& forall|i: int, j: int|
                0 <= i < j < raw.apps@.len() ==> (#[trigger] raw.apps@[i]).id@ != (
                #[trigger] raw.apps@[j]).id@
        },
{
    let apps = raw.apps@;
    if config_error(raw) is None {
        assert forall|i: int| 0 <= i < apps.len() implies valid_id((#[trigger] apps[i]).id@)
            && upstream_of(apps[i].upstream@) is Ok by {
            lemma_no_app_error(apps, 0, i);
        }
        assert forall|i: int, j: int| 0 <= i < j < apps.len() implies (#[trigger] apps[i]).id@ != (
        #[trigger] apps[j]).id@ by {
            lemma_no_app_error(apps, 0, j);
        }
    } else if text::trimmed(raw.name@).len() > 0 && (forall|i: int|
        0 <= i < apps.len() ==> valid_id((#[trigger] apps[i]).id@) && upstream_of(
            apps[i].upstream@,
        ) is Ok) && (forall|i: int, j: int|
        0 <= i < j < apps.len() ==> (#[trigger] apps[i]).id@ != (#[trigger] apps[j]).id@) {
        assert forall|k: int| 0 <= k < apps.len() implies #[trigger] app_error(apps, k) is None by {
            lemma_app_in_order(apps, k);
        }
        lemma_no_error_at_all(apps, 0);
    }
}

proof fn lemma_app_in_order(apps: Seq<AppConfig>, k: int)
    requires
        0 <= k < apps.len(),
        valid_id(apps[k].id@),
        upstream_of(apps[k].upstream@) is Ok,
        forall|j: int| 0 <= j < k ==> (#[trigger] apps[j]).id@ != apps[k].id@,
    ensures
        app_error(apps, k) is None,
{
}

/// A config with a name is refused for the first app that is not in order, with what is
/// wrong about it: its ID, that an earlier app has the same, or its upstream.
pub proof fn the_first_bad_app_is_told(raw: ShareConfig, k: int)
    requires
        text::trimmed(raw.name@).len() > 0,
        0 <= k < raw.apps@.len(),
        forall|i: int|
            0 <= i < k ==> valid_id((#[trigger] raw.apps@[i]).id@) && upstream_of(
                raw.apps@[i].upstream@,
            ) is Ok,
        forall|i: int, j: int|
            0 <= i < j < k ==> (#[trigger] raw.apps@[i]).id@ != (#[trigger] raw.apps@[j]).id@,
    ensures
        ({
            let id = raw.apps@[k].id@;
            let told_before = exists|j: int| 0 <= j < k && (#[trigger] raw.apps@[j]).id@ == id;
            if !valid_id(id) {
                config_error(raw) == Some(ErrorView::InvalidAppId(id))
            } else if told_before {
                config_error(raw) == Some(ErrorView::DuplicateAppId(id))
            } else {
                upstream_of(raw.apps@[k].upstream@) matches Err(reason) ==> config_error(raw)
                    == Some(ErrorView::InvalidUpstream { app: id, reason })
            }
        }),
{
    let apps = raw.apps@;
    assert forall|i: int| 0 <= i < k implies #[trigger] app_error(apps, i) is None by {
        lemma_app_in_order(apps, i);
    }
    lemma_first_error(apps, 0, k);
}

/// A share without a name is refused for that, whatever its apps.
pub proof fn shares_have_names(raw: ShareConfig)
    ensures
        config_error(raw) == Some(ErrorView::EmptyName) <==> text::trimmed(raw.name@).len() == 0,
{
    if text::trimmed(raw.name@).len() > 0 {
        lemma_never_nameless(raw.apps@, 0);
    }
}

proof fn lemma_never_nameless(apps: Seq<AppConfig>, i: int)
    requires
        0 <= i,
    ensures
        first_app_error(apps, i) != Some(ErrorView::EmptyName),
    decreases apps.len() - i,
{
    if i < apps.len() {
        lemma_never_nameless(apps, i + 1);
    }
}

proof fn lemma_first_error(apps: Seq<AppConfig>, i: int, k: int)
    requires
        0 <= i <= k < apps.len(),
        forall|j: int| i <= j < k ==> #[trigger] app_error(apps, j) is None,
    ensures
        app_error(apps, k) is Some ==> first_app_error(apps, i) == app_error(apps, k),
    decreases k - i,
{
    if i < k {
        lemma_first_error(apps, i + 1, k);
    }
}

/// An accepted config serves what was written: the same apps in the same order, with their
/// IDs and kinds, a blank name giving way to the ID, and the dial target of their upstream.
pub proof fn accepted_apps_are_served_as_written(raw: AppConfig, cfg: AppConfig)
    requires
        normalised(raw, cfg),
    ensures
        cfg.id@ == raw.id@,
        cfg.kind == raw.kind,
        text::trimmed(raw.name@).len() > 0 ==> cfg.name@ == raw.name@,
        text::trimmed(raw.name@).len() == 0 ==> cfg.name@ == raw.id@,
        upstream_of(raw.upstream@) == Ok::<Seq<char>, Seq<char>>(cfg.upstream@),
{
}

/// An app is found by its ID wherever it stands in the list, the first of that ID.
pub proof fn apps_are_found_by_their_id(cfg: ShareConfig, app_id: Seq<char>)
    ensures
        match cfg.app_index(app_id) {
            Some(k) => 0 <= k < cfg.apps@.len() && cfg.apps@[k].id@ == app_id && forall|j: int|
                0 <= j < k ==> (#[trigger] cfg.apps@[j]).id@ != app_id,
            None => forall|j: int| 0 <= j < cfg.apps@.len() ==> (#[trigger] cfg.apps@[j]).id@ != app_id,
        },
{
    lemma_app_index(cfg, app_id, 0);
}

proof fn lemma_app_index(cfg: ShareConfig, app_id: Seq<char>, i: int)
    requires
        0 <= i,
    ensures
        match cfg.app_index_from(app_id, i) {
            Some(k) => i <= k < cfg.apps@.len() && cfg.apps@[k].id@ == app_id && forall|j: int|
                i <= j < k ==> (#[trigger] cfg.apps@[j]).id@ != app_id,
            None => forall|j: int| i <= j < cfg.apps@.len() ==> (#[trigger] cfg.apps@[j]).id@ != app_id,
        },
    decreases cfg.apps@.len() - i,
{
    if i < cfg.apps@.len() && cfg.apps@[i].id@ != app_id {
        lemma_app_index(cfg, app_id, i + 1);
    }
}

//-- What the hash covers ---------------------------------------------------------
proof fn lemma_scalar_without_zero(c: u32)
    requires
        c != 0,
    ensures
        forall|i: int|
            0 <= i < vstd::utf8::encode_scalar(c).len() ==> #[trigger] vstd::utf8::encode_scalar(
                c,
            )[i] != 0,
{
    assert(c <= 0x7F ==> (c & 0x7F) as u8 != 0) by (bit_vector)
        requires
            c != 0,
    ;
    assert forall|b: u8| #[trigger] (0xC0u8 | b) != 0 by {
        assert(0xC0u8 | b != 0) by (bit_vector);
    }
    assert forall|b: u8| #[trigger] (0xE0u8 | b) != 0 by {
        assert(0xE0u8 | b != 0) by (bit_vector);
    }
    assert forall|b: u8| #[trigger] (0xF0u8 | b) != 0 by {
        assert(0xF0u8 | b != 0) by (bit_vector);
    }
    assert forall|b: u8| #[trigger] (0x80u8 | b) != 0 by {
        assert(0x80u8 | b != 0) by (bit_vector);
    }
}

/// The bytes of a text hold no zero byte where the text holds no zero character.
proof fn lemma_no_zero_byte(s: Seq<char>)
    requires
        forall|i: int| 0 <= i < s.len() ==> #[trigger] s[i] != '\0',
    ensures
        forall|i: int| 0 <= i < encode_utf8(s).len() ==> #[trigger] encode_utf8(s)[i] != 0,
    decreases s.len(),
{
    if s.len() > 0 {
        lemma_no_zero_byte(s.drop_first());
        let c = s[0] as u32;
        let head = vstd::utf8::encode_scalar(c);
        assert(s[0] != '\0');
        if c == 0 {
            vstd::utf8::char_u32_cast(s[0], c);
            vstd::utf8::char_u32_cast('\0', 0u32);
        }
        lemma_scalar_without_zero(c);
        assert(encode_utf8(s) == head + encode_utf8(s.drop_first()));
        assert forall|i: int| 0 <= i < encode_utf8(s).len() implies #[trigger] encode_utf8(s)[i]
            != 0 by {
            if i >= head.len() {
                assert(encode_utf8(s)[i] == encode_utf8(s.drop_first())[i - head.len()]);
            } else {
                assert(encode_utf8(s)[i] == head[i]);
            }
        }
    }
}

/// Fields do not run into one another.
proof fn lemma_fields_part(a: Seq<char>, x: Seq<u8>, b: Seq<char>, y: Seq<u8>)
    requires
        forall|i: int| 0 <= i < a.len() ==> #[trigger] a[i] != '\0',
        forall|i: int| 0 <= i < b.len() ==> #[trigger] b[i] != '\0',
        field_bytes(a) + x == field_bytes(b) + y,
    ensures
        a == b,
        x == y,
{
    lemma_no_zero_byte(a);
    lemma_no_zero_byte(b);
    let p = encode_utf8(a);
    let q = encode_utf8(b);
    let all = field_bytes(a) + x;
    assert(all[p.len() as int] == 0);
    assert((field_bytes(b) + y)[q.len() as int] == 0);
    if p.len() < q.len() {
        assert((field_bytes(b) + y)[p.len() as int] == q[p.len() as int]);
    } else if q.len() < p.len() {
        assert(all[q.len() as int] == p[q.len() as int]);
    }
    assert forall|i: int| 0 <= i < p.len() implies p[i] == q[i] by {
        assert(all[i] == p[i] && (field_bytes(b) + y)[i] == q[i]);
    }
    assert(p =~= q);
    vstd::utf8::encode_utf8_decode_utf8(a);
    vstd::utf8::encode_utf8_decode_utf8(b);
    assert(x =~= all.skip(p.len() as int + 1));
    assert(y =~= all.skip(p.len() as int + 1));
}

/// Whether no text of an app holds a zero character.
pub open spec fn is_text_app(app: AppConfig) -> bool {
    &&& forall|i: int| 0 <= i < app.id@.len() ==> #[trigger] app.id@[i] != '\0'
    &&& forall|i: int| 0 <= i < app.name@.len() ==> #[trigger] app.name@[i] != '\0'
    &&& forall|i: int| 0 <= i < app.upstream@.len() ==> #[trigger] app.upstream@[i] != '\0'
}

proof fn lemma_apps_bytes_front(apps: Seq<AppConfig>, n: int)
    requires
        1 <= n <= apps.len(),
    ensures
        apps_bytes(apps, n) == app_bytes(apps[0]) + apps_bytes(apps.skip(1), n - 1),
    decreases n,
{
    if n == 1 {
        assert(apps_bytes(apps, 0) =~= Seq::<u8>::empty());
        assert(apps_bytes(apps, 1) =~= app_bytes(apps[0]));
        assert(app_bytes(apps[0]) + apps_bytes(apps.skip(1), 0) =~= app_bytes(apps[0]));
    } else {
        lemma_apps_bytes_front(apps, n - 1);
        assert(apps.skip(1)[n - 2] == apps[n - 1]);
        assert(apps_bytes(apps, n) =~= app_bytes(apps[0]) + apps_bytes(apps.skip(1), n - 1));
    }
}

proof fn lemma_kind_names()
    ensures
        forall|k: AppKind, i: int| 0 <= i < k.name().len() ==> #[trigger] k.name()[i] != '\0',
        forall|a: AppKind, b: AppKind| #[trigger] a.name() == #[trigger] b.name() ==> a == b,
{
    reveal_strlit("web");
    reveal_strlit("jellyfin");
    reveal_strlit("immich");
    assert forall|a: AppKind, b: AppKind| #[trigger] a.name() == #[trigger] b.name() implies a
        == b by {
        crate::wire::share_kind_round_trips(a);
        crate::wire::share_kind_round_trips(b);
    }
}

proof fn lemma_app_bytes_part(a: AppConfig, x: Seq<u8>, b: AppConfig, y: Seq<u8>)
    requires
        is_text_app(a),
        is_text_app(b),
        app_bytes(a) + x == app_bytes(b) + y,
    ensures
        a.id@ == b.id@,
        a.name@ == b.name@,
        a.kind == b.kind,
        a.upstream@ == b.upstream@,
        x == y,
{
    lemma_kind_names();
    let (a1, a2, a3, a4) = (
        field_bytes(a.id@),
        field_bytes(a.name@),
        field_bytes(a.kind.name()),
        field_bytes(a.upstream@),
    );
    let (b1, b2, b3, b4) = (
        field_bytes(b.id@),
        field_bytes(b.name@),
        field_bytes(b.kind.name()),
        field_bytes(b.upstream@),
    );
    assert(app_bytes(a) + x =~= a1 + (a2 + (a3 + (a4 + x))));
    assert(app_bytes(b) + y =~= b1 + (b2 + (b3 + (b4 + y))));
    lemma_fields_part(a.id@, a2 + (a3 + (a4 + x)), b.id@, b2 + (b3 + (b4 + y)));
    lemma_fields_part(a.name@, a3 + (a4 + x), b.name@, b3 + (b4 + y));
    lemma_fields_part(a.kind.name(), a4 + x, b.kind.name(), b4 + y);
    lemma_fields_part(a.upstream@, x, b.upstream@, y);
}

proof fn lemma_apps_bytes_part(a: Seq<AppConfig>, b: Seq<AppConfig>)
    requires
        forall|i: int| 0 <= i < a.len() ==> is_text_app(#[trigger] a[i]),
        forall|i: int| 0 <= i < b.len() ==> is_text_app(#[trigger] b[i]),
        apps_bytes(a, a.len() as int) == apps_bytes(b, b.len() as int),
    ensures
        a.len() == b.len(),
        forall|i: int|
            0 <= i < a.len() ==> {
                &&& (#[trigger] a[i]).id@ == b[i].id@
                &&& a[i].name@ == b[i].name@
                &&& a[i].kind == b[i].kind
                &&& a[i].upstream@ == b[i].upstream@
            },
    decreases a.len(),
{
    if a.len() > 0 {
        lemma_apps_bytes_front(a, a.len() as int);
        assert(field_bytes(a[0].id@).len() > 0);
        assert(apps_bytes(a, a.len() as int).len() > 0);
    }
    if b.len() > 0 {
        lemma_apps_bytes_front(b, b.len() as int);
        assert(field_bytes(b[0].id@).len() > 0);
        assert(apps_bytes(b, b.len() as int).len() > 0);
    }
    if a.len() > 0 && b.len() > 0 {
        let x = a.skip(1);
        let y = b.skip(1);
        lemma_app_bytes_part(
            a[0],
            apps_bytes(x, a.len() - 1),
            b[0],
            apps_bytes(y, b.len() - 1),
        );
        assert forall|i: int| 0 <= i < x.len() implies is_text_app(#[trigger] x[i]) by {
            assert(x[i] == a[i + 1]);
        }
        assert forall|i: int| 0 <= i < y.len() implies is_text_app(#[trigger] y[i]) by {
            assert(y[i] == b[i + 1]);
        }
        lemma_apps_bytes_part(x, y);
        assert forall|i: int| 0 <= i < a.len() implies {
            &&& (#[trigger] a[i]).id@ == b[i].id@
            &&& a[i].name@ == b[i].name@
            &&& a[i].kind == b[i].kind
            &&& a[i].upstream@ == b[i].upstream@
        } by {
            if i > 0 {
                assert(x[i - 1] == a[i] && y[i - 1] == b[i]);
            }
        }
    }
}

/// What is hashed tells configs apart: two that are hashed from the same bytes ride the same
/// transport and have the same name and the same apps in the same order, each with the same
/// ID, name, kind and upstream. Texts are taken to hold no zero character, which separates
/// them.
pub proof fn hashed_bytes_tell_configs_apart(a: ShareConfig, b: ShareConfig)
    requires
        forall|i: int| 0 <= i < a.name@.len() ==> #[trigger] a.name@[i] != '\0',
        forall|i: int| 0 <= i < b.name@.len() ==> #[trigger] b.name@[i] != '\0',
        forall|i: int| 0 <= i < a.apps@.len() ==> is_text_app(#[trigger] a.apps@[i]),
        forall|i: int| 0 <= i < b.apps@.len() ==> is_text_app(#[trigger] b.apps@[i]),
        a.observable_bytes() == b.observable_bytes(),
    ensures
        a.transport is Iroh <==> b.transport is Iroh,
        a.name@ == b.name@,
        a.apps@.len() == b.apps@.len(),
        forall|i: int|
            0 <= i < a.apps@.len() ==> {
                &&& (#[trigger] a.apps@[i]).id@ == b.apps@[i].id@
                &&& a.apps@[i].name@ == b.apps@[i].name@
                &&& a.apps@[i].kind == b.apps@[i].kind
                &&& a.apps@[i].upstream@ == b.apps@[i].upstream@
            },
{
    reveal_strlit("wispers-connect");
    reveal_strlit("iroh");
    let x = apps_bytes(a.apps@, a.apps@.len() as int);
    let y = apps_bytes(b.apps@, b.apps@.len() as int);
    lemma_fields_part(
        a.transport.kind_spec().name(),
        field_bytes(a.name@) + x,
        b.transport.kind_spec().name(),
        field_bytes(b.name@) + y,
    );
    assert("iroh"@.len() == 4 && "wispers-connect"@.len() == 15);
    lemma_fields_part(a.name@, x, b.name@, y);
    lemma_apps_bytes_part(a.apps@, b.apps@);
}

/// The hash takes up each byte in turn, as FNV-1a does.
pub proof fn the_hash_takes_up_every_byte(h: u64, bytes: Seq<u8>, b: u8)
    ensures
        fnv1a(h, Seq::<u8>::empty()) == h,
        fnv1a(h, bytes.push(b)) == ((fnv1a(h, bytes) ^ (b as u64)) as int * 1099511628211int)
            % 0x1_0000_0000_0000_0000int,
{
    assert(bytes.push(b).drop_last() =~= bytes);
}

/// The file of a new share names the share, its transport and its backend where it has one,
/// each as a value of its own, and shares no app yet.
pub proof fn new_files_name_share_and_transport(name: Seq<char>, transport: TransportConfig)
    ensures
        template(name, transport)
            == "# This share's config. Edit freely and apply with `waserver reload`.\n"@
            + "# Reference: one [[app]] block per shared app.\n\n"@ + "name = "@ + toml_quoted(name)
            + "\n\n"@ + "[transport]\n"@ + "kind = "@ + toml_quoted(
            match transport {
                TransportConfig::WispersConnect { .. } => "wispers-connect"@,
                TransportConfig::Iroh {  } => "iroh"@,
            },
        ) + "\n"@ + (match transport {
            TransportConfig::WispersConnect { backend: Some(b) } => "backend = "@ + toml_quoted(b@)
                + "\n"@,
            TransportConfig::WispersConnect {
                backend: None,
            } => "# backend = \"https://hub.example\"   # self-hosted Wispers Connect backend\n"@,
            TransportConfig::Iroh {  } => Seq::empty(),
        }) + "\n# One [[app]] block per app. Keep `id` stable, guest nodes refer to it.\n"@
            + "# `upstream` is host:port, or :port for localhost.\n"@
            + "#\n# [[app]]\n# id = \"myapp\"\n# name = \"My App\"\n# upstream = \":3000\"\n"@,
{
}

/// A transport is read from its table with all of its settings, and none that are another's.
pub proof fn transports_are_read_with_their_settings(kind: Seq<char>, backend: Option<String>)
    ensures
        TransportConfig::tabled("wispers-connect"@, backend) == Some(
            TransportConfig::WispersConnect { backend },
        ),
        TransportConfig::tabled("iroh"@, None) == Some(TransportConfig::Iroh {  }),
        backend is Some ==> TransportConfig::tabled("iroh"@, backend) is None,
        kind != "wispers-connect"@ && kind != "iroh"@ ==> TransportConfig::tabled(
            kind,
            backend,
        ) is None,
{
    reveal_strlit("wispers-connect");
    reveal_strlit("iroh");
    assert("wispers-connect"@.len() == 15 && "iroh"@.len() == 4);
}

/// A copy of a config says all that the config says: the name, the transport with its backend,
/// and every app with its ID, its name, its kind and its upstream.
pub proof fn copies_say_all_that_a_config_says(a: ShareConfig, b: ShareConfig)
    requires
        same_config(a, b),
    ensures
        a.name@ == b.name@,
        a.transport is Iroh <==> b.transport is Iroh,
        a.transport matches TransportConfig::WispersConnect { backend } ==> (b.transport
            matches TransportConfig::WispersConnect { backend: other } && backend.deep_view()
            == other.deep_view()),
        a.apps@.len() == b.apps@.len(),
        forall|i: int|
            0 <= i < a.apps@.len() ==> {
                &&& (#[trigger] a.apps@[i]).id@ == b.apps@[i].id@
                &&& a.apps@[i].name@ == b.apps@[i].name@
                &&& a.apps@[i].kind == b.apps@[i].kind
                &&& a.apps@[i].upstream@ == b.apps@[i].upstream@
            },
{
    assert forall|i: int| 0 <= i < a.apps@.len() implies {
        &&& (#[trigger] a.apps@[i]).id@ == b.apps@[i].id@
        &&& a.apps@[i].name@ == b.apps@[i].name@
        &&& a.apps@[i].kind == b.apps@[i].kind
        &&& a.apps@[i].upstream@ == b.apps@[i].upstream@
    } by {
        assert(same_app(a.apps@[i], b.apps@[i]));
    }
}

/// A config that is refused is refused with the app that is the reason, and why.
pub proof fn refusals_name_the_app(id: Seq<char>, reason: Seq<char>, e: Error)
    ensures
        ErrorView::InvalidAppId(id).message() == "app "@ + id
            + ": invalid id (use letters, digits, '-' or '_')"@,
        ErrorView::DuplicateAppId(id).message() == "app "@ + id + ": duplicate id"@,
        (ErrorView::InvalidUpstream { app: id, reason }).message() == "app "@ + id
            + ": invalid upstream: "@ + reason,
        e matches Error::InvalidUpstream { app, reason: why } ==> e.deep_view() == (
        ErrorView::InvalidUpstream { app: app@, reason: why@ }),
        e matches Error::InvalidAppId(app) ==> e.deep_view() == ErrorView::InvalidAppId(app@),
        e matches Error::DuplicateAppId(app) ==> e.deep_view() == ErrorView::DuplicateAppId(app@),
{
}

} // verus!
