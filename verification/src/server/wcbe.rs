//! Wispers Connect backend interface.
//!
//! What is asked of the Wispers Connect backend to manage connectivity groups and
//! register new guest nodes, and what its answers mean.
use crate::headers::{status_line, status_text};
use crate::text;
use crate::wire;
use vstd::prelude::*;

verus! {

pub const MANAGED_API_BASE: &'static str = "https://connect.wispers.dev/api/v1";

/// Whether what stands before the dot of an API key has the shape `wc_<env>_<id>`, with
/// neither part empty.
pub open spec fn key_id_shape(id: Seq<char>) -> bool {
    &&& "wc_"@.is_prefix_of(id)
    &&& text::cut_first(id.skip(3), '_') matches Some((env, rest)) && env.len() > 0 && rest.len()
        > 0
}

/// The public part of an API key.
pub open spec fn public_key_id(api_key: Seq<char>) -> Option<Seq<char>> {
    match text::cut_first(api_key, '.') {
        Some((id, _)) => if key_id_shape(id) {
            Some(id)
        } else {
            None
        },
        None => None,
    }
}

fn has_key_id_shape(id: &str) -> (r: bool)
    ensures
        r == key_id_shape(id@),
{
    proof {
        reveal_strlit("wc_");
    }
    match text::strip_prefix(id, "wc_") {
        None => false,
        Some(rest) => match text::split_once(rest.as_str(), '_') {
            Some((env, key)) => !env.as_str().is_empty() && !key.as_str().is_empty(),
            None => false,
        },
    }
}

/// The public ID part of an API key: everything before the dot in
/// `wc_<env>_<id>.<secret>`. Safe to display. `None` when the key doesn't have that
/// shape.
pub fn key_id(api_key: &str) -> (r: Option<String>)
    ensures
        r.deep_view() == public_key_id(api_key@),
{
    match text::split_once(api_key, '.') {
        Some((id, _)) => {
            if has_key_id_shape(id.as_str()) {
                Some(id)
            } else {
                None
            }
        },
        None => None,
    }
}

/// What is shown of an API key holds nothing of its secret: it is a function of
/// what stands before the first dot, whatever follows. A key of another shape shows nothing.
pub proof fn key_id_never_contains_secret_material(id: Seq<char>, secret: Seq<char>)
    requires
        forall|i: int| 0 <= i < id.len() ==> id[i] != '.',
    ensures
        public_key_id(id + seq!['.'] + secret) == if key_id_shape(id) {
            Some(id)
        } else {
            None
        },
{
    let key = id + seq!['.'] + secret;
    text::lemma_first_index(key, '.');
    assert(key[id.len() as int] == '.');
    assert(forall|i: int| 0 <= i < id.len() ==> key[i] == id[i]);
    assert(key.take(id.len() as int) =~= id);
}

/// Where the REST API of a backend is.
pub open spec fn api_base_of(backend: Option<Seq<char>>) -> Seq<char> {
    match backend {
        Some(b) => text::trim_end_of(b, '/') + "/api/v1"@,
        None => MANAGED_API_BASE@,
    }
}

/// The Integrator REST API base to use, based on the --backend flag.
pub fn api_base(backend: Option<&str>) -> (r: String)
    ensures
        r@ == api_base_of(backend.deep_view()),
{
    match backend {
        Some(b) => {
            let mut out = text::trim_end_matches(b, '/');
            out.append("/api/v1");
            out
        },
        None => text::copied(MANAGED_API_BASE),
    }
}

#[derive(Clone, Debug, PartialEq, Eq)]
pub struct NodeMetadata {
    pub user_id: String,
}

impl NodeMetadata {
    /// The metadata as the JSON object that the backend keeps.
    pub open spec fn json(self) -> Seq<char> {
        "{\"userId\":"@ + wire::json_string(self.user_id@) + "}"@
    }

    /// The metadata as JSON text.
    pub fn to_json(&self) -> (r: String)
        ensures
            r@ == self.json(),
    {
        let mut out = text::copied("{\"userId\":");
        out.append(wire::to_json_string(self.user_id.as_str()).as_str());
        out.append("}");
        out
    }
}

/// A connectivity group as returned by `GET /connectivity-groups/:id`.
#[derive(Debug, PartialEq, Eq)]
pub struct GroupDetail {
    pub created_at: String,
    pub name: Option<String>,
    pub nodes: Vec<GroupNode>,
    /// `None` on backends that predate the field.
    pub node_quota: Option<NodeQuota>,
}

/// A group's node-quota usage. `current` counts registered nodes plus unexpired
/// pending registration tokens. The quota spent on pending tokens is `current` minus
/// the length of `nodes`.
#[derive(Clone, Copy, Debug, PartialEq, Eq, Structural)]
pub struct NodeQuota {
    /// `None` = unlimited (a backend without plans, e.g. standalone).
    pub limit: Option<i32>,
    pub current: i32,
}

/// Domain-level stats as returned by `GET /stats`.
#[derive(Clone, Copy, Debug, PartialEq, Eq, Structural)]
pub struct Stats {
    pub connectivity_groups: GroupsStats,
}

/// The domain's connectivity-group quota usage.
#[derive(Clone, Copy, Debug, PartialEq, Eq, Structural)]
pub struct GroupsStats {
    pub count: i32,
    /// `None` = unlimited (a backend without plans, e.g. standalone).
    pub max: Option<i32>,
}

/// One entry of `GET /connectivity-groups/:id/registration-tokens`. The times are in
/// the form of RFC 3339.
#[derive(Debug, PartialEq, Eq)]
pub struct RegistrationToken {
    pub node_name: Option<String>,
    /// The metadata that the token was made with, where it reads as such.
    pub node_metadata: Option<NodeMetadata>,
    pub created_at: String,
    pub expires_at: String,
    pub used_at: Option<String>,
}

/// Outcome of `delete_node`: 404 means the registration is already gone (deleted
/// earlier, or the node deregistered itself), which callers treat as "nothing left
/// to do" rather than an error.
#[derive(Clone, Copy, Debug, PartialEq, Eq, Structural)]
pub enum DeleteNodeOutcome {
    Deleted,
    AlreadyGone,
}

/// A quota rejection (HTTP 429 with a `quota exceeded` body). Callers match on this
/// to render actionable messages. [`QuotaExceeded::message`] is the fallback
/// rendering.
#[derive(Clone, Debug, PartialEq, Eq)]
pub struct QuotaExceeded {
    /// Which quota, e.g. `nodes_per_group` or `groups_per_domain`.
    pub quota: String,
    pub limit: i32,
    pub current: i32,
}

impl QuotaExceeded {
    pub open spec fn text(self) -> Seq<char> {
        self.quota@ + " quota exceeded ("@ + text::signed_decimal(self.current as int) + " of "@
            + text::signed_decimal(self.limit as int) + " used)"@
    }

    pub fn message(&self) -> (r: String)
        ensures
            r@ == self.text(),
    {
        let mut out = text::copied(self.quota.as_str());
        out.append(" quota exceeded (");
        text::push_signed(&mut out, self.current as i64);
        out.append(" of ");
        text::push_signed(&mut out, self.limit as i64);
        out.append(" used)");
        out
    }
}

/// A node of a connectivity group. The times are in the form of RFC 3339.
#[derive(Debug, PartialEq, Eq)]
pub struct GroupNode {
    pub node_number: i32,
    pub created_at: String,
    pub name: Option<String>,
    pub last_seen_at: Option<String>,
    /// The metadata of the node's registration, where it reads as such.
    pub metadata: Option<NodeMetadata>,
}

//-- Requests ---------------------------------------------------------------------
/// Access to a backend: where its API is, and with which key.
#[derive(Clone, Debug, PartialEq, Eq)]
pub struct Client {
    pub api_base: String,
    pub api_key: String,
}

impl Client {
    pub fn new(api_key: &str, api_base: &str) -> (r: Client)
        ensures
            r.api_key@ == api_key@,
            r.api_base@ == api_base@,
    {
        Client { api_base: text::copied(api_base), api_key: text::copied(api_key) }
    }

    pub fn stats_url(&self) -> (r: String)
        ensures
            r@ == self.api_base@ + "/stats"@,
    {
        let mut out = text::copied(self.api_base.as_str());
        out.append("/stats");
        out
    }

    pub fn groups_url(&self) -> (r: String)
        ensures
            r@ == self.api_base@ + "/connectivity-groups"@,
    {
        let mut out = text::copied(self.api_base.as_str());
        out.append("/connectivity-groups");
        out
    }

    pub fn group_url(&self, cg_id: &str) -> (r: String)
        ensures
            r@ == self.api_base@ + "/connectivity-groups/"@ + cg_id@,
    {
        let mut out = text::copied(self.api_base.as_str());
        out.append("/connectivity-groups/");
        out.append(cg_id);
        out
    }

    pub fn tokens_url(&self, cg_id: &str) -> (r: String)
        ensures
            r@ == self.api_base@ + "/connectivity-groups/"@ + cg_id@ + "/registration-tokens"@,
    {
        let mut out = self.group_url(cg_id);
        out.append("/registration-tokens");
        out
    }

    pub fn node_url(&self, cg_id: &str, node_number: i32) -> (r: String)
        ensures
            r@ == self.api_base@ + "/connectivity-groups/"@ + cg_id@ + "/nodes/"@
                + text::signed_decimal(node_number as int),
    {
        let mut out = self.group_url(cg_id);
        out.append("/nodes/");
        text::push_signed(&mut out, node_number as i64);
        out
    }
}

/// The fields that ask for a registration token: a long-lived one, for that node
/// name and metadata where they are given.
pub open spec fn token_fields(
    node_name: Option<Seq<char>>,
    metadata: Option<NodeMetadata>,
) -> Seq<(Seq<char>, Seq<char>)> {
    let ttl = seq![("ttlProfile"@, "asynchronous"@)];
    let named = match node_name {
        Some(n) => ttl.push(("nodeName"@, n)),
        None => ttl,
    };
    match metadata {
        Some(m) => named.push(("nodeMetadata"@, m.json())),
        None => named,
    }
}

/// The fields of the request for a registration token.
pub fn registration_token_fields(
    node_name: Option<&str>,
    metadata: Option<&NodeMetadata>,
) -> (r: Vec<(String, String)>)
    ensures
        r.deep_view() == token_fields(
            node_name.deep_view(),
            match metadata {
                Some(m) => Some(*m),
                None => None,
            },
        ),
{
    let mut body: Vec<(String, String)> = Vec::new();
    body.push((text::copied("ttlProfile"), text::copied("asynchronous")));
    let ghost b0 = body.deep_view();
    assert(b0 =~= seq![("ttlProfile"@, "asynchronous"@)]);
    if let Some(n) = node_name {
        body.push((text::copied("nodeName"), text::copied(n)));
        assert(body.deep_view() =~= b0.push(("nodeName"@, n@)));
    }
    let ghost b1 = body.deep_view();
    if let Some(m) = metadata {
        body.push((text::copied("nodeMetadata"), m.to_json()));
        assert(body.deep_view() =~= b1.push(("nodeMetadata"@, m.json())));
    }
    body
}

//-- Answers ----------------------------------------------------------------------
/// The body of a quota rejection.
#[derive(Clone, Debug, PartialEq, Eq)]
pub struct QuotaBody {
    pub error: String,
    pub quota: String,
    pub limit: i32,
    pub current: i32,
}

/// What the backend refused a request with.
#[derive(Clone, Debug, PartialEq, Eq)]
pub enum BackendError {
    Quota(QuotaExceeded),
    Server(String),
}

impl BackendError {
    pub open spec fn text(self) -> Seq<char> {
        match self {
            BackendError::Quota(q) => q.text(),
            BackendError::Server(why) => why@,
        }
    }

    pub fn message(&self) -> (r: String)
        ensures
            r@ == self.text(),
    {
        match self {
            BackendError::Quota(q) => q.message(),
            BackendError::Server(why) => text::copied(why.as_str()),
        }
    }
}

/// Whether a status reports success.
pub open spec fn is_success(code: u16) -> bool {
    200 <= code < 300
}

/// What an answer that is no success means: `quota` is the body as a quota
/// rejection, where it reads as one.
///
/// The backend's rate limiter also answers 429, so quota detection matches on the
/// body's `error` field, not the status alone.
pub fn classify_error(status: u16, body: &str, quota: Option<QuotaBody>) -> (r: BackendError)
    requires
        100 <= status <= 999,
    ensures
        match quota {
            Some(q) if status == 429 && q.error@ == "quota exceeded"@ => r == BackendError::Quota(
                QuotaExceeded { quota: q.quota, limit: q.limit, current: q.current },
            ),
            _ => r matches BackendError::Server(why) && why@ == "server returned "@ + status_text(
                status,
            ) + ": "@ + body@,
        },
{
    if let Some(q) = quota {
        if status == 429 && text::same_text(q.error.as_str(), "quota exceeded") {
            return BackendError::Quota(
                QuotaExceeded { quota: q.quota, limit: q.limit, current: q.current },
            );
        }
    }
    let mut out = text::copied("server returned ");
    out.append(status_line(status).as_str());
    out.append(": ");
    out.append(body);
    BackendError::Server(out)
}

/// Passes success responses through, everything else becomes an error: quota 429s as
/// a typed [`QuotaExceeded`], the rest as "server returned…".
pub fn ok_or_error(status: u16, body: &str, quota: Option<QuotaBody>) -> (r: Result<(), BackendError>)
    requires
        100 <= status <= 999,
    ensures
        r is Ok <==> is_success(status),
        !is_success(status) ==> match quota {
            Some(q) if status == 429 && q.error@ == "quota exceeded"@ => r == Err::<
                (),
                BackendError,
            >(
                BackendError::Quota(
                    QuotaExceeded { quota: q.quota, limit: q.limit, current: q.current },
                ),
            ),
            _ => r matches Err(BackendError::Server(why)) && why@ == "server returned "@
                + status_text(status) + ": "@ + body@,
        },
{
    if 200 <= status && status < 300 {
        return Ok(());
    }
    Err(classify_error(status, body, quota))
}

/// What the answer to a request to delete a node's registration means. A missing
/// registration is gone already.
pub fn delete_node_outcome(status: u16, body: &str, quota: Option<QuotaBody>) -> (r: Result<
    DeleteNodeOutcome,
    BackendError,
>)
    requires
        100 <= status <= 999,
    ensures
        status == 404 <==> r == Ok::<DeleteNodeOutcome, BackendError>(
            DeleteNodeOutcome::AlreadyGone,
        ),
        is_success(status) <==> r == Ok::<DeleteNodeOutcome, BackendError>(
            DeleteNodeOutcome::Deleted,
        ),
        status != 404 && !is_success(status) ==> match quota {
            Some(q) if status == 429 && q.error@ == "quota exceeded"@ => r == Err::<
                DeleteNodeOutcome,
                BackendError,
            >(
                BackendError::Quota(
                    QuotaExceeded { quota: q.quota, limit: q.limit, current: q.current },
                ),
            ),
            _ => r matches Err(BackendError::Server(why)) && why@ == "server returned "@
                + status_text(status) + ": "@ + body@,
        },
{
    if status == 404 {
        return Ok(DeleteNodeOutcome::AlreadyGone);
    }
    match ok_or_error(status, body, quota) {
        Ok(()) => Ok(DeleteNodeOutcome::Deleted),
        Err(e) => Err(e),
    }
}

//-- Keys and addresses -----------------------------------------------------------
/// The public part of an API key is all that stands before its dot, the environment and the ID
/// included, for every key of the form `wc_<env>_<id>.<secret>`.
pub proof fn keys_are_known_by_their_public_part(
    env: Seq<char>,
    id: Seq<char>,
    secret: Seq<char>,
)
    requires
        env.len() > 0,
        id.len() > 0,
        forall|i: int| 0 <= i < env.len() ==> #[trigger] env[i] != '_' && env[i] != '.',
        forall|i: int| 0 <= i < id.len() ==> #[trigger] id[i] != '.',
    ensures
        public_key_id("wc_"@ + env + "_"@ + id + "."@ + secret) == Some("wc_"@ + env + "_"@ + id),
{
    reveal_strlit("wc_");
    reveal_strlit("_");
    reveal_strlit(".");
    let public = "wc_"@ + env + "_"@ + id;
    assert(public + "."@ + secret =~= public + seq!['.'] + secret);
    assert forall|i: int| 0 <= i < public.len() implies public[i] != '.' by {
        if 3 <= i < 3 + env.len() {
            assert(public[i] == env[i - 3]);
        } else if 3 + env.len() < i {
            assert(public[i] == id[i - 4 - env.len()]);
        }
    }
    key_id_never_contains_secret_material(public, secret);
    assert(public.subrange(0, 3) =~= "wc_"@);
    let rest = public.skip(3);
    assert(rest =~= env + "_"@ + id);
    text::lemma_first_index(rest, '_');
    let at = env.len() as int;
    assert(rest[at] == '_');
    assert forall|j: int| 0 <= j < at implies rest[j] != '_' by {
        assert(rest[j] == env[j]);
    }
    assert(rest.take(at) =~= env);
    assert(rest.skip(at + 1) =~= id);
}

/// What is shown of a key is a part of it that ends before the first dot, and has that form.
pub proof fn shown_keys_end_at_the_dot(api_key: Seq<char>)
    ensures
        public_key_id(api_key) matches Some(shown) ==> {
            &&& exists|secret: Seq<char>| api_key == #[trigger] (shown + seq!['.'] + secret)
            &&& forall|i: int| 0 <= i < shown.len() ==> #[trigger] shown[i] != '.'
            &&& "wc_"@.is_prefix_of(shown)
        },
{
    text::cuts_are_where_they_should_be(api_key, '.');
    if let Some((id, secret)) = text::cut_first(api_key, '.') {
        assert(api_key == id + seq!['.'] + secret);
        if let Some(shown) = public_key_id(api_key) {
            assert(shown == id && key_id_shape(id));
            assert(api_key == shown + seq!['.'] + secret);
            assert forall|i: int| 0 <= i < shown.len() implies #[trigger] shown[i] != '.' by {
                assert(id[i] != '.');
            }
        }
    }
}

/// The API of a self-hosted backend is below its own address, however many slashes that ends
/// in; without one it is the managed backend's.
pub proof fn the_api_is_below_the_backend(url: Seq<char>, slashes: Seq<char>)
    requires
        url.len() > 0 ==> url.last() != '/',
        forall|i: int| 0 <= i < slashes.len() ==> #[trigger] slashes[i] == '/',
    ensures
        api_base_of(Some(url + slashes)) == url + "/api/v1"@,
        api_base_of(None) == "https://connect.wispers.dev/api/v1"@,
{
    let raw = url + slashes;
    text::trimming_the_end_takes_one_character(raw, '/');
    let left = text::trim_end_of(raw, '/');
    if left.len() > url.len() {
        assert(raw[left.len() - 1] == slashes[left.len() - 1 - url.len()]);
        assert(left.last() == raw[left.len() - 1]);
    } else if left.len() < url.len() {
        assert(raw[url.len() - 1] == url[url.len() - 1]);
    }
    assert(left =~= url);
}

/// A registration token is asked for with a long life, and with the node's name and its user
/// where they are given.
pub proof fn tokens_are_asked_for_by_name_and_user(
    node_name: Option<Seq<char>>,
    metadata: Option<NodeMetadata>,
)
    ensures
        ({
            let fields = token_fields(node_name, metadata);
            &&& fields[0] == ("ttlProfile"@, "asynchronous"@)
            &&& fields.len() == 1 + (if node_name is Some {
                1int
            } else {
                0
            }) + (if metadata is Some {
                1int
            } else {
                0
            })
            &&& node_name matches Some(name) ==> fields[1] == ("nodeName"@, name)
            &&& metadata matches Some(m) ==> fields.last() == (
                "nodeMetadata"@,
                "{\"userId\":"@ + wire::json_string(m.user_id@) + "}"@,
            )
        }),
{
}

/// A quota that is used up is told by its name, by how much of it is used, and by how much
/// there is, in that order.
pub proof fn used_up_quotas_are_told_with_their_numbers(q: QuotaExceeded)
    ensures
        q.text() == q.quota@ + " quota exceeded ("@ + text::signed_decimal(q.current as int)
            + " of "@ + text::signed_decimal(q.limit as int) + " used)"@,
        BackendError::Quota(q).text() == q.text(),
{
}

/// An answer is a success where its status is in the two hundreds, and nowhere else.
pub proof fn successes_are_in_the_two_hundreds(code: u16)
    ensures
        is_success(code) <==> code / 100 == 2,
{
}

} // verus!
