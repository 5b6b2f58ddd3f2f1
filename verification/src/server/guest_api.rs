//! The REST API presented to guest nodes, made accessible over CTRL streams.
//!
//! Every stream carries one request and one response. `GET /v1/events` is the
//! exception: after the request, it stays open and streams server-sent events until
//! the guest node goes away.
use crate::server::config::ShareConfig;
use crate::server::protocol::Peer;
use crate::server::storage::{self, Redemption, StateDb};
use crate::text;
use crate::wire::{
    self, ActivationError, CircleChanged, CircleInfo, ConfigHash, InviteSecret, ShareInfo, SharedApp,
};
use vstd::prelude::*;

verus! {

/// A response to a guest.
#[derive(Debug, PartialEq, Eq)]
pub struct ApiResponse {
    pub status: u16,
    pub content_type: Option<&'static str>,
    pub etag: Option<String>,
    /// The `Cache-Control`: what depends on the config is not cached without asking.
    pub cache_control: Option<&'static str>,
    pub body: String,
}

/// An error as its JSON body.
pub open spec fn error_body(msg: Seq<char>) -> Seq<char> {
    "{\"error\":"@ + wire::json_string(msg) + "}"@
}

impl ApiResponse {
    /// Whether this is an error response with that status and message.
    pub open spec fn is_error(self, status: u16, msg: Seq<char>) -> bool {
        &&& self.status == status
        &&& self.content_type matches Some(t) && t@ == "application/json"@
        &&& self.etag is None
        &&& self.cache_control is None
        &&& self.body@ == error_body(msg)
    }

    /// Whether this carries the tag of a config, and asks not to be cached unasked.
    pub open spec fn is_tagged(self, config: ShareConfig) -> bool {
        &&& self.etag matches Some(e) && e@ == ConfigHash(config.hash_spec()).tag()
        &&& self.cache_control matches Some(c) && c@ == "no-cache"@
    }

    /// Whether this is a 200 with that JSON, under the tag of a config.
    pub open spec fn is_tagged_json(self, config: ShareConfig, body: Seq<char>) -> bool {
        &&& self.status == 200
        &&& self.content_type matches Some(t) && t@ == "application/json"@
        &&& self.is_tagged(config)
        &&& self.body@ == body
    }

    /// Whether this is a 200 with that share.
    pub open spec fn is_share(self, config: ShareConfig) -> bool {
        self.is_tagged_json(config, share_json(config))
    }

    /// Whether this is a 200 with that share, as the circle that earlier guests know it as.
    pub open spec fn is_circle(self, config: ShareConfig) -> bool {
        self.is_tagged_json(config, circle_json(config))
    }

    /// Whether this is what a guest that was activated is answered: the share, so the join
    /// has nothing left to fetch.
    pub open spec fn is_activated(self, config: ShareConfig) -> bool {
        self.is_tagged_json(config, activated_json(config))
    }

    /// Whether this says that the guest's copy of that share is up to date.
    pub open spec fn is_not_modified(self, config: ShareConfig) -> bool {
        &&& self.status == 304
        &&& self.content_type is None
        &&& self.is_tagged(config)
        &&& self.body@.len() == 0
    }

    /// Whether this is an empty success.
    pub open spec fn is_no_content(self) -> bool {
        &&& self.status == 204
        &&& self.content_type is None
        &&& self.etag is None
        &&& self.cache_control is None
        &&& self.body@.len() == 0
    }
}

/// An error response.
pub fn error(status: u16, msg: &str) -> (r: ApiResponse)
    ensures
        r.is_error(status, msg@),
{
    let mut body = text::copied("{\"error\":");
    body.append(wire::to_json_string(msg).as_str());
    body.append("}");
    ApiResponse {
        status,
        content_type: Some("application/json"),
        etag: None,
        cache_control: None,
        body,
    }
}

/// What a request is for.
#[derive(Debug, PartialEq, Eq)]
pub enum Route {
    GetShare,
    GetCircle,
    GetEvents,
    PostActivation,
    DeleteGuest,
    /// There is nothing to do but to answer.
    Answer(ApiResponse),
}

/// Whether a path is one of the API's.
pub open spec fn known_path(path: Seq<char>) -> bool {
    ||| path == wire::SHARE_PATH@
    ||| path == wire::CIRCLE_PATH@
    ||| path == wire::EVENTS_PATH@
    ||| path == wire::ACTIVATION_PATH@
    ||| path == wire::GUEST_PATH@
}

/// What a request is for, as far as the request alone says.
pub enum RouteCase {
    GetShare,
    GetCircle,
    GetEvents,
    PostActivation,
    DeleteGuest,
    Error(u16, Seq<char>),
}

/// What a request is for. Unauthorised peers come first: they're only allowed to
/// activate.
pub open spec fn route_case(method: Seq<char>, path: Seq<char>, authorized: bool) -> RouteCase {
    if !authorized && path != wire::ACTIVATION_PATH@ {
        RouteCase::Error(403, "not-activated"@)
    } else if method == "GET"@ && path == wire::SHARE_PATH@ {
        RouteCase::GetShare
    } else if method == "GET"@ && path == wire::CIRCLE_PATH@ {
        RouteCase::GetCircle
    } else if method == "GET"@ && path == wire::EVENTS_PATH@ {
        RouteCase::GetEvents
    } else if method == "POST"@ && path == wire::ACTIVATION_PATH@ {
        RouteCase::PostActivation
    } else if method == "DELETE"@ && path == wire::GUEST_PATH@ {
        RouteCase::DeleteGuest
    } else if known_path(path) {
        RouteCase::Error(405, "method not allowed"@)
    } else {
        RouteCase::Error(404, "no such route"@)
    }
}

/// Route the request to the correct handler.
pub fn route(method: &str, path: &str, peer: &Peer) -> (r: Route)
    ensures
        match route_case(method@, path@, peer.user_id is Some) {
            RouteCase::GetShare => r == Route::GetShare,
            RouteCase::GetCircle => r == Route::GetCircle,
            RouteCase::GetEvents => r == Route::GetEvents,
            RouteCase::PostActivation => r == Route::PostActivation,
            RouteCase::DeleteGuest => r == Route::DeleteGuest,
            RouteCase::Error(status, msg) => r matches Route::Answer(a) && a.is_error(status, msg),
        },
{
    let share = text::same_text(path, wire::SHARE_PATH);
    let circle = text::same_text(path, wire::CIRCLE_PATH);
    let events = text::same_text(path, wire::EVENTS_PATH);
    let activation = text::same_text(path, wire::ACTIVATION_PATH);
    let guest = text::same_text(path, wire::GUEST_PATH);
    if !peer.is_authorized() && !activation {
        return Route::Answer(error(403, "not-activated"));
    }
    let get = text::same_text(method, "GET");
    if get && share {
        Route::GetShare
    } else if get && circle {
        Route::GetCircle
    } else if get && events {
        Route::GetEvents
    } else if text::same_text(method, "POST") && activation {
        Route::PostActivation
    } else if text::same_text(method, "DELETE") && guest {
        Route::DeleteGuest
    } else if share || circle || events || activation || guest {
        Route::Answer(error(405, "method not allowed"))
    } else {
        Route::Answer(error(404, "no such route"))
    }
}

/// A key that is no guest's learns nothing about the share: whatever it asks for, all it
/// may do is activate.
pub proof fn unbound_peers_may_only_activate(method: Seq<char>, path: Seq<char>)
    ensures
        match route_case(method, path, false) {
            RouteCase::PostActivation => method == "POST"@ && path == wire::ACTIVATION_PATH@,
            RouteCase::Error(status, msg) => path != wire::ACTIVATION_PATH@ ==> status == 403 && msg
                == "not-activated"@,
            _ => false,
        },
{
    reveal_strlit("/v1/share");
    reveal_strlit("/v1/circle");
    reveal_strlit("/v1/events");
    reveal_strlit("/v1/activation");
    reveal_strlit("/v1/guest");
    assert(wire::ACTIVATION_PATH@.len() == 14);
    assert(wire::SHARE_PATH@.len() == 9);
    assert(wire::CIRCLE_PATH@.len() == 10);
    assert(wire::EVENTS_PATH@.len() == 10);
    assert(wire::GUEST_PATH@.len() == 9);
}

//-- GET /v1/share and GET /v1/circle ---------------------------------------------
/// Whether an info is a config stripped down to what a guest node needs to know.
pub open spec fn stripped_down(config: ShareConfig, info: ShareInfo) -> bool {
    &&& info.config_hash == ConfigHash(config.hash_spec())
    &&& info.name@ == config.name@
    &&& info.transport@ == config.transport.kind_spec().name()
    &&& info.apps@.len() == config.apps@.len()
    &&& forall|i: int|
        0 <= i < info.apps@.len() ==> {
            &&& (#[trigger] info.apps@[i]).id@ == config.apps@[i].id@
            &&& info.apps@[i].name@ == config.apps@[i].name@
            &&& info.apps@[i].kind == config.apps@[i].kind
        }
}

/// An app as a guest may know it, as a JSON object.
pub open spec fn app_json(id: Seq<char>, name: Seq<char>, kind: wire::AppKind) -> Seq<char> {
    "{\"id\":"@ + wire::json_string(id) + ",\"name\":"@ + wire::json_string(name)
        + ",\"kind\":\""@ + kind.name() + "\"}"@
}

/// How a config starts as a JSON object for guests: with all but its apps.
pub open spec fn config_head(config: ShareConfig) -> Seq<char> {
    wire::info_head(
        ConfigHash(config.hash_spec()),
        config.name@,
        config.transport.kind_spec().name(),
    )
}

/// The apps of a config as a guest may know them, under the given name.
pub open spec fn config_list(config: ShareConfig, list: Seq<char>) -> Seq<char> {
    ",\""@ + list + "\":["@ + text::joined(
        Seq::new(
            config.apps@.len(),
            |i: int| app_json(config.apps@[i].id@, config.apps@[i].name@, config.apps@[i].kind),
        ),
        ","@,
    ) + "]"@
}

/// A config as a guest may know it, as a JSON object.
pub open spec fn share_json(config: ShareConfig) -> Seq<char> {
    config_head(config) + config_list(config, "apps"@) + "}"@
}

/// A config as a guest may know it that calls it a circle, as a JSON object.
pub open spec fn circle_json(config: ShareConfig) -> Seq<char> {
    config_head(config) + config_list(config, "shares"@) + "}"@
}

/// A config as a guest is told it on its activation: under both names, for either guest.
pub open spec fn activated_json(config: ShareConfig) -> Seq<char> {
    config_head(config) + config_list(config, "shares"@) + config_list(config, "apps"@) + "}"@
}

proof fn lemma_stripped_json(config: ShareConfig, info: ShareInfo)
    requires
        stripped_down(config, info),
    ensures
        forall|list: Seq<char>| #[trigger]
            wire::info_list(list, info.apps@) == config_list(config, list),
        info.json() == share_json(config),
        info.activation_json() == activated_json(config),
{
    let a = info.apps@.map_values(|e: wire::Share| e.json());
    let b = Seq::new(
        config.apps@.len(),
        |i: int| app_json(config.apps@[i].id@, config.apps@[i].name@, config.apps@[i].kind),
    );
    assert forall|i: int| 0 <= i < a.len() implies a[i] == b[i] by {
        assert(info.apps@[i].id@ == config.apps@[i].id@);
    }
    assert(a =~= b);
}

/// Strip down a config to the part a guest node needs to know, i.e. leave out
/// upstreams.
pub fn share_info(config: &ShareConfig) -> (r: ShareInfo)
    ensures
        stripped_down(*config, r),
{
    let mut apps: Vec<SharedApp> = Vec::new();
    let mut i: usize = 0;
    while i < config.apps.len()
        invariant
            i <= config.apps@.len(),
            apps@.len() == i,
            forall|j: int|
                0 <= j < i ==> {
                    &&& (#[trigger] apps@[j]).id@ == config.apps@[j].id@
                    &&& apps@[j].name@ == config.apps@[j].name@
                    &&& apps@[j].kind == config.apps@[j].kind
                },
        decreases config.apps@.len() - i,
    {
        let s = &config.apps[i];
        apps.push(
            wire::Share {
                id: text::copied(s.id.as_str()),
                name: text::copied(s.name.as_str()),
                kind: s.kind,
            },
        );
        i = i + 1;
    }
    ShareInfo {
        config_hash: ConfigHash(config.config_hash()),
        name: text::copied(config.name.as_str()),
        transport: text::copied(config.transport.kind().as_str()),
        apps,
    }
}

/// Nothing of where the apps run reaches a guest, but through the hash: two configs that
/// differ in their upstreams alone are shown alike where they hash alike.
pub proof fn upstreams_stay_with_the_host(a: ShareConfig, b: ShareConfig)
    requires
        a.hash_spec() == b.hash_spec(),
        a.name@ == b.name@,
        a.transport.kind_spec() == b.transport.kind_spec(),
        a.apps@.len() == b.apps@.len(),
        forall|i: int|
            0 <= i < a.apps@.len() ==> {
                &&& (#[trigger] a.apps@[i]).id@ == b.apps@[i].id@
                &&& a.apps@[i].name@ == b.apps@[i].name@
                &&& a.apps@[i].kind == b.apps@[i].kind
            },
    ensures
        share_json(a) == share_json(b),
        circle_json(a) == circle_json(b),
        activated_json(a) == activated_json(b),
{
    let x = Seq::new(
        a.apps@.len(),
        |i: int| app_json(a.apps@[i].id@, a.apps@[i].name@, a.apps@[i].kind),
    );
    let y = Seq::new(
        b.apps@.len(),
        |i: int| app_json(b.apps@[i].id@, b.apps@[i].name@, b.apps@[i].kind),
    );
    assert forall|i: int| 0 <= i < x.len() implies x[i] == y[i] by {
        assert(a.apps@[i].id@ == b.apps@[i].id@);
    }
    assert(x =~= y);
}

/// A 200 with that JSON, under the tag of a config.
fn tagged_json(config: &ShareConfig, body: String) -> (r: ApiResponse)
    ensures
        r.is_tagged_json(*config, body@),
{
    ApiResponse {
        status: 200,
        content_type: Some("application/json"),
        etag: Some(ConfigHash(config.config_hash()).etag()),
        cache_control: Some("no-cache"),
        body,
    }
}

/// A 304 under the tag of a config.
fn not_modified(config: &ShareConfig) -> (r: ApiResponse)
    ensures
        r.is_not_modified(*config),
{
    let body = String::new();
    assert(body@.len() == 0);
    ApiResponse {
        status: 304,
        content_type: None,
        etag: Some(ConfigHash(config.config_hash()).etag()),
        cache_control: Some("no-cache"),
        body,
    }
}

/// A 200 with the share as JSON.
pub fn share_response(config: &ShareConfig) -> (r: ApiResponse)
    ensures
        r.is_share(*config),
{
    let info = share_info(config);
    proof {
        lemma_stripped_json(*config, info);
    }
    tagged_json(config, info.to_json())
}

/// A 200 with the share as JSON, as the circle that earlier guests know it as.
pub fn circle_response(config: &ShareConfig) -> (r: ApiResponse)
    ensures
        r.is_circle(*config),
{
    let info = share_info(config);
    proof {
        lemma_stripped_json(*config, info);
    }
    let circle = CircleInfo {
        config_hash: info.config_hash,
        name: info.name,
        transport: info.transport,
        shares: info.apps,
    };
    tagged_json(config, circle.to_json())
}

/// A 200 with the share as JSON, for a guest that was just activated.
pub fn activated_response(config: &ShareConfig) -> (r: ApiResponse)
    ensures
        r.is_activated(*config),
{
    let info = share_info(config);
    proof {
        lemma_stripped_json(*config, info);
    }
    tagged_json(config, info.to_activation_json())
}

/// Whether a guest's copy of a share is the current one, by the `If-None-Match` it sent.
pub open spec fn up_to_date(config: ShareConfig, if_none_match: Option<Seq<char>>) -> bool {
    match if_none_match {
        Some(v) => ConfigHash(config.hash_spec()).in_if_none_match(v),
        None => false,
    }
}

/// The share config, stripped down to what a guest node cares about, with the config
/// hash as a strong entity tag so a guest that is up to date gets a 304 and no body.
pub fn get_share(if_none_match: Option<&str>, config: &ShareConfig) -> (r: ApiResponse)
    ensures
        if up_to_date(*config, if_none_match.deep_view()) {
            r.is_not_modified(*config)
        } else {
            r.is_share(*config)
        },
{
    if is_up_to_date(if_none_match, config) {
        not_modified(config)
    } else {
        share_response(config)
    }
}

/// The share config as [`get_share`] answers it, for guests that know it as a circle.
pub fn get_circle(if_none_match: Option<&str>, config: &ShareConfig) -> (r: ApiResponse)
    ensures
        if up_to_date(*config, if_none_match.deep_view()) {
            r.is_not_modified(*config)
        } else {
            r.is_circle(*config)
        },
{
    if is_up_to_date(if_none_match, config) {
        not_modified(config)
    } else {
        circle_response(config)
    }
}

fn is_up_to_date(if_none_match: Option<&str>, config: &ShareConfig) -> (r: bool)
    ensures
        r == up_to_date(*config, if_none_match.deep_view()),
{
    match if_none_match {
        Some(v) => ConfigHash(config.config_hash()).matches_if_none_match(v),
        None => false,
    }
}

/// A guest that asks with the tag of the response it got last is told that it is up to
/// date exactly while the hash is still that one; one that asks with none is not.
pub proof fn conditional_requests_detect_changes(config: ShareConfig, known: ConfigHash)
    ensures
        up_to_date(config, Some(known.tag())) <==> known == ConfigHash(config.hash_spec()),
        !up_to_date(config, None),
{
    wire::etag_names_only_its_hash(ConfigHash(config.hash_spec()), known);
}

//-- POST /v1/activation ----------------------------------------------------------
pub const MAX_ACTIVATION_BODY: usize = 1024;

/// Refuses an activation with the reason's status and name.
pub fn refuse_activation(why: ActivationError) -> (r: ApiResponse)
    ensures
        r.is_error(why.status_spec(), why.name()),
{
    error(why.status(), why.as_str())
}

/// Redeems an invite secret (in the body), binding the peer to the metadata associated
/// with the invite, namely the user ID. On success, returns the share config. `secret`
/// is `None` where the body is too long or is no activation.
pub fn post_activation(
    db: &mut StateDb,
    secret: Option<&InviteSecret>,
    peer_id: &str,
    now: i64,
    config: &ShareConfig,
) -> (r: ApiResponse)
    requires
        old(db).wf(),
    ensures
        final(db).wf(),
        match secret {
            None => *final(db) == *old(db) && r.is_error(
                ActivationError::Malformed.status_spec(),
                ActivationError::Malformed.name(),
            ),
            Some(s) => if old(db).redeem_case(storage::sha256_digest(s.0@), peer_id@, now) is Full {
                *final(db) == *old(db) && r.is_error(500, "state database error"@)
            } else {
                exists|outcome: Redemption| #[trigger] old(db).redeems_to(
                    storage::sha256_digest(s.0@),
                    peer_id@,
                    now,
                    outcome,
                    *final(db),
                ) && match outcome {
                    Redemption::Activated(_) => r.is_activated(*config),
                    Redemption::Refused(why) => r.is_error(why.status_spec(), why.name()),
                }
            },
        },
{
    match secret {
        None => refuse_activation(ActivationError::Malformed),
        Some(s) => {
            match db.redeem_invite(s, peer_id, now) {
                Ok(outcome) => {
                    let ghost told = outcome;
                    assert(old(db).redeems_to(
                        storage::sha256_digest(s.0@),
                        peer_id@,
                        now,
                        told,
                        *db,
                    ));
                    match outcome {
                        Redemption::Activated(_) => activated_response(config),
                        Redemption::Refused(why) => refuse_activation(why),
                    }
                },
                Err(_) => error(500, "state database error"),
            }
        },
    }
}

//-- DELETE /v1/guest -------------------------------------------------------------
/// Remove the guest node from the DB. The guest closes the connection itself. Wispers
/// Connect guests have no row here; they leave via the hub.
pub fn delete_guest(db: &mut StateDb, peer_id: &str) -> (r: ApiResponse)
    requires
        old(db).wf(),
    ensures
        final(db).wf(),
        match storage::guest_of_peer(old(db).guests@, peer_id@) {
            Some(g) => old(db).leaves_to(g, *final(db)) && r.is_no_content(),
            None => *final(db) == *old(db) && r.is_error(404, "no such guest"@),
        },
{
    let guest = match db.guest_by_peer(peer_id) {
        Some(guest) => guest,
        None => {
            return error(404, "no such guest");
        },
    };
    proof {
        let g = storage::guest_of_peer(db.guests@, peer_id@)->0;
        storage::lemma_guest_of_peer(db.guests@, peer_id@);
        storage::lemma_guest_of_number(db.guests@, guest.number);
        assert(db.guests@[g].node.number == guest.number);
        let n = storage::guest_of_number(db.guests@, guest.number)->0;
        assert(n == g);
    }
    let removed = db.remove_guest(guest.number);
    if removed.is_err() {
        return error(500, "state database error");
    }
    let body = String::new();
    assert(body@.len() == 0);
    ApiResponse { status: 204, content_type: None, etag: None, cache_control: None, body }
}

//-- GET /v1/events ---------------------------------------------------------------
/// What opens an events stream, so the headers reach the guest before any event.
pub const EVENTS_OPENING: &'static str = ": connected\n\n";

/// What an idle events stream sends now and then. Heartbeats keep middleboxes from
/// timing the stream out and make a stream whose guest silently went away fail on the
/// next write instead of lingering until the next reload.
pub const EVENTS_PING: &'static str = ": ping\n\n";

/// How often an idle events stream sends a heartbeat, in seconds.
pub const EVENTS_HEARTBEAT: u64 = 30;

/// One server-sent event: the config changed.
pub fn sse_event(config_hash: u64) -> (r: String)
    ensures
        r@ == "event: "@ + wire::EVENT_CIRCLE_CHANGED@ + "\ndata: "@ + (CircleChanged {
            config_hash: ConfigHash(config_hash),
        }).json() + "\n\n"@,
{
    let mut out = text::copied("event: ");
    out.append(wire::EVENT_CIRCLE_CHANGED);
    out.append("\ndata: ");
    out.append((CircleChanged { config_hash: ConfigHash(config_hash) }).to_json().as_str());
    out.append("\n\n");
    out
}

/// The head of the response that streams events.
pub fn get_events() -> (r: ApiResponse)
    ensures
        r.status == 200,
        r.content_type matches Some(t) && t@ == "text/event-stream"@,
        r.etag is None,
        r.cache_control matches Some(c) && c@ == "no-cache"@,
        r.body@ == EVENTS_OPENING@,
{
    ApiResponse {
        status: 200,
        content_type: Some("text/event-stream"),
        etag: None,
        cache_control: Some("no-cache"),
        body: text::copied(EVENTS_OPENING),
    }
}

//-- What the API answers ---------------------------------------------------------
/// The API is these five requests. Another method on one of their paths is not allowed, and
/// another path is not there; a peer that is no guest may only activate.
pub proof fn requests_reach_their_handlers(method: Seq<char>, path: Seq<char>, authorized: bool)
    ensures
        ({
            let case = route_case(method, path, authorized);
            let share = path == "/v1/share"@;
            let circle = path == "/v1/circle"@;
            let events = path == "/v1/events"@;
            let activation = path == "/v1/activation"@;
            let guest = path == "/v1/guest"@;
            let get = method == "GET"@;
            &&& case is PostActivation <==> method == "POST"@ && activation
            &&& authorized ==> {
                &&& case is GetShare <==> get && share
                &&& case is GetCircle <==> get && circle
                &&& case is GetEvents <==> get && events
                &&& case is DeleteGuest <==> method == "DELETE"@ && guest
                &&& (share || circle || events) && !get ==> case == RouteCase::Error(
                    405,
                    "method not allowed"@,
                )
                &&& guest && method != "DELETE"@ ==> case == RouteCase::Error(
                    405,
                    "method not allowed"@,
                )
                &&& !(share || circle || events || activation || guest) ==> case
                    == RouteCase::Error(404, "no such route"@)
            }
            &&& activation && method != "POST"@ ==> case == RouteCase::Error(
                405,
                "method not allowed"@,
            )
            &&& !authorized && !activation ==> case == RouteCase::Error(403, "not-activated"@)
        }),
{
    reveal_strlit("/v1/share");
    reveal_strlit("/v1/circle");
    reveal_strlit("/v1/events");
    reveal_strlit("/v1/activation");
    reveal_strlit("/v1/guest");
    assert("/v1/share"@[4] == 's' && "/v1/circle"@[4] == 'c' && "/v1/events"@[4] == 'e');
    assert("/v1/activation"@[4] == 'a' && "/v1/guest"@[4] == 'g');
}

/// A guest is told the whole config but for where the apps run: the hash, the name, the
/// transport, and every app in its place with its ID, its name and its kind. It is told the
/// same by every route, under the name that the route has for the apps.
pub proof fn guests_are_told_every_app(config: ShareConfig, parts: Seq<Seq<char>>)
    requires
        parts.len() == config.apps@.len(),
        forall|i: int|
            0 <= i < parts.len() ==> #[trigger] parts[i] == "{\"id\":"@ + wire::json_string(
                config.apps@[i].id@,
            ) + ",\"name\":"@ + wire::json_string(config.apps@[i].name@) + ",\"kind\":\""@
                + config.apps@[i].kind.name() + "\"}"@,
    ensures
        ({
            let kind = match config.transport {
                crate::server::config::TransportConfig::WispersConnect { .. } => "wispers-connect"@,
                crate::server::config::TransportConfig::Iroh {  } => "iroh"@,
            };
            let head = "{\"config_hash\":\""@ + ConfigHash(config.hash_spec()).digits()
                + "\",\"name\":"@ + wire::json_string(config.name@) + ",\"transport\":"@
                + wire::json_string(kind);
            let apps = ",\""@ + "apps"@ + "\":["@ + text::joined(parts, ","@) + "]"@;
            let shares = ",\""@ + "shares"@ + "\":["@ + text::joined(parts, ","@) + "]"@;
            &&& share_json(config) == head + apps + "}"@
            &&& circle_json(config) == head + shares + "}"@
            &&& activated_json(config) == head + shares + apps + "}"@
        }),
{
    assert(Seq::new(
        config.apps@.len(),
        |i: int| app_json(config.apps@[i].id@, config.apps@[i].name@, config.apps@[i].kind),
    ) =~= parts);
}

/// An error is told as JSON, under its own status and nobody's tag; and a guest's copy is up to
/// date only where its request names the current hash.
pub proof fn errors_are_told_as_json(r: ApiResponse, status: u16, msg: Seq<char>)
    ensures
        r.is_error(status, msg) ==> r.status == status && r.body@ == "{\"error\":"@
            + wire::json_string(msg) + "}"@ && r.etag is None,
{
}

/// A successful answer carries the tag of the config that it tells, so the next request can
/// name it; one that is up to date gets the tag and no body.
pub proof fn answers_carry_the_tag_of_the_config(r: ApiResponse, config: ShareConfig)
    ensures
        r.is_share(config) ==> r.status == 200 && r.body@ == share_json(config) && (r.etag
            matches Some(e) && e@ == ConfigHash(config.hash_spec()).tag()),
        r.is_circle(config) ==> r.status == 200 && r.body@ == circle_json(config) && (r.etag
            matches Some(e) && e@ == ConfigHash(config.hash_spec()).tag()),
        r.is_activated(config) ==> r.status == 200 && r.body@ == activated_json(config) && (r.etag
            matches Some(e) && e@ == ConfigHash(config.hash_spec()).tag()),
        r.is_not_modified(config) ==> r.status == 304 && r.body@.len() == 0 && (r.etag matches Some(
            e,
        ) && e@ == ConfigHash(config.hash_spec()).tag()),
{
}

/// A guest that left is told so by a status alone.
pub proof fn goodbyes_are_answered_by_a_status(r: ApiResponse)
    requires
        r.is_no_content(),
    ensures
        r.status == 204,
        r.body@.len() == 0,
        r.content_type is None,
        r.etag is None,
{
}

/// What a guest needs to know of a config is all of it but for where the apps run.
pub proof fn infos_keep_every_app(config: ShareConfig, info: ShareInfo)
    requires
        stripped_down(config, info),
    ensures
        info.config_hash.0 == config.hash_spec(),
        info.name@ == config.name@,
        info.apps@.len() == config.apps@.len(),
        forall|i: int|
            0 <= i < config.apps@.len() ==> {
                &&& (#[trigger] info.apps@[i]).id@ == config.apps@[i].id@
                &&& info.apps@[i].name@ == config.apps@[i].name@
                &&& info.apps@[i].kind == config.apps@[i].kind
            },
{
}

} // verus!
