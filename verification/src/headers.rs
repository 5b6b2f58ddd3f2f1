//! HTTP headers on their way through a proxy.
use crate::text;
use vstd::prelude::*;
use vstd::utf8::encode_utf8;

verus! {

//-- The outside header map -------------------------------------------------------
#[verifier::external_type_specification]
#[verifier::external_body]
#[verifier::reject_recursive_types(T)]
pub struct ExHeaderMap<T>(hyper::HeaderMap<T>);

#[verifier::external_type_specification]
#[verifier::external_body]
pub struct ExHeaderValue(hyper::header::HeaderValue);

/// What a header map holds: for each header name, in lower case, the values it has,
/// in the order in which they were added.
pub uninterp spec fn header_values(h: hyper::HeaderMap<hyper::header::HeaderValue>) -> Map<
    Seq<char>,
    Seq<Seq<u8>>,
>;

/// Whether `s` is a header name in the form in which a header map keeps it, made of
/// lower-case letters and dashes.
pub open spec fn header_name(s: Seq<char>) -> bool {
    &&& 1 <= s.len() <= 64
    &&& forall|i: int| 0 <= i < s.len() ==> 'a' <= #[trigger] s[i] <= 'z' || s[i] == '-'
}

/// A header map with fewer names than this has room for another, however they hash.
pub const ROOM: usize = 6554;

/// Whether a byte may stand in a header value that is read as text.
pub open spec fn visible(b: u8) -> bool {
    (32 <= b && b < 127) || b == 9
}

/// A header value as text: `None` where a byte of it is no visible ASCII.
pub open spec fn value_text(value: Seq<u8>) -> Option<Seq<char>> {
    if forall|i: int| 0 <= i < value.len() ==> visible(#[trigger] value[i]) {
        Some(value.map_values(|b: u8| b as char))
    } else {
        None
    }
}

/// The first value of a header, as text.
pub open spec fn first_text(h: Map<Seq<char>, Seq<Seq<u8>>>, name: Seq<char>) -> Option<Seq<char>> {
    if h.dom().contains(name) {
        value_text(h[name][0])
    } else {
        None
    }
}

/// Whether a text may be a header value: no byte of it is a control character, but for
/// the tab.
pub open spec fn value_ok(s: Seq<char>) -> bool {
    forall|i: int|
        0 <= i < encode_utf8(s).len() ==> (32 <= #[trigger] encode_utf8(s)[i] && encode_utf8(s)[i]
            != 127) || encode_utf8(s)[i] == 9
}

/// `hyper::HeaderMap::remove`: takes a header out with all of its values. There are
/// then no more headers than before.
#[verifier::external_body]
fn remove_header(h: &mut hyper::HeaderMap<hyper::header::HeaderValue>, name: &str)
    requires
        header_name(name@),
    ensures
        header_values(*final(h)) == header_values(*old(h)).remove(name@),
        header_values(*final(h)).dom().len() <= header_values(*old(h)).dom().len(),
{
    h.remove(name);
}

/// `hyper::HeaderMap::contains_key`: whether a header has a value.
#[verifier::external_body]
fn has_header(h: &hyper::HeaderMap<hyper::header::HeaderValue>, name: &str) -> (r: bool)
    requires
        header_name(name@),
    ensures
        r == header_values(*h).dom().contains(name@),
{
    h.contains_key(name)
}

/// `hyper::HeaderMap::get`, and `to_str` on what it gives: the first value of a header,
/// where it is visible ASCII.
#[verifier::external_body]
fn header_text(h: &hyper::HeaderMap<hyper::header::HeaderValue>, name: &str) -> (r: Option<String>)
    requires
        header_name(name@),
    ensures
        r.deep_view() == first_text(header_values(*h), name@),
{
    h.get(name).and_then(|v| v.to_str().ok()).map(|s| s.to_owned())
}

/// `hyper::HeaderMap::insert` of the value that `hyper::header::HeaderValue::from_str`
/// makes of a text: the header then has that value and no other. What cannot be a
/// header value is not inserted.
#[verifier::external_body]
fn insert_header(
    h: &mut hyper::HeaderMap<hyper::header::HeaderValue>,
    name: &'static str,
    value: &str,
) -> (r: bool)
    requires
        header_name(name@),
        header_values(*old(h)).dom().len() < ROOM,
    ensures
        r == value_ok(value@),
        header_values(*final(h)) == if r {
            header_values(*old(h)).insert(name@, seq![encode_utf8(value@)])
        } else {
            header_values(*old(h))
        },
{
    match hyper::header::HeaderValue::from_str(value) {
        Ok(v) => {
            h.insert(name, v);
            true
        },
        Err(_) => false,
    }
}

/// `hyper::HeaderMap::keys_len`: how many headers there are, each counted once however
/// many values it has.
#[verifier::external_body]
fn header_count(h: &hyper::HeaderMap<hyper::header::HeaderValue>) -> (r: usize)
    ensures
        r == header_values(*h).dom().len(),
{
    h.keys_len()
}

//-- Hop-by-hop headers -----------------------------------------------------------
/// The headers without those that concern one connection only. `Transfer-Encoding` is
/// handled by the HTTP implementation itself, so it is left alone. On an Upgrade
/// exchange, `Connection` and `Upgrade` are preserved: they carry the handshake.
pub open spec fn without_hop_by_hop(
    h: Map<Seq<char>, Seq<Seq<u8>>>,
    is_upgrade: bool,
) -> Map<Seq<char>, Seq<Seq<u8>>> {
    let kept = h.remove("keep-alive"@).remove("proxy-authenticate"@).remove(
        "proxy-authorization"@,
    ).remove("te"@).remove("trailers"@);
    if is_upgrade {
        kept
    } else {
        kept.remove("connection"@).remove("upgrade"@)
    }
}

proof fn lemma_header_names()
    ensures
        header_name("keep-alive"@),
        header_name("proxy-authenticate"@),
        header_name("proxy-authorization"@),
        header_name("te"@),
        header_name("trailers"@),
        header_name("connection"@),
        header_name("upgrade"@),
        header_name(IDENTITY_HEADER@),
        header_name("host"@),
        header_name(ERROR_HEADER@),
{
    reveal_strlit("keep-alive");
    reveal_strlit("proxy-authenticate");
    reveal_strlit("proxy-authorization");
    reveal_strlit("te");
    reveal_strlit("trailers");
    reveal_strlit("connection");
    reveal_strlit("upgrade");
    reveal_strlit("x-wispers-access-user");
    reveal_strlit("host");
    reveal_strlit("x-wispers-access-error");
}

/// Remove HTTP/1 hop-by-hop headers (RFC 7230 §6.1). On an Upgrade exchange,
/// `Connection` and `Upgrade` are preserved.
///
/// To be fully compliant, this should also process the `Connection` header's value to
/// remove the headers it names. De facto, `keep-alive` and `close` are the only headers
/// getting set.
pub fn strip_hop_by_hop_headers(
    headers: &mut hyper::HeaderMap<hyper::header::HeaderValue>,
    is_upgrade: bool,
)
    ensures
        header_values(*final(headers)) == without_hop_by_hop(
            header_values(*old(headers)),
            is_upgrade,
        ),
        header_values(*final(headers)).dom().len() <= header_values(*old(headers)).dom().len(),
{
    proof {
        lemma_header_names();
    }
    remove_header(headers, "keep-alive");
    remove_header(headers, "proxy-authenticate");
    remove_header(headers, "proxy-authorization");
    remove_header(headers, "te");
    remove_header(headers, "trailers");
    if !is_upgrade {
        remove_header(headers, "connection");
        remove_header(headers, "upgrade");
    }
}

//-- Upgrades ---------------------------------------------------------------------
/// An ASCII letter in lower case; any other character as it is.
pub open spec fn lower_char(c: char) -> char {
    if 'A' <= c <= 'Z' {
        ((c as u32) + 32) as char
    } else {
        c
    }
}

/// Whether two texts are the same but for the case of their ASCII letters.
pub open spec fn same_ignoring_case(a: Seq<char>, b: Seq<char>) -> bool {
    &&& a.len() == b.len()
    &&& forall|i: int| 0 <= i < a.len() ==> lower_char(#[trigger] a[i]) == lower_char(b[i])
}

fn to_lower(c: char) -> (r: char)
    ensures
        r == lower_char(c),
{
    if 'A' <= c && c <= 'Z' {
        ((c as u8) + 32) as char
    } else {
        c
    }
}

/// A text with its ASCII letters in lower case.
pub fn lower_text(s: &str) -> (r: String)
    ensures
        r@ == s@.map_values(|c: char| lower_char(c)),
{
    let v = text::chars_of(s);
    let mut out = String::new();
    let mut i: usize = 0;
    while i < v.len()
        invariant
            i <= v@.len(),
            v@ == s@,
            out@ =~= v@.take(i as int).map_values(|c: char| lower_char(c)),
        decreases v@.len() - i,
    {
        out.push(to_lower(v[i]));
        i = i + 1;
    }
    assert(v@.take(v@.len() as int) =~= v@);
    out
}

/// Whether two texts are the same but for the case of their ASCII letters.
pub fn eq_ignore_case(a: &str, b: &str) -> (r: bool)
    ensures
        r == same_ignoring_case(a@, b@),
{
    let x = text::chars_of(a);
    let y = text::chars_of(b);
    if x.len() != y.len() {
        return false;
    }
    let mut i: usize = 0;
    while i < x.len()
        invariant
            i <= x@.len(),
            x@.len() == y@.len(),
            x@ == a@,
            y@ == b@,
            forall|j: int| 0 <= j < i ==> lower_char(#[trigger] a@[j]) == lower_char(b@[j]),
        decreases x@.len() - i,
    {
        if to_lower(x[i]) != to_lower(y[i]) {
            assert(lower_char(a@[i as int]) != lower_char(b@[i as int]));
            return false;
        }
        i = i + 1;
    }
    true
}

/// Whether a comma-separated list holds `token`, in any case.
pub open spec fn lists_token(list: Seq<char>, token: Seq<char>) -> bool {
    exists|i: int|
        0 <= i < text::pieces(list, ',').len() && same_ignoring_case(
            text::trimmed(#[trigger] text::pieces(list, ',')[i]),
            token,
        )
}

/// Whether a `Connection` header lists the `upgrade` token.
pub open spec fn lists_upgrade(h: Map<Seq<char>, Seq<Seq<u8>>>) -> bool {
    match first_text(h, "connection"@) {
        Some(v) => lists_token(v, "upgrade"@),
        None => false,
    }
}

/// Whether headers ask for an upgrade.
pub open spec fn asks_upgrade(h: Map<Seq<char>, Seq<Seq<u8>>>) -> bool {
    h.dom().contains("upgrade"@) && lists_upgrade(h)
}

pub fn connection_lists_upgrade(headers: &hyper::HeaderMap<hyper::header::HeaderValue>) -> (r: bool)
    ensures
        r == lists_upgrade(header_values(*headers)),
{
    proof {
        lemma_header_names();
    }
    match header_text(headers, "connection") {
        None => false,
        Some(v) => {
            let tokens = text::split(v.as_str(), ',');
            let ghost all = text::pieces(v@, ',');
            let mut i: usize = 0;
            while i < tokens.len()
                invariant
                    i <= tokens@.len(),
                    all == text::pieces(v@, ','),
                    tokens.deep_view() == all,
                    first_text(header_values(*headers), "connection"@) == Some(v@),
                    forall|j: int|
                        0 <= j < i ==> !same_ignoring_case(
                            text::trimmed(#[trigger] all[j]),
                            "upgrade"@,
                        ),
                decreases tokens@.len() - i,
            {
                assert(all[i as int] == tokens@[i as int]@);
                if eq_ignore_case(text::trim(tokens[i].as_str()).as_str(), "upgrade") {
                    return true;
                }
                i = i + 1;
            }
            false
        },
    }
}

/// True if this is an HTTP/1.1 Upgrade request (e.g. WebSocket): a `Connection` header
/// listing the `upgrade` token plus an `Upgrade` header naming the target protocol.
pub fn is_upgrade_request(headers: &hyper::HeaderMap<hyper::header::HeaderValue>) -> (r: bool)
    ensures
        r == asks_upgrade(header_values(*headers)),
{
    proof {
        lemma_header_names();
    }
    has_header(headers, "upgrade") && connection_lists_upgrade(headers)
}

/// An upgrade survives the proxy: a request that asks for one still does once its
/// hop-by-hop headers are stripped, and a request that asks for none never does.
pub proof fn upgrades_survive_stripping(h: Map<Seq<char>, Seq<Seq<u8>>>)
    ensures
        asks_upgrade(without_hop_by_hop(h, true)) == asks_upgrade(h),
        !asks_upgrade(without_hop_by_hop(h, false)),
{
    reveal_strlit("keep-alive");
    reveal_strlit("proxy-authenticate");
    reveal_strlit("proxy-authorization");
    reveal_strlit("te");
    reveal_strlit("trailers");
    reveal_strlit("connection");
    reveal_strlit("upgrade");
    assert("keep-alive"@[0] == 'k' && "connection"@[0] == 'c' && "upgrade"@[0] == 'u');
    assert("proxy-authenticate"@[0] == 'p' && "proxy-authorization"@[0] == 'p');
    assert("te"@[0] == 't' && "trailers"@[0] == 't');
}

//-- Identity ---------------------------------------------------------------------
/// Authoritative identity header injected on every forwarded request, naming the guest
/// behind the connection.
pub const IDENTITY_HEADER: &'static str = "x-wispers-access-user";

/// The headers with the identity header as the host sets it: the guest's, where it can
/// be a header value, and nothing that the peer sent.
pub open spec fn with_identity(
    h: Map<Seq<char>, Seq<Seq<u8>>>,
    user_id: Option<Seq<char>>,
) -> Map<Seq<char>, Seq<Seq<u8>>> {
    let stripped = h.remove(IDENTITY_HEADER@);
    match user_id {
        Some(u) if value_ok(u) => stripped.insert(IDENTITY_HEADER@, seq![encode_utf8(u)]),
        _ => stripped,
    }
}

/// Set the identity header from the resolved peer identity. Always strips any incoming
/// value first. Returns whether an identity had to be left out because it cannot be a
/// header value.
pub fn inject_identity(
    headers: &mut hyper::HeaderMap<hyper::header::HeaderValue>,
    user_id: Option<&str>,
) -> (omitted: bool)
    requires
        header_values(*old(headers)).dom().len() < ROOM,
    ensures
        header_values(*final(headers)) == with_identity(
            header_values(*old(headers)),
            user_id.deep_view(),
        ),
        omitted == (user_id is Some && !value_ok(user_id->0@)),
{
    proof {
        lemma_header_names();
    }
    remove_header(headers, IDENTITY_HEADER);
    match user_id {
        Some(u) => !insert_header(headers, IDENTITY_HEADER, u),
        None => false,
    }
}

/// What an app is told of who is asking does not depend on what the peer sent: two
/// requests that differ in the identity header alone are forwarded alike.
pub proof fn identity_is_not_the_peers_to_choose(
    h: Map<Seq<char>, Seq<Seq<u8>>>,
    forged: Seq<Seq<u8>>,
    user_id: Option<Seq<char>>,
)
    ensures
        with_identity(h.insert(IDENTITY_HEADER@, forged), user_id) == with_identity(
            h.remove(IDENTITY_HEADER@),
            user_id,
        ),
        with_identity(h, user_id).dom().contains(IDENTITY_HEADER@) ==> user_id is Some
            && with_identity(h, user_id)[IDENTITY_HEADER@] == seq![encode_utf8(user_id->0)],
{
    assert(h.insert(IDENTITY_HEADER@, forged).remove(IDENTITY_HEADER@) =~= h.remove(
        IDENTITY_HEADER@,
    ).remove(IDENTITY_HEADER@));
}

/// The header a host sets on errors it generated itself, so a 404 from the proxy can be
/// told from one the app sent.
pub const ERROR_HEADER: &'static str = "x-wispers-access-error";

/// Whether a response says that the host no longer has the app: its list is stale.
pub open spec fn says_app_not_found(status: u16, h: Map<Seq<char>, Seq<Seq<u8>>>) -> bool {
    status == 404 && first_text(h, ERROR_HEADER@) == Some("app-not-found"@)
}

/// Whether a response says that the host no longer has the app.
pub fn app_not_found(status: u16, headers: &hyper::HeaderMap<hyper::header::HeaderValue>) -> (r:
    bool)
    ensures
        r == says_app_not_found(status, header_values(*headers)),
{
    proof {
        lemma_header_names();
    }
    status == 404 && match header_text(headers, ERROR_HEADER) {
        Some(v) => text::same_text(v.as_str(), "app-not-found"),
        None => false,
    }
}

/// The `If-None-Match` header.
pub fn if_none_match(headers: &hyper::HeaderMap<hyper::header::HeaderValue>) -> (r: Option<String>)
    ensures
        r.deep_view() == first_text(header_values(*headers), "if-none-match"@),
{
    proof {
        reveal_strlit("if-none-match");
    }
    header_text(headers, "if-none-match")
}

/// The `Host` header.
pub fn host_header(headers: &hyper::HeaderMap<hyper::header::HeaderValue>) -> (r: Option<String>)
    ensures
        r.deep_view() == first_text(header_values(*headers), "host"@),
{
    proof {
        lemma_header_names();
    }
    header_text(headers, "host")
}

/// The `Cookie` header.
pub fn cookie_header(headers: &hyper::HeaderMap<hyper::header::HeaderValue>) -> (r: Option<String>)
    ensures
        r.deep_view() == first_text(header_values(*headers), "cookie"@),
{
    proof {
        reveal_strlit("cookie");
    }
    header_text(headers, "cookie")
}

//-- Statuses ---------------------------------------------------------------------
/// The text that `hyper::StatusCode` has for a status: its number and its name.
pub uninterp spec fn status_text(code: u16) -> Seq<char>;

/// `hyper::StatusCode::from_u16`, and `to_string` on what it gives: a status code's
/// number and name.
#[verifier::external_body]
pub(crate) fn status_line(code: u16) -> (r: String)
    requires
        100 <= code <= 999,
    ensures
        r@ == status_text(code),
{
    hyper::StatusCode::from_u16(code).unwrap_or_default().to_string()
}

//-- Requests and responses -------------------------------------------------------
/// The headers of a request as a guest's proxy sends it on. One stream carries one
/// request, so it is told to close afterwards; an upgrade is exempt, as it holds its
/// stream for the socket's lifetime.
pub open spec fn guest_request(h: Map<Seq<char>, Seq<Seq<u8>>>) -> Map<Seq<char>, Seq<Seq<u8>>> {
    if asks_upgrade(h) {
        without_hop_by_hop(h, true)
    } else {
        without_hop_by_hop(h, false).insert("connection"@, seq![encode_utf8("close"@)])
    }
}

/// Rewrites the headers of a request on its way from the browser to the host. Returns
/// whether it asks for an upgrade.
pub fn rewrite_guest_request(headers: &mut hyper::HeaderMap<hyper::header::HeaderValue>) -> (upgrade:
    bool)
    requires
        header_values(*old(headers)).dom().len() < ROOM,
    ensures
        upgrade == asks_upgrade(header_values(*old(headers))),
        header_values(*final(headers)) == guest_request(header_values(*old(headers))),
{
    let upgrade = is_upgrade_request(headers);
    strip_hop_by_hop_headers(headers, upgrade);
    if !upgrade {
        proof {
            lemma_header_names();
            lemma_close_is_a_value();
        }
        insert_header(headers, "connection", "close");
    }
    upgrade
}

proof fn lemma_close_is_a_value()
    ensures
        value_ok("close"@),
{
    reveal_strlit("close");
    assert(vstd::utf8::is_ascii_chars("close"@));
    vstd::utf8::is_ascii_chars_encode_utf8("close"@);
}

/// Rewrites the headers of a request on its way from the host to the app: the
/// hop-by-hop headers go, and the guest's identity is set. Returns whether it asks for
/// an upgrade.
pub fn rewrite_host_request(
    headers: &mut hyper::HeaderMap<hyper::header::HeaderValue>,
    user_id: Option<&str>,
) -> (upgrade: bool)
    requires
        header_values(*old(headers)).dom().len() < ROOM,
    ensures
        upgrade == asks_upgrade(header_values(*old(headers))),
        header_values(*final(headers)) == with_identity(
            without_hop_by_hop(header_values(*old(headers)), upgrade),
            user_id.deep_view(),
        ),
{
    let upgrade = is_upgrade_request(headers);
    strip_hop_by_hop_headers(headers, upgrade);
    inject_identity(headers, user_id);
    upgrade
}

/// Whether a header map has room for the headers that a proxy sets.
pub fn has_room(headers: &hyper::HeaderMap<hyper::header::HeaderValue>) -> (r: bool)
    ensures
        r == (header_values(*headers).dom().len() < ROOM),
{
    header_count(headers) < ROOM
}

/// Rewrites the headers of a request as [`rewrite_guest_request`] does, where there is
/// room for that; else leaves them as they are and returns nothing.
pub fn try_rewrite_guest_request(
    headers: &mut hyper::HeaderMap<hyper::header::HeaderValue>,
) -> (r: Option<bool>)
    ensures
        r is Some <==> header_values(*old(headers)).dom().len() < ROOM,
        match r {
            Some(upgrade) => upgrade == asks_upgrade(header_values(*old(headers)))
                && header_values(*final(headers)) == guest_request(header_values(*old(headers))),
            None => *final(headers) == *old(headers),
        },
{
    if has_room(headers) {
        Some(rewrite_guest_request(headers))
    } else {
        None
    }
}

/// Rewrites the headers of a request as [`rewrite_host_request`] does, where there is
/// room for that; else leaves them as they are and returns nothing.
pub fn try_rewrite_host_request(
    headers: &mut hyper::HeaderMap<hyper::header::HeaderValue>,
    user_id: Option<&str>,
) -> (r: Option<bool>)
    ensures
        r is Some <==> header_values(*old(headers)).dom().len() < ROOM,
        match r {
            Some(upgrade) => upgrade == asks_upgrade(header_values(*old(headers)))
                && header_values(*final(headers)) == with_identity(
                without_hop_by_hop(header_values(*old(headers)), upgrade),
                user_id.deep_view(),
            ),
            None => *final(headers) == *old(headers),
        },
{
    if has_room(headers) {
        Some(rewrite_host_request(headers, user_id))
    } else {
        None
    }
}

/// What becomes of a response.
#[derive(Clone, Copy, Debug, PartialEq, Eq, Structural)]
pub enum ResponseKind {
    /// The protocol was switched, as the request asked: the two sides are relayed to
    /// one another from here on.
    Relay,
    /// The protocol was switched, but the request did not ask for it.
    Unasked,
    /// Headers and body are passed on.
    Plain,
}

/// Rewrites the headers of a response on its way back, and says what becomes of it. A
/// switched protocol keeps its handshake headers.
pub fn rewrite_response(
    status: u16,
    headers: &mut hyper::HeaderMap<hyper::header::HeaderValue>,
    asked_upgrade: bool,
) -> (r: ResponseKind)
    ensures
        r == (if status != 101 {
            ResponseKind::Plain
        } else if asked_upgrade {
            ResponseKind::Relay
        } else {
            ResponseKind::Unasked
        }),
        header_values(*final(headers)) == without_hop_by_hop(
            header_values(*old(headers)),
            status == 101,
        ),
{
    strip_hop_by_hop_headers(headers, status == 101);
    if status != 101 {
        ResponseKind::Plain
    } else if asked_upgrade {
        ResponseKind::Relay
    } else {
        ResponseKind::Unasked
    }
}

//-- What passes through ----------------------------------------------------------
/// Stripping takes out the headers that concern one connection and no others: each of the
/// rest, cookies and credentials for the app included, is there after exactly where it was
/// before, with the same values. On an upgrade the handshake's two headers are among the
/// rest.
pub proof fn stripping_leaves_all_other_headers(
    h: Map<Seq<char>, Seq<Seq<u8>>>,
    is_upgrade: bool,
    name: Seq<char>,
)
    ensures
        ({
            let connections_own = name == "keep-alive"@ || name == "proxy-authenticate"@ || name
                == "proxy-authorization"@ || name == "te"@ || name == "trailers"@ || (!is_upgrade
                && (name == "connection"@ || name == "upgrade"@));
            if connections_own {
                !without_hop_by_hop(h, is_upgrade).dom().contains(name)
            } else {
                &&& without_hop_by_hop(h, is_upgrade).dom().contains(name) == h.dom().contains(name)
                &&& h.dom().contains(name) ==> without_hop_by_hop(h, is_upgrade)[name] == h[name]
            }
        }),
{
}

/// A guest's proxy sends a request on with every header that it had, but for those that
/// concern one connection; off an upgrade it asks for its own connection to be closed.
pub proof fn guest_requests_keep_their_headers(h: Map<Seq<char>, Seq<Seq<u8>>>, name: Seq<char>)
    ensures
        ({
            let upgrade = asks_upgrade(h);
            let sent = guest_request(h);
            let connections_own = name == "keep-alive"@ || name == "proxy-authenticate"@ || name
                == "proxy-authorization"@ || name == "te"@ || name == "trailers"@ || (!upgrade
                && name == "upgrade"@);
            if !upgrade && name == "connection"@ {
                sent.dom().contains(name) && sent[name] == seq![encode_utf8("close"@)]
            } else if connections_own {
                !sent.dom().contains(name)
            } else {
                &&& sent.dom().contains(name) == h.dom().contains(name)
                &&& h.dom().contains(name) ==> sent[name] == h[name]
            }
        }),
{
    reveal_strlit("keep-alive");
    reveal_strlit("proxy-authenticate");
    reveal_strlit("proxy-authorization");
    reveal_strlit("te");
    reveal_strlit("trailers");
    reveal_strlit("connection");
    reveal_strlit("upgrade");
    assert("keep-alive"@[0] == 'k' && "connection"@[0] == 'c' && "upgrade"@[0] == 'u');
    assert("proxy-authenticate"@[0] == 'p' && "proxy-authorization"@[0] == 'p');
    assert("te"@[0] == 't' && "trailers"@[0] == 't');
}

/// The app sees every header of a guest's request, but for those that concern one
/// connection; and as the guest's identity what the host says, where that can be a header
/// value, and nothing otherwise.
pub proof fn host_requests_keep_their_headers(
    h: Map<Seq<char>, Seq<Seq<u8>>>,
    user_id: Option<Seq<char>>,
    name: Seq<char>,
)
    ensures
        ({
            let upgrade = asks_upgrade(h);
            let sent = with_identity(without_hop_by_hop(h, upgrade), user_id);
            let connections_own = name == "keep-alive"@ || name == "proxy-authenticate"@ || name
                == "proxy-authorization"@ || name == "te"@ || name == "trailers"@ || (!upgrade && (
            name == "connection"@ || name == "upgrade"@));
            if name == "x-wispers-access-user"@ {
                match user_id {
                    Some(user) => if forall|i: int|
                        0 <= i < encode_utf8(user).len() ==> {
                            let b = #[trigger] encode_utf8(user)[i];
                            b == 9 || (b >= 32 && b != 127)
                        } {
                        sent.dom().contains(name) && sent[name] == seq![encode_utf8(user)]
                    } else {
                        !sent.dom().contains(name)
                    },
                    None => !sent.dom().contains(name),
                }
            } else if connections_own {
                !sent.dom().contains(name)
            } else {
                &&& sent.dom().contains(name) == h.dom().contains(name)
                &&& h.dom().contains(name) ==> sent[name] == h[name]
            }
        }),
{
    reveal_strlit("keep-alive");
    reveal_strlit("proxy-authenticate");
    reveal_strlit("proxy-authorization");
    reveal_strlit("te");
    reveal_strlit("trailers");
    reveal_strlit("connection");
    reveal_strlit("upgrade");
    reveal_strlit("x-wispers-access-user");
    assert("keep-alive"@[0] == 'k' && "connection"@[0] == 'c' && "upgrade"@[0] == 'u');
    assert("proxy-authenticate"@[0] == 'p' && "proxy-authorization"@[0] == 'p');
    assert("te"@[0] == 't' && "trailers"@[0] == 't' && "x-wispers-access-user"@[0] == 'x');
}

//-- What headers say -------------------------------------------------------------
/// A list of tokens holds those that stand between its commas, blanks around them aside,
/// whatever the case of their letters: two lists with a comma between them hold what either
/// of them holds, and a single entry holds what it is.
pub proof fn token_lists_hold_their_entries(a: Seq<char>, b: Seq<char>, token: Seq<char>)
    ensures
        lists_token(a + ","@ + b, token) <==> lists_token(a, token) || lists_token(b, token),
        (forall|i: int| 0 <= i < a.len() ==> #[trigger] a[i] != ',') ==> (lists_token(a, token)
            <==> text::trimmed(a).len() == token.len() && forall|i: int|
            0 <= i < token.len() ==> lower_char(#[trigger] text::trimmed(a)[i]) == lower_char(
                token[i],
            )),
{
    reveal_strlit(",");
    text::pieces_follow_one_another(a, b, ',');
    assert(a + ","@ + b =~= a + seq![','] + b);
    let x = text::pieces(a, ',');
    let y = text::pieces(b, ',');
    let all = text::pieces(a + ","@ + b, ',');
    assert(all == x + y);
    if lists_token(a, token) {
        let i = choose|i: int|
            0 <= i < x.len() && same_ignoring_case(text::trimmed(#[trigger] x[i]), token);
        assert(all[i] == x[i]);
    }
    if lists_token(b, token) {
        let i = choose|i: int|
            0 <= i < y.len() && same_ignoring_case(text::trimmed(#[trigger] y[i]), token);
        assert(all[x.len() + i] == y[i]);
    }
    if lists_token(a + ","@ + b, token) {
        let i = choose|i: int|
            0 <= i < all.len() && same_ignoring_case(text::trimmed(#[trigger] all[i]), token);
        if i < x.len() {
            assert(x[i] == all[i]);
        } else {
            assert(y[i - x.len()] == all[i]);
        }
    }
    if forall|i: int| 0 <= i < a.len() ==> #[trigger] a[i] != ',' {
        text::texts_without_separators_are_whole(a, ',');
        assert(x[0] == a);
        if text::trimmed(a).len() == token.len() && forall|i: int|
            0 <= i < token.len() ==> lower_char(#[trigger] text::trimmed(a)[i]) == lower_char(
                token[i],
            ) {
            assert(same_ignoring_case(text::trimmed(x[0]), token));
        }
    }
}

/// The case of a letter is one of twenty-six steps either way; nothing else has one.
pub proof fn letters_have_two_cases(k: u32, c: char)
    ensures
        k < 26 ==> lower_char((65 + k) as char) == (97 + k) as char && lower_char((97 + k) as char)
            == (97 + k) as char,
        !('A' <= c <= 'Z') ==> lower_char(c) == c,
{
}

/// A request asks for an upgrade exactly where it names a protocol and its first `Connection`
/// value lists the token.
pub proof fn upgrades_are_asked_for_by_both_headers(h: Map<Seq<char>, Seq<Seq<u8>>>)
    ensures
        asks_upgrade(h) <==> {
            &&& h.dom().contains("upgrade"@)
            &&& h.dom().contains("connection"@)
            &&& value_text(h["connection"@][0]) matches Some(v) && lists_token(v, "upgrade"@)
        },
{
}

/// Visible ASCII is read from a header value as it was written there.
pub proof fn ascii_values_read_back(s: Seq<char>)
    requires
        forall|i: int| 0 <= i < s.len() ==> ' ' <= #[trigger] s[i] <= '~' || s[i] == '\t',
    ensures
        value_text(encode_utf8(s)) == Some(s),
        value_ok(s),
{
    assert(vstd::utf8::is_ascii_chars(s));
    vstd::utf8::is_ascii_chars_encode_utf8(s);
    let v = encode_utf8(s);
    assert forall|i: int| 0 <= i < v.len() implies visible(#[trigger] v[i]) && v[i] as char
        == s[i] by {
        assert(s[i] as u8 == v[i]);
    }
    assert(v.map_values(|b: u8| b as char) =~= s);
}

/// A host that no longer has the app says so by a 404 with that error in the header's first
/// value; any other response is the app's own.
pub proof fn missing_apps_are_told_by_the_header(status: u16, h: Map<Seq<char>, Seq<Seq<u8>>>)
    ensures
        says_app_not_found(status, h) <==> status == 404 && h.dom().contains(
            "x-wispers-access-error"@,
        ) && value_text(h["x-wispers-access-error"@][0]) == Some("app-not-found"@),
{
}

} // verus!
