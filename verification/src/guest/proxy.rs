//! The loopback HTTP proxy.
//!
//! The user's browser talks to `http://<app>.<share>.localhost:<port>`, and every request
//! becomes one DATA stream to the share's host.
use crate::guest::store::ShareId;
use crate::guest::transports::{TerminalState, TransportError};
use crate::headers;
use crate::text;
use vstd::prelude::*;

verus! {

//-- Listening --------------------------------------------------------------------
/// How often port `0` is retried when the IPv4 pick is taken on `::1`.
pub const PORT_TRIES: usize = 8;

/// Why an address could not be bound.
#[derive(Clone, Copy, Debug, PartialEq, Eq, Structural)]
pub enum BindError {
    AddrNotAvailable,
    Unsupported,
    Other,
}

/// Whether binding `::1` failed because the machine has no IPv6 loopback, rather than
/// because the port is taken.
pub fn no_ipv6_loopback(e: BindError) -> (r: bool)
    ensures
        r == (e == BindError::AddrNotAvailable || e == BindError::Unsupported),
{
    e == BindError::AddrNotAvailable || e == BindError::Unsupported
}

/// What happened while a port was being bound on both loopback addresses.
#[derive(Clone, Copy, Debug, PartialEq, Eq, Structural)]
pub enum BindEvent {
    /// Nothing yet.
    Start,
    /// The IPv4 address was bound, on this port.
    V4Bound(u16),
    /// The IPv4 address could not be bound.
    V4Failed,
    /// The IPv6 address was bound on the port that IPv4 has.
    V6Bound(u16),
    /// The IPv6 address could not be bound on the port that IPv4 has.
    V6Failed(u16, BindError),
}

/// What is done next about binding a port.
#[derive(Clone, Copy, Debug, PartialEq, Eq, Structural)]
pub enum BindStep {
    /// Bind `127.0.0.1` on the port that was asked for.
    BindV4,
    /// Bind `::1` on this port.
    BindV6(u16),
    /// The port is bound on both addresses.
    Both(u16),
    /// The port is bound on IPv4, which is all that the machine has.
    V4Only(u16),
    /// The address that failed is an error.
    Fail,
    /// No port is free on both addresses after [`PORT_TRIES`] tries.
    GiveUp,
}

/// Takes the binding of a port a step further; `tries` counts the tries so far, the current
/// one included. Port `0` picks a free one.
///
/// A browser may resolve `localhost` to either loopback address, so both are bound. Only a
/// machine without an IPv6 loopback gets IPv4 alone: a port that is taken on one address is
/// an error, or with port `0` another try.
pub fn bind_loopback_port(port: u16, tries: usize, event: BindEvent) -> (r: BindStep)
    ensures
        r == (match event {
            BindEvent::Start => BindStep::BindV4,
            BindEvent::V4Bound(p) => BindStep::BindV6(p),
            BindEvent::V4Failed => BindStep::Fail,
            BindEvent::V6Bound(p) => BindStep::Both(p),
            BindEvent::V6Failed(p, e) => if e == BindError::AddrNotAvailable || e
                == BindError::Unsupported {
                BindStep::V4Only(p)
            } else if port != 0 {
                BindStep::Fail
            } else if tries < PORT_TRIES {
                BindStep::BindV4
            } else {
                BindStep::GiveUp
            },
        }),
{
    match event {
        BindEvent::Start => BindStep::BindV4,
        BindEvent::V4Bound(p) => BindStep::BindV6(p),
        BindEvent::V4Failed => BindStep::Fail,
        BindEvent::V6Bound(p) => BindStep::Both(p),
        BindEvent::V6Failed(p, e) => {
            if no_ipv6_loopback(e) {
                BindStep::V4Only(p)
            } else if port != 0 {
                BindStep::Fail
            } else if tries < PORT_TRIES {
                // The auto-assigned port for IPv4 isn't available on IPv6. Retry.
                BindStep::BindV4
            } else {
                BindStep::GiveUp
            }
        },
    }
}

//-- Routing ----------------------------------------------------------------------
/// How a listener knows which app a request is for.
#[derive(Clone, Debug, PartialEq, Eq)]
pub enum Route {
    /// From the `Host` header: `<app>.<share>.localhost`.
    FromHost,
    /// The listener serves this one app.
    Fixed { share: ShareId, app: String },
}

/// Whether all of a text is ASCII digits.
pub open spec fn all_digits(s: Seq<char>) -> bool {
    forall|i: int| 0 <= i < s.len() ==> '0' <= #[trigger] s[i] <= '9'
}

fn is_all_digits(s: &str) -> (r: bool)
    ensures
        r == all_digits(s@),
{
    let v = text::chars_of(s);
    let mut i: usize = 0;
    while i < v.len()
        invariant
            i <= v@.len(),
            v@ == s@,
            forall|j: int| 0 <= j < i ==> '0' <= #[trigger] s@[j] <= '9',
        decreases v@.len() - i,
    {
        if v[i] < '0' || v[i] > '9' {
            assert(!('0' <= s@[i as int] <= '9'));
            return false;
        }
        i = i + 1;
    }
    true
}

/// A host without its port.
pub open spec fn without_port(host: Seq<char>) -> Seq<char> {
    match text::cut_last(host, ':') {
        Some((h, port)) => if all_digits(port) {
            h
        } else {
            host
        },
        None => host,
    }
}

/// The share and the app that a host names: `<app>.<share>.localhost[:port]`.
pub open spec fn target_of(host: Seq<char>) -> Option<(Seq<char>, Seq<char>)> {
    let labels = text::pieces(without_port(host), '.');
    if labels.len() == 3 && labels[2] == "localhost"@ && labels[0].len() > 0 && labels[1].len() > 0 {
        Some((labels[1], labels[0]))
    } else {
        None
    }
}

/// Why a host names no app.
pub open spec fn unknown_host(host: Seq<char>) -> Seq<char> {
    "unknown host "@ + without_port(host)
        + ": apps are served at http://<app>.<share>.localhost:<port>"@
}

/// `<app>.<share>.localhost[:port]` → (share, app).
pub fn extract_target(host: &str) -> (r: Result<(String, String), String>)
    ensures
        match r {
            Ok((share, app)) => target_of(host@) == Some((share@, app@)),
            Err(e) => target_of(host@) is None && e@ == unknown_host(host@),
        },
{
    let bare = match text::rsplit_once(host, ':') {
        Some((h, port)) => {
            if is_all_digits(port.as_str()) {
                h
            } else {
                text::copied(host)
            }
        },
        None => text::copied(host),
    };
    let labels = text::split(bare.as_str(), '.');
    let ghost all = text::pieces(bare@, '.');
    assert(labels.deep_view() == all);
    assert(labels@.len() == all.len());
    if labels.len() == 3 {
        assert(all[0] == labels@[0]@ && all[1] == labels@[1]@ && all[2] == labels@[2]@);
        if text::same_text(labels[2].as_str(), "localhost") && !labels[0].as_str().is_empty()
            && !labels[1].as_str().is_empty() {
            return Ok((text::copied(labels[1].as_str()), text::copied(labels[0].as_str())));
        }
    }
    let mut out = text::copied("unknown host ");
    out.append(bare.as_str());
    out.append(": apps are served at http://<app>.<share>.localhost:<port>");
    Err(out)
}

/// Extract host from the request: the "authority" of its address, as HTTP/2 has it, or the
/// host header.
pub fn extract_host(
    authority: Option<&str>,
    request: &hyper::HeaderMap<hyper::header::HeaderValue>,
) -> (r: Option<String>)
    ensures
        r.deep_view() == (match authority {
            Some(a) => Some(a@),
            None => headers::first_text(headers::header_values(*request), "host"@),
        }),
{
    match authority {
        Some(a) => Some(text::copied(a)),
        None => headers::host_header(request),
    }
}

//-- Answers ----------------------------------------------------------------------
/// A response that the proxy makes itself, as plain text.
#[derive(Clone, Debug, PartialEq, Eq)]
pub struct Reply {
    pub status: u16,
    pub body: String,
}

pub const REPLY_CONTENT_TYPE: &'static str = "text/plain; charset=utf-8";

impl Reply {
    pub open spec fn says(self, status: u16, body: Seq<char>) -> bool {
        self.status == status && self.body@ == body
    }
}

/// What a dead share is answered with.
pub open spec fn gone_text(state: TerminalState) -> Seq<char> {
    "This app is no longer available on this device — "@ + state.description() + "."@
}

/// Terminal is deliberate, not an outage: 410 tells the reader that retrying won't help,
/// unlike a 502.
pub fn gone(state: TerminalState) -> (r: Reply)
    ensures
        r.says(410, gone_text(state)),
{
    let mut body = text::copied("This app is no longer available on this device — ");
    body.append(state.describe());
    body.append(".");
    Reply { status: 410, body }
}

fn reply(status: u16, msg: &str) -> (r: Reply)
    ensures
        r.says(status, msg@),
{
    Reply { status, body: text::copied(msg) }
}

//-- The required cookie ----------------------------------------------------------
/// A cookie that a proxy may require of every request, so that only the app that started
/// the proxy gets through.
#[derive(Clone, Debug, PartialEq, Eq)]
pub struct RequiredCookie {
    pub name: String,
    pub value: String,
}

/// Whether a `Cookie` header carries a cookie.
pub open spec fn carries(header: Seq<char>, name: Seq<char>, value: Seq<char>) -> bool {
    exists|i: int|
        0 <= i < text::pieces(header, ';').len() && text::trimmed(
            #[trigger] text::pieces(header, ';')[i],
        ) == name + "="@ + value
}

/// Whether a request with those headers is let through.
pub open spec fn lets_through(
    required: Option<RequiredCookie>,
    h: Map<Seq<char>, Seq<Seq<u8>>>,
) -> bool {
    match required {
        None => true,
        Some(cookie) => match headers::first_text(h, "cookie"@) {
            Some(header) => carries(header, cookie.name@, cookie.value@),
            None => false,
        },
    }
}

fn carries_cookie(header: &str, cookie: &RequiredCookie) -> (r: bool)
    ensures
        r == carries(header@, cookie.name@, cookie.value@),
{
    let mut wanted = text::copied(cookie.name.as_str());
    wanted.append("=");
    wanted.append(cookie.value.as_str());
    let pairs = text::split(header, ';');
    let ghost all = text::pieces(header@, ';');
    let mut i: usize = 0;
    while i < pairs.len()
        invariant
            i <= pairs@.len(),
            all == text::pieces(header@, ';'),
            pairs.deep_view() == all,
            wanted@ == cookie.name@ + "="@ + cookie.value@,
            forall|j: int| 0 <= j < i ==> text::trimmed(#[trigger] all[j]) != wanted@,
        decreases pairs@.len() - i,
    {
        assert(all[i as int] == pairs@[i as int]@);
        if text::same_text(text::trim(pairs[i].as_str()).as_str(), wanted.as_str()) {
            return true;
        }
        i = i + 1;
    }
    false
}

/// Lets a request through, or answers it: with a required cookie, requests without it get a
/// 403.
pub fn turn_away(
    required: &Option<RequiredCookie>,
    headers: &hyper::HeaderMap<hyper::header::HeaderValue>,
) -> (r: Option<Reply>)
    ensures
        r is None <==> lets_through(*required, headers::header_values(*headers)),
        r matches Some(reply) ==> reply.says(403, "missing proxy cookie"@),
{
    match required {
        None => None,
        Some(cookie) => {
            let through = match headers::cookie_header(headers) {
                Some(header) => carries_cookie(header.as_str(), cookie),
                None => false,
            };
            if through {
                None
            } else {
                Some(reply(403, "missing proxy cookie"))
            }
        },
    }
}

//-- Forwarding -------------------------------------------------------------------
/// How far a request has come on its way.
#[derive(Clone, Copy, Debug, PartialEq, Eq, Structural)]
pub enum Stage {
    /// Its share is being looked up.
    LookingUp,
    /// A stream to the host is being opened.
    Opening,
    /// HTTP is being set up on the stream.
    Connecting,
    /// The request is sent, and its response awaited.
    Sending,
    /// It is answered.
    Answered,
}

/// A request that is being forwarded: for which app of which share, and how far it has
/// come.
#[derive(Clone, Debug, PartialEq, Eq)]
pub struct Forward {
    pub share: String,
    pub app: String,
    pub stage: Stage,
}

/// What happened on the way of a request to its app.
pub enum ForwardEvent {
    /// The share was looked up, and it is live.
    ShareLive,
    /// The share was looked up, and it is dead.
    ShareDead(TerminalState),
    /// The share was looked up, and there is none of that label.
    ShareUnknown,
    /// The share could not be restored.
    ShareFailed,
    /// A stream to the host was opened.
    StreamOpened,
    /// No stream to the host could be opened.
    StreamFailed(TransportError),
    /// HTTP was set up on the stream.
    Connected,
    /// HTTP could not be set up on the stream.
    HandshakeFailed,
    /// The host answered with that status; whether it says that it no longer has the app,
    /// and whether the request asked for an upgrade.
    Responded { status: u16, app_gone: bool, asked_upgrade: bool },
    /// The request could not be sent, or was not answered.
    SendFailed,
}

/// What is done next with a request.
pub enum ForwardStep {
    /// Open a DATA stream to the host, naming the app.
    OpenStream,
    /// Set up HTTP on the stream.
    Connect,
    /// Rewrite the request and send it.
    Send,
    /// Answer with the proxy's own response.
    Answer(Reply),
    /// Rewrite the host's response and pass it on. `refresh`: the app list is stale, and is
    /// refreshed in the background.
    PassOn { kind: headers::ResponseKind, refresh: bool },
}

/// What a request that cannot reach its host is answered with.
pub const UNAVAILABLE: &'static str = "Wispers Access server unavailable";

/// Which events can happen at a stage.
pub open spec fn expected(stage: Stage, event: ForwardEvent) -> bool {
    match stage {
        Stage::LookingUp => event is ShareLive || event is ShareDead || event is ShareUnknown
            || event is ShareFailed,
        Stage::Opening => event is StreamOpened || event is StreamFailed,
        Stage::Connecting => event is Connected || event is HandshakeFailed,
        Stage::Sending => event is Responded || event is SendFailed,
        Stage::Answered => false,
    }
}

/// The stage that an event leads to.
pub open spec fn stage_after(event: ForwardEvent) -> Stage {
    match event {
        ForwardEvent::ShareLive => Stage::Opening,
        ForwardEvent::StreamOpened => Stage::Connecting,
        ForwardEvent::Connected => Stage::Sending,
        _ => Stage::Answered,
    }
}

/// The stage that a request has come to after the first `n` events.
pub open spec fn stage_at(events: Seq<ForwardEvent>, n: int) -> Stage {
    if n <= 0 {
        Stage::LookingUp
    } else {
        stage_after(events[n - 1])
    }
}

/// Whether the events are those of one request, each expected where it happens.
pub open spec fn one_way(events: Seq<ForwardEvent>) -> bool {
    forall|i: int| 0 <= i < events.len() ==> expected(#[trigger] stage_at(events, i), events[i])
}

/// The place of a stage on the way.
pub open spec fn rank(stage: Stage) -> nat {
    match stage {
        Stage::LookingUp => 0,
        Stage::Opening => 1,
        Stage::Connecting => 2,
        Stage::Sending => 3,
        Stage::Answered => 4,
    }
}

proof fn lemma_one_step(stage: Stage, event: ForwardEvent)
    requires
        expected(stage, event),
    ensures
        rank(stage_after(event)) > rank(stage),
        !(stage_after(event) is Answered) ==> rank(stage_after(event)) == rank(stage) + 1,
{
}

proof fn lemma_rank(events: Seq<ForwardEvent>, n: int)
    requires
        one_way(events),
        0 <= n <= events.len(),
    ensures
        rank(stage_at(events, n)) >= n,
        !(stage_at(events, n) is Answered) ==> rank(stage_at(events, n)) == n,
    decreases n,
{
    if n > 0 {
        lemma_rank(events, n - 1);
        assert(expected(stage_at(events, n - 1), events[n - 1]));
        lemma_one_step(stage_at(events, n - 1), events[n - 1]);
    }
}

/// A request is sent to a host only after its share was found live, a stream was opened and
/// HTTP was set up on it.
pub proof fn requests_are_sent_on_open_streams(events: Seq<ForwardEvent>)
    requires
        one_way(events),
        stage_at(events, events.len() as int) is Sending,
    ensures
        events.len() == 3,
        events[0] is ShareLive,
        events[1] is StreamOpened,
        events[2] is Connected,
{
    lemma_rank(events, events.len() as int);
    assert(stage_after(events[2]) is Sending);
    assert(expected(stage_at(events, 2), events[2]));
    assert(stage_at(events, 2) is Connecting);
    assert(expected(stage_at(events, 1), events[1]));
    assert(stage_at(events, 1) is Opening);
}

/// Every request is answered after at most four events, and nothing follows the answer.
pub proof fn requests_are_answered_once(events: Seq<ForwardEvent>, i: int)
    requires
        one_way(events),
        0 <= i < events.len(),
    ensures
        events.len() <= 4,
        !(stage_at(events, i) is Answered),
{
    lemma_rank(events, events.len() as int);
    assert(expected(stage_at(events, i), events[i]));
}

impl Forward {
    /// Determines the share and the app of a request, by the listener's route and, where
    /// that asks for it, the request's host.
    pub fn start(route: &Route, host: Option<&str>) -> (r: Result<Forward, Reply>)
        ensures
            match *route {
                Route::Fixed { share, app } => r matches Ok(f) && f.share@ == share.0@ && f.app@
                    == app@ && f.stage == Stage::LookingUp,
                Route::FromHost => match host {
                    None => r matches Err(e) && e.says(400, "missing host header"@),
                    Some(h) => match target_of(h@) {
                        Some((share, app)) => r matches Ok(f) && f.share@ == share && f.app@ == app
                            && f.stage == Stage::LookingUp,
                        None => r matches Err(e) && e.says(404, unknown_host(h@)),
                    },
                },
            },
    {
        match route {
            Route::Fixed { share, app } => Ok(
                Forward {
                    share: text::copied(share.as_str()),
                    app: text::copied(app.as_str()),
                    stage: Stage::LookingUp,
                },
            ),
            Route::FromHost => match host {
                None => Err(reply(400, "missing host header")),
                Some(h) => match extract_target(h) {
                    Ok((share, app)) => Ok(Forward { share, app, stage: Stage::LookingUp }),
                    Err(e) => Err(Reply { status: 404, body: e }),
                },
            },
        }
    }

    /// What is done with the request after an event: it takes its way from the lookup over
    /// the stream to the response, and ends at the first failure with an answer that tells a
    /// dead share (410) from an unknown one (404) and from an outage (502).
    pub open spec fn next(self, event: ForwardEvent, step: ForwardStep) -> bool {
        match event {
            ForwardEvent::ShareLive => step is OpenStream,
            ForwardEvent::ShareDead(state) => step matches ForwardStep::Answer(a) && a.says(
                410,
                gone_text(state),
            ),
            ForwardEvent::ShareUnknown => step matches ForwardStep::Answer(a) && a.says(
                404,
                "unknown share '"@ + self.share@ + "'"@,
            ),
            ForwardEvent::ShareFailed => step matches ForwardStep::Answer(a) && a.says(
                502,
                UNAVAILABLE@,
            ),
            ForwardEvent::StreamOpened => step is Connect,
            ForwardEvent::StreamFailed(TransportError::Terminal(state)) => step
                matches ForwardStep::Answer(a) && a.says(410, gone_text(state)),
            ForwardEvent::StreamFailed(TransportError::Transient(_)) => step
                matches ForwardStep::Answer(a) && a.says(502, UNAVAILABLE@),
            ForwardEvent::Connected => step is Send,
            ForwardEvent::HandshakeFailed => step matches ForwardStep::Answer(a) && a.says(
                502,
                UNAVAILABLE@,
            ),
            ForwardEvent::Responded { status, app_gone, asked_upgrade } => step
                == (ForwardStep::PassOn {
                kind: if status != 101 {
                    headers::ResponseKind::Plain
                } else if asked_upgrade {
                    headers::ResponseKind::Relay
                } else {
                    headers::ResponseKind::Unasked
                },
                refresh: status == 404 && app_gone,
            }),
            ForwardEvent::SendFailed => step matches ForwardStep::Answer(a) && a.says(
                502,
                UNAVAILABLE@,
            ),
        }
    }

    /// Takes a request a step further on its way.
    pub fn forward(&mut self, event: ForwardEvent) -> (r: ForwardStep)
        requires
            expected(old(self).stage, event),
        ensures
            old(self).next(event, r),
            final(self).share == old(self).share,
            final(self).app == old(self).app,
            final(self).stage == stage_after(event),
    {
        self.stage = match &event {
            ForwardEvent::ShareLive => Stage::Opening,
            ForwardEvent::StreamOpened => Stage::Connecting,
            ForwardEvent::Connected => Stage::Sending,
            _ => Stage::Answered,
        };
        match event {
            ForwardEvent::ShareLive => ForwardStep::OpenStream,
            ForwardEvent::ShareDead(state) => ForwardStep::Answer(gone(state)),
            ForwardEvent::ShareUnknown => {
                let mut body = text::copied("unknown share '");
                body.append(self.share.as_str());
                body.append("'");
                ForwardStep::Answer(Reply { status: 404, body })
            },
            ForwardEvent::ShareFailed => ForwardStep::Answer(reply(502, UNAVAILABLE)),
            ForwardEvent::StreamOpened => ForwardStep::Connect,
            ForwardEvent::StreamFailed(e) => match e {
                TransportError::Terminal(state) => ForwardStep::Answer(gone(state)),
                TransportError::Transient(_) => ForwardStep::Answer(reply(502, UNAVAILABLE)),
            },
            ForwardEvent::Connected => ForwardStep::Send,
            ForwardEvent::HandshakeFailed => ForwardStep::Answer(reply(502, UNAVAILABLE)),
            ForwardEvent::Responded { status, app_gone, asked_upgrade } => ForwardStep::PassOn {
                kind: if status != 101 {
                    headers::ResponseKind::Plain
                } else if asked_upgrade {
                    headers::ResponseKind::Relay
                } else {
                    headers::ResponseKind::Unasked
                },
                refresh: status == 404 && app_gone,
            },
            ForwardEvent::SendFailed => ForwardStep::Answer(reply(502, UNAVAILABLE)),
        }
    }
}

/// Two hosts name the same app of the same share whatever port they carry.
pub proof fn ports_do_not_matter(host: Seq<char>, port: Seq<char>)
    requires
        all_digits(port),
        text::last_index(host, ':') is None,
    ensures
        without_port(host + seq![':'] + port) == host,
        target_of(host + seq![':'] + port) == target_of(host),
{
    let with = host + seq![':'] + port;
    text::lemma_last_index(with, ':');
    text::lemma_last_index(host, ':');
    assert(with[host.len() as int] == ':');
    assert forall|j: int| host.len() < j < with.len() implies with[j] != ':' by {
        assert(with[j] == port[j - host.len() - 1]);
    }
    let i = text::last_index(with, ':')->0;
    assert(i == host.len());
    assert(with.take(i) =~= host);
    assert(with.skip(i + 1) =~= port);
}

/// The address of an app reaches that app: the proxy reads back the share and the app that
/// it was made of, where neither name holds a dot, as no label and no app ID does.
pub proof fn urls_reach_their_app(app: Seq<char>, share: Seq<char>, port: nat)
    requires
        app.len() > 0,
        share.len() > 0,
        forall|i: int| 0 <= i < app.len() ==> #[trigger] app[i] != '.' && app[i] != ':',
        forall|i: int| 0 <= i < share.len() ==> #[trigger] share[i] != '.' && share[i] != ':',
    ensures
        target_of(app + "."@ + share + ".localhost:"@ + text::decimal(port)) == Some((share, app)),
{
    reveal_strlit(".");
    reveal_strlit("localhost");
    reveal_strlit(".localhost:");
    let host = app + seq!['.'] + share + seq!['.'] + "localhost"@;
    let whole = app + "."@ + share + ".localhost:"@ + text::decimal(port);
    assert(whole =~= host + seq![':'] + text::decimal(port));
    text::lemma_decimal(port);
    text::lemma_last_index(host, ':');
    assert forall|i: int| 0 <= i < host.len() implies host[i] != ':' by {
        if i < app.len() {
            assert(host[i] == app[i]);
        } else if app.len() < i < app.len() + 1 + share.len() {
            assert(host[i] == share[i - app.len() - 1]);
        }
    }
    ports_do_not_matter(host, text::decimal(port));
    let rest = share + seq!['.'] + "localhost"@;
    lemma_first_piece(app, rest, '.');
    assert(host =~= app + seq!['.'] + rest);
    lemma_first_piece(share, "localhost"@, '.');
    text::lemma_first_index("localhost"@, '.');
    assert(text::pieces("localhost"@, '.') =~= seq!["localhost"@]);
    assert(text::pieces(host, '.') =~= seq![app, share, "localhost"@]);
}

proof fn lemma_first_piece(a: Seq<char>, rest: Seq<char>, c: char)
    requires
        forall|i: int| 0 <= i < a.len() ==> #[trigger] a[i] != c,
    ensures
        text::pieces(a + seq![c] + rest, c) == seq![a] + text::pieces(rest, c),
{
    let s = a + seq![c] + rest;
    text::lemma_first_index(s, c);
    assert(s[a.len() as int] == c);
    assert(forall|i: int| 0 <= i < a.len() ==> s[i] == a[i]);
    assert(s.take(a.len() as int) =~= a);
    assert(s.skip(a.len() as int + 1) =~= rest);
}

//-- Connections ------------------------------------------------------------------
/// What an I/O error is, as far as it matters here.
#[derive(Clone, Copy, Debug, PartialEq, Eq, Structural)]
pub enum IoKind {
    ConnectionReset,
    BrokenPipe,
    UnexpectedEof,
    NotConnected,
    Other,
}

/// Whether a connection error just means the other side stopped reading or writing: it
/// closed mid-message, or the transport reported the stream reset or stopped underneath.
/// `causes` lists what the error came from, the nearest first; only the first I/O error
/// among them counts.
pub fn peer_went_away(
    incomplete_message: bool,
    body_write_aborted: bool,
    causes: &Vec<Option<IoKind>>,
) -> (r: bool)
    ensures
        r == (incomplete_message || body_write_aborted || match first_io(causes@, 0) {
            Some(kind) => kind != IoKind::Other,
            None => false,
        }),
{
    if incomplete_message || body_write_aborted {
        return true;
    }
    let mut i: usize = 0;
    while i < causes.len()
        invariant
            i <= causes@.len(),
            !incomplete_message && !body_write_aborted,
            first_io(causes@, 0) == first_io(causes@, i as int),
        decreases causes@.len() - i,
    {
        if let Some(kind) = causes[i] {
            return kind != IoKind::Other;
        }
        i = i + 1;
    }
    false
}

/// The first I/O error among the causes, from the `i`th on.
pub open spec fn first_io(causes: Seq<Option<IoKind>>, i: int) -> Option<IoKind>
    decreases causes.len() - i,
{
    if i >= causes.len() {
        None
    } else {
        match causes[i] {
            Some(kind) => Some(kind),
            None => first_io(causes, i + 1),
        }
    }
}

//-- Which app a request is for, and who may ask ----------------------------------
/// A host that names an app is made up of it: the app, the share and `localhost`, with dots
/// between them, and at most a port in digits behind a colon.
pub proof fn hosts_are_made_of_app_and_share(host: Seq<char>)
    ensures
        target_of(host) matches Some((share, app)) ==> {
            &&& app.len() > 0
            &&& share.len() > 0
            &&& forall|i: int| 0 <= i < app.len() ==> #[trigger] app[i] != '.'
            &&& forall|i: int| 0 <= i < share.len() ==> #[trigger] share[i] != '.'
            &&& host == app + "."@ + share + ".localhost"@ || exists|port: Seq<char>|
                (forall|i: int| 0 <= i < port.len() ==> '0' <= #[trigger] port[i] <= '9') && host
                    == #[trigger] (app + "."@ + share + ".localhost:"@ + port)
        },
{
    let bare = without_port(host);
    text::cuts_are_where_they_should_be(host, ':');
    if let Some((share, app)) = target_of(host) {
        let labels = text::pieces(bare, '.');
        assert(labels =~= seq![app, share, "localhost"@]);
        lemma_three_labels(bare, app, share);
        if bare != host {
            let (h, port) = text::cut_last(host, ':')->0;
            lemma_port_behind(app + "."@ + share, port);
        }
    }
}

proof fn lemma_port_behind(s: Seq<char>, port: Seq<char>)
    ensures
        s + ".localhost"@ + seq![':'] + port == s + ".localhost:"@ + port,
{
    reveal_strlit(".localhost");
    reveal_strlit(".localhost:");
    assert(".localhost"@ + seq![':'] =~= ".localhost:"@);
    assert(s + ".localhost"@ + seq![':'] =~= s + (".localhost"@ + seq![':']));
}

proof fn lemma_three_labels(bare: Seq<char>, app: Seq<char>, share: Seq<char>)
    requires
        text::pieces(bare, '.') == seq![app, share, "localhost"@],
    ensures
        bare == app + "."@ + share + ".localhost"@,
        forall|i: int| 0 <= i < app.len() ==> #[trigger] app[i] != '.',
        forall|i: int| 0 <= i < share.len() ==> #[trigger] share[i] != '.',
{
    reveal_strlit(".");
    reveal_strlit("localhost");
    reveal_strlit(".localhost");
    text::pieces_make_up_the_text(bare, '.');
    let labels = seq![app, share, "localhost"@];
    let sep = seq!['.'];
    assert(labels.drop_last() =~= seq![app, share]);
    assert(seq![app, share].drop_last() =~= seq![app]);
    assert(text::joined(seq![app], sep) == app);
    assert(text::joined(seq![app, share], sep) == app + sep + share);
    assert(text::joined(labels, sep) == app + sep + share + sep + "localhost"@);
    assert("."@ =~= sep);
    assert(sep + "localhost"@ =~= ".localhost"@);
    assert(app + sep + share + sep + "localhost"@ =~= app + sep + share + (sep + "localhost"@));
    assert forall|i: int| 0 <= i < app.len() implies #[trigger] app[i] != '.' by {
        assert(text::pieces(bare, '.')[0][i] != '.');
    }
    assert forall|i: int| 0 <= i < share.len() implies #[trigger] share[i] != '.' by {
        assert(text::pieces(bare, '.')[1][i] != '.');
    }
}

/// An app is reached by its name and that of its share, with no port as with any.
pub proof fn hosts_without_a_port_reach_their_app(app: Seq<char>, share: Seq<char>)
    requires
        app.len() > 0,
        share.len() > 0,
        forall|i: int| 0 <= i < app.len() ==> #[trigger] app[i] != '.' && app[i] != ':',
        forall|i: int| 0 <= i < share.len() ==> #[trigger] share[i] != '.' && share[i] != ':',
    ensures
        target_of(app + "."@ + share + ".localhost"@) == Some((share, app)),
{
    reveal_strlit(".");
    reveal_strlit("localhost");
    reveal_strlit(".localhost");
    let host = app + seq!['.'] + share + seq!['.'] + "localhost"@;
    assert(app + "."@ + share + ".localhost"@ =~= host);
    text::lemma_last_index(host, ':');
    assert forall|i: int| 0 <= i < host.len() implies host[i] != ':' by {
        if i < app.len() {
            assert(host[i] == app[i]);
        } else if app.len() < i < app.len() + 1 + share.len() {
            assert(host[i] == share[i - app.len() - 1]);
        }
    }
    let rest = share + seq!['.'] + "localhost"@;
    lemma_first_piece(app, rest, '.');
    assert(host =~= app + seq!['.'] + rest);
    lemma_first_piece(share, "localhost"@, '.');
    text::texts_without_separators_are_whole("localhost"@, '.');
    assert(text::pieces(host, '.') =~= seq![app, share, "localhost"@]);
}

/// A `Cookie` header carries the cookies that stand between its semicolons, whichever of
/// them it is: two headers with a semicolon between them carry what either of them carries,
/// and a single pair carries itself alone, blanks around it aside.
pub proof fn cookie_headers_carry_their_pairs(
    a: Seq<char>,
    b: Seq<char>,
    name: Seq<char>,
    value: Seq<char>,
)
    ensures
        carries(a + ";"@ + b, name, value) <==> carries(a, name, value) || carries(b, name, value),
        (forall|i: int| 0 <= i < a.len() ==> #[trigger] a[i] != ';') ==> (carries(a, name, value)
            <==> text::trimmed(a) == name + "="@ + value),
{
    reveal_strlit(";");
    text::pieces_follow_one_another(a, b, ';');
    assert(a + ";"@ + b =~= a + seq![';'] + b);
    let wanted = name + "="@ + value;
    let x = text::pieces(a, ';');
    let y = text::pieces(b, ';');
    let all = text::pieces(a + ";"@ + b, ';');
    assert(all == x + y);
    if carries(a, name, value) {
        let i = choose|i: int| 0 <= i < x.len() && text::trimmed(#[trigger] x[i]) == wanted;
        assert(all[i] == x[i]);
    }
    if carries(b, name, value) {
        let i = choose|i: int| 0 <= i < y.len() && text::trimmed(#[trigger] y[i]) == wanted;
        assert(all[x.len() + i] == y[i]);
    }
    if carries(a + ";"@ + b, name, value) {
        let i = choose|i: int| 0 <= i < all.len() && text::trimmed(#[trigger] all[i]) == wanted;
        if i < x.len() {
            assert(x[i] == all[i]);
        } else {
            assert(y[i - x.len()] == all[i]);
        }
    }
    if forall|i: int| 0 <= i < a.len() ==> #[trigger] a[i] != ';' {
        text::texts_without_separators_are_whole(a, ';');
        assert(x[0] == a);
    }
}

/// Where a cookie is required, a request gets through with it and not without; where none
/// is, every request does.
pub proof fn required_cookies_are_required(
    required: Option<RequiredCookie>,
    h: Map<Seq<char>, Seq<Seq<u8>>>,
)
    ensures
        required is None ==> lets_through(required, h),
        required matches Some(cookie) ==> (lets_through(required, h) <==> {
            &&& h.dom().contains("cookie"@)
            &&& headers::value_text(h["cookie"@][0]) matches Some(header) && carries(
                header,
                cookie.name@,
                cookie.value@,
            )
        }),
{
}

/// The proxy's own answers tell a share that is gone for good (410) from one that there is
/// not (404) and from an outage (502); whatever the host answers is passed on, and only a 404
/// that says the app is gone has the list refreshed.
pub proof fn answers_tell_what_went_wrong(f: Forward, event: ForwardEvent, step: ForwardStep)
    requires
        f.next(event, step),
    ensures
        match event {
            ForwardEvent::ShareDead(state) => step matches ForwardStep::Answer(a) && a.status == 410
                && a.body@ == "This app is no longer available on this device — "@
                + state.description() + "."@,
            ForwardEvent::StreamFailed(TransportError::Terminal(state)) => step
                matches ForwardStep::Answer(a) && a.status == 410 && a.body@
                == "This app is no longer available on this device — "@ + state.description() + "."@,
            ForwardEvent::ShareUnknown => step matches ForwardStep::Answer(a) && a.status == 404
                && a.body@ == "unknown share '"@ + f.share@ + "'"@,
            ForwardEvent::ShareFailed
            | ForwardEvent::StreamFailed(_)
            | ForwardEvent::HandshakeFailed
            | ForwardEvent::SendFailed => step matches ForwardStep::Answer(a) && a.status == 502
                && a.body@ == "Wispers Access server unavailable"@,
            ForwardEvent::Responded { status, app_gone, asked_upgrade } => step
                matches ForwardStep::PassOn { kind, refresh } && (refresh <==> status == 404
                && app_gone) && (kind is Plain <==> status != 101) && (kind is Relay <==> status
                == 101 && asked_upgrade),
            ForwardEvent::ShareLive => step is OpenStream,
            ForwardEvent::StreamOpened => step is Connect,
            ForwardEvent::Connected => step is Send,
        },
        step is Answer || step is PassOn <==> stage_after(event) is Answered,
{
}

/// Only the nearest I/O error among the causes counts.
pub proof fn the_nearest_io_error_counts(causes: Seq<Option<IoKind>>, k: int)
    requires
        0 <= k < causes.len(),
        forall|i: int| 0 <= i < k ==> (#[trigger] causes[i]) is None,
    ensures
        causes[k] is Some ==> first_io(causes, 0) == causes[k],
        k == causes.len() - 1 && causes[k] is None ==> first_io(causes, 0) is None,
{
    lemma_first_io(causes, 0, k);
}

proof fn lemma_first_io(causes: Seq<Option<IoKind>>, i: int, k: int)
    requires
        0 <= i <= k < causes.len(),
        forall|j: int| 0 <= j < k ==> (#[trigger] causes[j]) is None,
    ensures
        first_io(causes, i) == first_io(causes, k),
        first_io(causes, k) == if causes[k] is Some {
            causes[k]
        } else {
            first_io(causes, k + 1)
        },
    decreases k - i,
{
    if i < k {
        lemma_first_io(causes, i + 1, k);
    }
}

/// What stands behind the last colon of a host is its port where it is made of digits, and a
/// part of the name otherwise; a host that is not known is told without its port.
pub proof fn only_digits_are_a_port(name: Seq<char>, rest: Seq<char>)
    requires
        forall|i: int| 0 <= i < rest.len() ==> #[trigger] rest[i] != ':',
    ensures
        without_port(name + ":"@ + rest) == if forall|i: int|
            0 <= i < rest.len() ==> '0' <= #[trigger] rest[i] <= '9' {
            name
        } else {
            name + ":"@ + rest
        },
        without_port(rest) == rest,
        unknown_host(rest) == "unknown host "@ + rest
            + ": apps are served at http://<app>.<share>.localhost:<port>"@,
{
    reveal_strlit(":");
    let host = name + ":"@ + rest;
    text::lemma_last_index(host, ':');
    text::lemma_last_index(rest, ':');
    let at = name.len() as int;
    assert(host[at] == ':');
    assert forall|j: int| at < j < host.len() implies host[j] != ':' by {
        assert(host[j] == rest[j - at - 1]);
    }
    assert(host.take(at) =~= name);
    assert(host.skip(at + 1) =~= rest);
}

} // verus!
