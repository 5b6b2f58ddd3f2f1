//! The host's side of the wire protocol, and the guest API.
use wispers_access::server::config::{AppConfig, AppKind, ShareConfig, TransportConfig};
use wispers_access::server::guest_api::{
    delete_guest, get_circle, get_events, get_share, post_activation, refuse_activation, route,
    sse_event, ApiResponse, Route,
};
use wispers_access::server::http::{try_forward, Stage, UpstreamEvent, UpstreamStep};
use wispers_access::server::protocol::{
    data_target, default_target, handle, share_target, target_error, Peer, Prefixed, StreamOutcome,
    StreamTask, Target,
};
use wispers_access::server::quic_io::{QuicStreamIo, ShutdownState, Start, READ_CHUNK};
use wispers_access::server::storage::{NewInvite, StateDb};
use wispers_access::wire::{
    ActivationError, ConfigHash, HttpPreamble, InviteSecret, ShareKind, ACTIVATION_PATH,
    CIRCLE_PATH, EVENTS_PATH, GUEST_PATH, SHARE_PATH,
};

fn config(apps: &[(&str, &str, AppKind, &str)]) -> ShareConfig {
    ShareConfig::parse(ShareConfig {
        name: "Family".to_owned(),
        transport: TransportConfig::default(),
        apps: apps
            .iter()
            .map(|(id, name, kind, upstream)| AppConfig {
                id: (*id).to_owned(),
                name: (*name).to_owned(),
                kind: *kind,
                upstream: (*upstream).to_owned(),
            })
            .collect(),
    })
    .unwrap()
}

fn family() -> ShareConfig {
    config(&[
        ("jf", "Jellyfin", AppKind::Jellyfin, "127.0.0.1:1"),
        ("photos", "", AppKind::Web, ":1"),
    ])
}

fn peer(user_id: Option<&str>) -> Peer {
    Peer {
        peer_id: "peer-x".to_owned(),
        user_id: user_id.map(str::to_owned),
    }
}

/// A raw request from a client that predates the framing goes to the default app, for the
/// guest behind it.
#[test]
fn legacy_request_goes_to_the_default_share_with_identity() {
    assert_eq!(
        handle(Some(b'G'), &family(), &peer(Some("alice"))),
        StreamTask::Legacy {
            first: b'G',
            target: Target::Upstream("127.0.0.1:1".to_owned()),
            user_id: "alice".to_owned(),
        }
    );
}

#[test]
fn data_stream_is_routed_by_share_id() {
    let task = handle(Some(0x00), &family(), &peer(Some("bob")));
    assert_eq!(
        task,
        StreamTask::ReadPreamble {
            user_id: "bob".to_owned()
        }
    );
    assert_eq!(task.outcome(), StreamOutcome::Served);
    let preamble = HttpPreamble {
        share_id: "jf".to_owned(),
    };
    assert_eq!(
        data_target(&family(), &preamble),
        Target::Upstream("127.0.0.1:1".to_owned())
    );
}

#[test]
fn unknown_share_gets_a_typed_404_with_the_config_hash() {
    let cfg = family();
    let target = share_target(&cfg, "gone");
    let error = target_error(&target).unwrap();
    assert_eq!(error.status, 404);
    assert_eq!(error.error, "share-not-found");
    assert_eq!(error.config_hash, Some(ConfigHash(cfg.config_hash())));
    assert!(target_error(&share_target(&cfg, "photos")).is_none());
}

#[test]
fn no_shares_gets_a_503() {
    let empty = config(&[]);
    for target in [default_target(&empty), share_target(&empty, "jf")] {
        let error = target_error(&target).unwrap();
        assert_eq!(error.status, 503);
        assert_eq!(error.error, "no-shares");
        assert_eq!(error.config_hash, None);
    }
}

/// Routes a guest's request without a body, and answers it.
fn exchange(method: &str, path: &str, if_none_match: Option<&str>, cfg: &ShareConfig) -> ApiResponse {
    match route(method, path, &peer(Some("bob"))) {
        Route::GetCircle => get_circle(if_none_match, cfg),
        Route::GetShare => get_share(if_none_match, cfg),
        Route::GetEvents => get_events(),
        Route::Answer(a) => a,
        other => panic!("{other:?} needs the state database"),
    }
}

#[test]
fn get_circle_returns_the_info_with_an_etag() {
    let cfg = family();
    let hash = ConfigHash(cfg.config_hash());
    let r = exchange("GET", CIRCLE_PATH, None, &cfg);
    assert_eq!(r.status, 200);
    assert_eq!(r.content_type, Some("application/json"));
    assert_eq!(r.etag, Some(hash.etag()));
    assert_eq!(r.cache_control, Some("no-cache"));
    let info: serde_json::Value = serde_json::from_str(&r.body).unwrap();
    assert_eq!(info["config_hash"], hash.to_hex());
    assert_eq!(info["name"], "Family");
    assert_eq!(info["transport"], "wispers-connect");
    let shares = info["shares"].as_array().unwrap();
    assert_eq!(shares.len(), 2);
    assert_eq!(shares[0]["id"], "jf");
    assert_eq!(shares[0]["kind"], ShareKind::Jellyfin.as_str());
    assert_eq!(shares[1]["name"], "photos");
    assert_eq!(shares[1]["kind"], ShareKind::Web.as_str());
    // Upstreams never reach a guest.
    assert!(!r.body.contains("127.0.0.1"));
}

#[test]
fn get_circle_is_conditional() {
    let cfg = family();
    let etag = ConfigHash(cfg.config_hash()).etag();
    let r = exchange("GET", CIRCLE_PATH, Some(&etag), &cfg);
    assert_eq!(r.status, 304);
    assert_eq!(r.etag, Some(etag));
    assert!(r.body.is_empty());
}

#[test]
fn shares_are_told_like_circles() {
    let cfg = family();
    let etag = ConfigHash(cfg.config_hash()).etag();
    let r = exchange("GET", SHARE_PATH, None, &cfg);
    assert_eq!((r.status, r.etag.as_ref()), (200, Some(&etag)));
    assert_eq!(r.cache_control, Some("no-cache"));
    let share: serde_json::Value = serde_json::from_str(&r.body).unwrap();
    let circle = exchange("GET", CIRCLE_PATH, None, &cfg);
    let circle: serde_json::Value = serde_json::from_str(&circle.body).unwrap();
    assert_eq!(share["apps"], circle["shares"]);
    assert!(share.get("shares").is_none() && circle.get("apps").is_none());
    let r = exchange("GET", SHARE_PATH, Some(&etag), &cfg);
    assert_eq!((r.status, r.cache_control), (304, Some("no-cache")));
    for path in [SHARE_PATH, CIRCLE_PATH] {
        let r = exchange("GET", path, Some("\"0000000000000000\""), &cfg);
        assert_eq!(r.status, 200);
    }
}

fn answer(r: Route) -> ApiResponse {
    match r {
        Route::Answer(a) => a,
        other => panic!("expected an answer, got {other:?}"),
    }
}

#[test]
fn unknown_routes_and_methods_are_rejected() {
    let cfg = family();
    assert_eq!(exchange("GET", "/v1/nope", None, &cfg).status, 404);
    assert_eq!(exchange("DELETE", CIRCLE_PATH, None, &cfg).status, 405);
}

#[test]
fn requests_are_routed_by_method_and_path() {
    let bob = peer(Some("bob"));
    assert_eq!(answer(route("POST", SHARE_PATH, &bob)).status, 405);
    assert_eq!(answer(route("GET", ACTIVATION_PATH, &bob)).status, 405);
    assert_eq!(
        answer(route("GET", "/v1/nope", &bob)).body,
        "{\"error\":\"no such route\"}"
    );
    assert_eq!(route("GET", SHARE_PATH, &bob), Route::GetShare);
    assert_eq!(route("GET", CIRCLE_PATH, &bob), Route::GetCircle);
    assert_eq!(route("GET", EVENTS_PATH, &bob), Route::GetEvents);
    assert_eq!(route("POST", ACTIVATION_PATH, &bob), Route::PostActivation);
    assert_eq!(route("DELETE", GUEST_PATH, &bob), Route::DeleteGuest);
}

#[test]
fn events_stream_delivers_config_changes() {
    let head = exchange("GET", EVENTS_PATH, None, &family());
    assert_eq!(head.status, 200);
    assert_eq!(head.cache_control, Some("no-cache"));
    assert_eq!(head.content_type, Some("text/event-stream"));
    assert_eq!(head.body, ": connected\n\n");
    let event = sse_event(0xabc);
    assert!(event.contains("event: circle-changed\n"), "{event}");
    assert!(
        event.contains("data: {\"config_hash\":\"0000000000000abc\"}\n"),
        "{event}"
    );
    assert!(event.ends_with("\n\n"));
}

#[test]
fn unknown_type_and_empty_streams_are_closed_quietly() {
    assert_eq!(
        handle(Some(0x7f), &family(), &peer(None)),
        StreamTask::Close(0x7f)
    );
    assert_eq!(handle(None, &family(), &peer(None)), StreamTask::Nothing);
    assert_eq!(StreamTask::Nothing.outcome(), StreamOutcome::Served);
}

#[test]
fn prefixed_reader_replays_then_delegates() {
    let mut p = Prefixed::new(b"hello ".to_vec());
    assert_eq!(p.poll_read(4), Some(b"hell".to_vec()));
    assert_eq!(p.poll_read(4), Some(b"o ".to_vec()));
    assert_eq!(p.poll_read(4), None);
    assert_eq!(p.poll_read(4), None);
}

fn api_error(r: &ApiResponse) -> String {
    let v: serde_json::Value = serde_json::from_str(&r.body).unwrap();
    v["error"].as_str().unwrap().to_owned()
}

#[test]
fn activation_binds_the_handshake_peer_and_answers_with_the_circle() {
    let cfg = config(&[
        ("jf", "Jellyfin", AppKind::Jellyfin, ":1"),
        ("photos", "", AppKind::Web, ":1"),
    ]);
    let mut db = StateDb::open_in_memory();
    let secret = InviteSecret([7; 16]);
    let now = 1_784_548_800;
    db.create_invite(
        NewInvite {
            secret,
            user_id: "alice".to_owned(),
            node_name: "phone".to_owned(),
            expires_at: now + 3600,
        },
        now,
    )
    .unwrap();
    let unbound = Peer {
        peer_id: "peer-a".to_owned(),
        user_id: None,
    };
    assert_eq!(
        route("POST", ACTIVATION_PATH, &unbound),
        Route::PostActivation
    );

    // A wrong secret is refused with the contract's code, and nothing is bound.
    let r = post_activation(&mut db, Some(&InviteSecret([9; 16])), "peer-a", now, &cfg);
    assert_eq!(r.status, 403);
    assert_eq!(api_error(&r), "invite-unknown");
    assert!(db.guest_by_peer("peer-a").is_none());

    // The right one binds the peer the connection authenticated and returns the circle, so
    // the join has nothing left to fetch.
    let r = post_activation(&mut db, Some(&secret), "peer-a", now, &cfg);
    assert_eq!(r.status, 200);
    assert!(r.etag.is_some());
    let info: serde_json::Value = serde_json::from_str(&r.body).unwrap();
    assert_eq!(info["name"], "Family");
    assert_eq!(info["config_hash"], ConfigHash(cfg.config_hash()).to_hex());
    assert_eq!(info["transport"], "wispers-connect");
    assert_eq!(info["shares"].as_array().unwrap().len(), 2);
    assert_eq!(info["apps"], info["shares"]);
    let guest = db.guest_by_peer("peer-a").expect("bound");
    assert_eq!(guest.user_id, "alice");

    // Garbage is malformed, not a database error.
    let r = post_activation(&mut db, None, "peer-a", now, &cfg);
    assert_eq!(r.status, 400);

    // The guest can leave: the host forgets it.
    let bound = Peer {
        peer_id: "peer-a".to_owned(),
        user_id: Some("alice".to_owned()),
    };
    assert_eq!(route("DELETE", GUEST_PATH, &bound), Route::DeleteGuest);
    let r = delete_guest(&mut db, "peer-a");
    assert_eq!(r.status, 204);
    assert!(db.guest_by_peer("peer-a").is_none());

    // Another key presenting the consumed secret is refused; the route itself exists for
    // every peer.
    assert_eq!(
        route("POST", ACTIVATION_PATH, &peer(None)),
        Route::PostActivation
    );
    let r = post_activation(&mut db, Some(&secret), "peer-x", now, &cfg);
    assert_eq!(r.status, 409);
    assert_eq!(api_error(&r), "invite-consumed");
    let r = delete_guest(&mut db, "peer-a");
    assert_eq!((r.status, api_error(&r).as_str()), (404, "no such guest"));
}

#[test]
fn refusals_have_a_status_and_a_name() {
    for (why, status, name) in [
        (ActivationError::Malformed, 400, "malformed"),
        (ActivationError::InviteUnknown, 403, "invite-unknown"),
        (ActivationError::InviteConsumed, 409, "invite-consumed"),
        (ActivationError::InviteExpired, 403, "invite-expired"),
        (ActivationError::AlreadyGuest, 409, "already-guest"),
        (ActivationError::Revoked, 403, "revoked"),
    ] {
        let r = refuse_activation(why);
        assert_eq!((r.status, api_error(&r).as_str()), (status, name));
        assert_eq!(r.cache_control, None);
    }
}

#[test]
fn unbound_peers_get_the_control_plane_only() {
    let unbound = Peer {
        peer_id: "peer-u".to_owned(),
        user_id: None,
    };
    // A CTRL stream is served, but only activation is allowed: nothing about the circle
    // leaks to a key that is not a guest.
    let task = handle(Some(0x01), &family(), &unbound);
    assert_eq!(task, StreamTask::GuestApi);
    assert_eq!(task.outcome(), StreamOutcome::Served);
    let r = answer(route("GET", CIRCLE_PATH, &unbound));
    assert_eq!(r.status, 403);
    assert_eq!(api_error(&r), "not-activated");

    // A DATA stream is refused unread, and so is a legacy raw request.
    for first in [0x00, b'G'] {
        let task = handle(Some(first), &family(), &unbound);
        assert_eq!(task, StreamTask::Refuse);
        assert_eq!(task.outcome(), StreamOutcome::Refused);
    }
}

#[test]
fn upstream_failures_are_answered() {
    let (stage, step) = try_forward(Stage::Connecting, UpstreamEvent::Connected);
    assert!(matches!(step, UpstreamStep::Handshake));
    let (stage, step) = try_forward(stage, UpstreamEvent::HandshakeDone);
    assert!(matches!(step, UpstreamStep::Send));
    let (_, step) = try_forward(
        stage,
        UpstreamEvent::Responded {
            status: 101,
            asked_upgrade: true,
        },
    );
    assert!(matches!(
        step,
        UpstreamStep::PassOn(wispers_access::headers::ResponseKind::Relay)
    ));
    let (stage, step) = try_forward(Stage::Connecting, UpstreamEvent::ConnectFailed);
    assert_eq!(stage, Stage::Answered);
    match step {
        UpstreamStep::Answer(reply) => {
            assert_eq!((reply.status, reply.body.as_str()), (502, "upstream unavailable"))
        }
        _ => panic!("expected an answer"),
    }
}

#[test]
fn polls_start_one_future_at_a_time() {
    let mut io = QuicStreamIo::new();
    assert_eq!(io.poll_read(10), Start::New(10));
    assert_eq!(io.poll_read(20), Start::Pending);
    io.read_done();
    assert_eq!(io.poll_read(1 << 20), Start::New(READ_CHUNK));
    assert_eq!(io.poll_write(7), Start::New(7));
    assert_eq!(io.poll_write(7), Start::Pending);
    io.write_done();
    assert_eq!(io.poll_shutdown(), Some(Start::New(0)));
    assert_eq!(io.poll_shutdown(), Some(Start::Pending));
    io.shutdown_done();
    assert_eq!(io.poll_shutdown(), None);
    assert_eq!(io.shutdown, ShutdownState::Done);
}
