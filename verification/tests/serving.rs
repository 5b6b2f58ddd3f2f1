//! A running host.
use wispers_access::clock::Timestamp;
use wispers_access::server::config::{AppConfig, AppKind, ShareConfig, TransportConfig};
use wispers_access::server::ipc::{
    bind, handle_invite, handle_reload, handle_request, handle_revoke, handle_shutdown, handle_status,
    ipc_path, is_password, parse_port_file, write_port_file, BindStep, Request, Response,
    ResponseData, Socket, Task,
};
use wispers_access::server::iroh::{
    activate, guest_peer, guest_status, handle_incoming, invite_row_status, look_up, mint_invite,
    record_invite, report, revoke, revoked_line, unbound_peer, ActivateAction, ActivateEvent,
    Admission, PeerLookup, RevokeStep,
    NO_STATE,
};
use wispers_access::server::protocol::StreamOutcome;
use wispers_access::server::serving::{serve, ExitReason, ServeEvent, ServeStep, ServingHandle};
use wispers_access::server::cli::Asked;
use wispers_access::server::status::{fleet_order, require_share, TransportStatus};
use wispers_access::server::storage::{GuestNode, InviteRow, StateDb};
use wispers_access::server::wcbe::BackendError;
use wispers_access::wire::{CloseCode, ConfigHash, InviteSecret};

fn at(secs: i64) -> Timestamp {
    Timestamp::new(secs, 0).unwrap()
}

fn config(name: &str) -> ShareConfig {
    ShareConfig {
        name: name.to_owned(),
        transport: TransportConfig::Iroh {},
        apps: vec![AppConfig {
            id: "a".to_owned(),
            name: "A".to_owned(),
            kind: AppKind::Web,
            upstream: "localhost:1".to_owned(),
        }],
    }
}

#[test]
fn connections_are_summed_up_per_guest() {
    let mut handle = ServingHandle::new(config("x"), at(0));
    let a = handle.register_connection(3, "carol".to_owned(), at(30), true);
    let b = handle.register_connection(2, "bob".to_owned(), at(20), true);
    let c = handle.register_connection(3, "carol".to_owned(), at(10), false);
    assert_eq!((a, b, c), (0, 1, 2));
    let guests = handle.connected_guests();
    let told: Vec<(i32, &str, i64)> = guests
        .iter()
        .map(|g| (g.number, g.user_id.as_str(), g.connected_since.secs))
        .collect();
    assert_eq!(told, [(2, "bob", 20), (3, "carol", 10)]);

    // Only those that can be closed are, each once.
    assert_eq!(handle.close_connections(Some(3)), [0]);
    let mut all = handle.close_connections(None);
    all.sort();
    assert_eq!(all, [0, 1]);
    assert!(handle.close_connections(Some(1 << 40)).is_empty());

    handle.unregister_connection(a);
    handle.unregister_connection(c);
    assert_eq!(handle.connected_guests().len(), 1);
    // An ID is not given out again.
    assert_eq!(
        handle.register_connection(4, "dave".to_owned(), at(40), true),
        3
    );
}

#[test]
fn reloads_announce_what_guests_see() {
    let mut handle = ServingHandle::new(config("x"), at(0));
    let (outcome, announced) = handle.reload(config("x"));
    assert!(!outcome.changed);
    assert_eq!(announced, None);
    let fresh = config("y");
    let hash = fresh.config_hash();
    let (outcome, announced) = handle.reload(fresh);
    assert!(outcome.changed);
    assert_eq!(outcome.config.name, "y");
    assert_eq!(announced, Some(ConfigHash(hash)));
    assert_eq!(handle.config.name, "y");
}

#[test]
fn status_is_answered() {
    let mut handle = ServingHandle::new(config("x"), at(1_784_548_800));
    handle.register_connection(2, "bob".to_owned(), at(1_784_548_860), true);
    let Response::Success {
        ok: true,
        data: ResponseData::Status(s),
    } = handle_status(&handle, 42)
    else {
        panic!("expected a status");
    };
    assert!(!s.reachable);
    assert_eq!(s.connected_since, None);
    assert_eq!(s.pid, 42);
    assert_eq!(s.started_at, "2026-07-20T12:00:00Z");
    assert_eq!(s.config_hash, handle.config.config_hash());
    assert_eq!(s.apps[0].upstream, "localhost:1");
    let guests = s.connected_guests.unwrap();
    assert_eq!(guests[0].node_number, 2);
    assert_eq!(guests[0].user_id.as_deref(), Some("bob"));
    assert_eq!(
        guests[0].connected_since.as_deref(),
        Some("2026-07-20T12:01:00Z")
    );
    handle.set_reachable(at(1_784_548_801));
    assert!(handle.reachable());
}

#[test]
fn requests_are_dispatched() {
    assert!(matches!(
        handle_request(Ok(Request::Status)),
        (Task::Status, false)
    ));
    assert!(matches!(
        handle_request(Ok(Request::Shutdown)),
        (Task::Stop, true)
    ));
    assert!(matches!(
        handle_request(Ok(Request::RevokeGuest { number: 3 })),
        (Task::Revoke(3), false)
    ));
    assert!(matches!(
        handle_request(Ok(Request::Reload)),
        (Task::Reload, false)
    ));
    let invite = Request::GetInvite {
        node_name: "n".to_owned(),
        user_id: "u".to_owned(),
    };
    assert!(matches!(
        handle_request(Ok(invite)),
        (Task::Invite { node_name, user_id }, false) if node_name == "n" && user_id == "u"
    ));
    assert!(matches!(
        handle_request(Err("bad".to_owned())),
        (Task::Answer(Response::Error { ok: false, error }), false) if error == "bad"
    ));
    assert_eq!(
        handle_shutdown(),
        Response::success(ResponseData::Empty)
    );
    assert_eq!(
        handle_revoke(Err("no".to_owned())),
        Response::error("no".to_owned())
    );
    assert_eq!(handle_revoke(Ok(())), Response::success(ResponseData::Empty));
    assert!(matches!(
        handle_invite(Ok("wax".to_owned())),
        Response::Success { data: ResponseData::Invite(i), .. } if i.code == "wax"
    ));
    assert!(matches!(
        handle_invite(Err(BackendError::Server("x".to_owned()))),
        Response::Error { error, .. } if error == "error generating registration token: x"
    ));
    let mut handle = ServingHandle::new(config("x"), at(0));
    let (outcome, _) = handle.reload(config("y"));
    assert!(matches!(
        handle_reload(Ok(outcome)),
        Response::Success { data: ResponseData::Reload(d), .. } if d.changed && d.apps.len() == 1
    ));
    assert_eq!(
        handle_reload(Err("no".to_owned())),
        Response::error("no".to_owned())
    );
}

#[test]
fn serving_starts_in_order() {
    assert_eq!(serve(ServeEvent::TransportBound), ServeStep::BindIpc);
    assert_eq!(serve(ServeEvent::IpcBound), ServeStep::Run);
    assert_eq!(
        serve(ServeEvent::TransportFailed("x".to_owned())),
        ServeStep::Fail("x".to_owned())
    );
    assert_eq!(
        serve(ServeEvent::IpcFailed("x".to_owned())),
        ServeStep::ShutDownAndFail("x".to_owned())
    );
    assert_eq!(
        serve(ServeEvent::Ended(Ok(ExitReason::Stopped))),
        ServeStep::AwaitReply
    );
    assert_eq!(
        serve(ServeEvent::Ended(Ok(ExitReason::Signal))),
        ServeStep::Exit
    );
    assert_eq!(
        serve(ServeEvent::Ended(Err("x".to_owned()))),
        ServeStep::Fail("x".to_owned())
    );
}

#[test]
fn port_files_round_trip() {
    let text = write_port_file(8080, "s3cret:x");
    assert_eq!(text, "8080:s3cret:x");
    assert_eq!(
        parse_port_file(&format!(" {text}\n")),
        Some((8080, "s3cret:x".to_owned()))
    );
    assert_eq!(parse_port_file("x:y"), None);
    assert_eq!(parse_port_file("8080"), None);
    assert_eq!(
        ipc_path("/home/x", "family"),
        "/home/x/.waserver/sockets/family.sock"
    );
}

fn node(revoked_at: Option<i64>) -> GuestNode {
    GuestNode {
        number: 5,
        peer_id: "peer".to_owned(),
        user_id: "alice".to_owned(),
        display_name: "phone".to_owned(),
        activated_at: 1_784_548_800,
        last_seen_at: Some(0),
        revoked_at,
    }
}

#[test]
fn connections_are_let_in_by_the_state_database() {
    assert!(matches!(
        handle_incoming(PeerLookup::Guest(node(None))),
        Admission::Serve(g) if g.number == 5
    ));
    assert!(matches!(
        handle_incoming(PeerLookup::Guest(node(Some(1)))),
        Admission::Close(CloseCode::Revoked)
    ));
    assert!(matches!(
        handle_incoming(PeerLookup::Nobody),
        Admission::Activate
    ));
    assert!(matches!(
        handle_incoming(PeerLookup::Failed),
        Admission::Close(CloseCode::Closing)
    ));
}

#[test]
fn unknown_keys_may_activate() {
    assert!(matches!(activate(ActivateEvent::Opened), ActivateAction::HandleStream));
    assert!(matches!(activate(ActivateEvent::WentAway), ActivateAction::GiveUp));
    assert!(matches!(activate(ActivateEvent::TimedOut), ActivateAction::Close(CloseCode::Unknown)));
    assert!(matches!(
        activate(ActivateEvent::Handled(Some(StreamOutcome::Refused))),
        ActivateAction::Close(CloseCode::Unknown)
    ));
    assert!(matches!(
        activate(ActivateEvent::Handled(Some(StreamOutcome::Served))),
        ActivateAction::LookUp
    ));
    assert!(matches!(activate(ActivateEvent::Handled(None)), ActivateAction::LookUp));
    assert!(matches!(
        activate(ActivateEvent::LookedUp(PeerLookup::Guest(node(None)))),
        ActivateAction::Serve(_)
    ));
    assert!(matches!(
        activate(ActivateEvent::LookedUp(PeerLookup::Guest(node(Some(1))))),
        ActivateAction::CloseAfterGrace(CloseCode::Unknown)
    ));
    assert!(matches!(
        activate(ActivateEvent::LookedUp(PeerLookup::Nobody)),
        ActivateAction::CloseAfterGrace(CloseCode::Unknown)
    ));
    assert!(matches!(
        activate(ActivateEvent::LookedUp(PeerLookup::Failed)),
        ActivateAction::Close(CloseCode::Closing)
    ));
    let guest = guest_peer(&node(None));
    assert_eq!(guest.user_id.as_deref(), Some("alice"));
    assert!(guest.is_authorized());
    assert!(!unbound_peer("k").is_authorized());
}

#[test]
fn minted_invites_can_be_redeemed_for_a_day() {
    let mut db = StateDb::open_in_memory();
    let secret = mint_invite(&mut db, "phone", "alice", 1_000).unwrap();
    let other = mint_invite(&mut db, "tablet", "bob", 1_000).unwrap();
    assert_ne!(secret.0, other.0);
    assert_eq!(db.invites[0].row.expires_at, 1_000 + 86_400);
    assert!(matches!(look_up(&db, "peer"), PeerLookup::Nobody));
    db.redeem_invite(&secret, "peer", 2_000).unwrap();
    assert!(matches!(
        look_up(&db, "peer"),
        PeerLookup::Guest(g) if g.user_id == "alice" && g.display_name == "phone"
    ));
    assert_eq!(
        record_invite(&mut db, InviteSecret([1; 16]), "n", "u", 0),
        Ok(3)
    );
    assert!(record_invite(&mut db, InviteSecret([1; 16]), "n", "u", 0).is_err());
}

#[test]
fn guests_and_invites_are_reported() {
    let g = guest_status(&node(Some(1_784_548_860)));
    assert_eq!(g.node_number, 5);
    assert_eq!(g.created_at, "2026-07-20T12:00:00Z");
    assert_eq!(g.last_seen_at.as_deref(), Some("1970-01-01T00:00:00Z"));
    assert!(g.revoked);
    assert_eq!(g.revoked_at.as_deref(), Some("2026-07-20T12:01:00Z"));

    let row = |expires_at, consumed_at| InviteRow {
        id: 1,
        user_id: "alice".to_owned(),
        node_name: "phone".to_owned(),
        created_at: 1_784_548_800,
        expires_at,
        consumed_at,
    };
    let now = at(1_784_550_000);
    assert_eq!(invite_row_status(&row(1_784_550_001, None), now).status, "pending");
    assert_eq!(invite_row_status(&row(1_784_550_000, None), now).status, "expired");
    let used = invite_row_status(&row(0, Some(1)), now);
    assert_eq!(used.status, "used");
    assert_eq!(used.used_at.as_deref(), Some("1970-01-01T00:00:01Z"));
    assert_eq!(used.node_name.as_deref(), Some("phone"));
}

#[test]
fn reports_come_from_the_state_database() {
    let now = at(2_000);
    let r = report(None, None, now);
    assert_eq!(r.guests, Err(NO_STATE.to_owned()));
    let mut db = StateDb::open_in_memory();
    let secret = mint_invite(&mut db, "phone", "alice", 1_000).unwrap();
    mint_invite(&mut db, "tablet", "bob", 1_000).unwrap();
    db.redeem_invite(&secret, "peer", 1_500).unwrap();
    let r = report(Some(&db), Some("id".to_owned()), now);
    assert_eq!(r.guests.unwrap()[0].name.as_deref(), Some("phone"));
    let invites = r.invites.unwrap();
    let told: Vec<&str> = invites.iter().map(|i| i.status).collect();
    assert_eq!(told, ["pending", "used"]);
    assert_eq!(
        r.transport,
        Some(TransportStatus::Iroh {
            endpoint_id: Some("id".to_owned())
        })
    );
}

#[test]
fn revoking_closes_a_guests_connections() {
    let mut handle = ServingHandle::new(config("x"), at(0));
    let a = handle.register_connection(5, "alice".to_owned(), at(1), true);
    let b = handle.register_connection(6, "bob".to_owned(), at(1), true);
    let (guest, closing) = handle.revoke_guest(5, Ok(node(Some(1)))).unwrap();
    assert_eq!(guest.number, 5);
    assert_eq!(closing.ids, [a]);
    assert_eq!(closing.code, CloseCode::Revoked);
    assert!(matches!(
        handle.revoke_guest(7, Err("no guest node number 7".to_owned())),
        Err(e) if e == "no guest node number 7"
    ));
    let mut closing = handle.shutdown();
    closing.ids.sort();
    assert_eq!(closing.ids, [a, b]);
    assert_eq!(closing.code, CloseCode::Closing);
    assert_eq!(handle.started_at(), at(0));
    assert_eq!(handle.reachable_since(), None);
    assert_eq!(handle.config().name, "x");
}

#[test]
fn servers_do_not_share_a_socket() {
    assert_eq!(bind(Socket::Nothing), BindStep::Listen);
    assert_eq!(bind(Socket::Stale), BindStep::RemoveAndListen);
    assert_eq!(bind(Socket::Answers), BindStep::AlreadyRunning);
    assert!(is_password("s3cret\r\n", "s3cret"));
    assert!(!is_password("s3cret2", "s3cret"));
}

#[test]
fn guests_are_revoked_through_the_server() {
    assert_eq!(revoke(Asked::NoServer), Ok(RevokeStep::TellDatabase));
    assert_eq!(
        revoke(Asked::Answered(Response::success(ResponseData::Empty))),
        Ok(RevokeStep::Done)
    );
    assert_eq!(
        revoke(Asked::Answered(Response::error("no".to_owned()))),
        Err("no".to_owned())
    );
    assert_eq!(
        revoke(Asked::Failed("x".to_owned())),
        Err("error sending command to server: x".to_owned())
    );
    assert_eq!(revoked_line(3), "Guest 3 is now revoked");
    assert_eq!(
        fleet_order(vec!["b".to_owned(), "a".to_owned()]),
        ["a", "b"]
    );
    assert_eq!(require_share("x", true), Ok(()));
    assert_eq!(
        require_share("x", false),
        Err("Share x is not initialised".to_owned())
    );
}
