//! The guest side.
use wispers_access::guest::cli::{
    describe_apps, describe_state, joined, list, list_lines, print_app_urls, refresh_note,
    report_dead_share, serving_line, RefreshNote,
};
use wispers_access::guest::client::{
    app_port, guest_node, host_routed_url, host_slug, join, leave, per_app_url, record_join,
    refresh, refreshed, restored, secrets_after_join, share, shares, validate_invite, Found,
    Lookup, PortEvent, PortStep, RefreshStart, SdkError,
};
use wispers_access::guest::invite::Invite;
use wispers_access::guest::logging::Line;
use wispers_access::guest::node::{
    self, fetch_info, if_none_match, retries, store_news, terminal_from_node_err,
    terminal_from_p2p_err, Answer, GuestNode, P2pFailure, RefreshError,
};
use wispers_access::guest::proxy::{
    bind_loopback_port, extract_host, extract_target, peer_went_away, turn_away, BindError, BindEvent,
    BindStep, Forward, ForwardEvent, ForwardStep, IoKind, RequiredCookie, Route, PORT_TRIES,
};
use wispers_access::guest::circle_store;
use wispers_access::guest::circles::{self, Circle, CircleRegistry};
use wispers_access::guest::secrets::{
    load_iroh_key, FileSecretStore, NodeSecrets, SecretStoreError,
};
use wispers_access::guest::store::{
    parse_or_web, Row, Share, ShareId, ShareState, StoreError, DB,
};
use wispers_access::guest::transports::{
    connect_attempt, iroh_attempt, join_step, terminal_from_close, ConnectAttempt, IrohAttempt,
    JoinEvent, JoinStep, Slot, TerminalState, Transport, TransportError,
};
use wispers_access::headers::ResponseKind;
use wispers_access::server::cli::{compose_iroh_code, compose_wax_code};
use wispers_access::server::storage::NodeState;
use wispers_access::wire::{
    AppKind, CircleInfo, CloseCode, ConfigHash, EndpointId, InviteSecret, Share as App, ShareInfo,
    ShareKind,
};

#[test]
fn targets_are_app_dot_share() {
    assert_eq!(
        extract_target("echo.round-trip.localhost:8000").unwrap(),
        ("round-trip".to_owned(), "echo".to_owned())
    );
    assert_eq!(
        extract_target("echo.round-trip.localhost").unwrap(),
        ("round-trip".to_owned(), "echo".to_owned())
    );
    // One label is not enough, and neither is a foreign host.
    assert!(extract_target("round-trip.localhost:8000").is_err());
    assert!(extract_target("localhost:8000").is_err());
    assert!(extract_target("echo.round-trip.example.com").is_err());
    assert!(extract_target(".round-trip.localhost").is_err());
    assert!(extract_target("a.b.c.localhost").is_err());
}

#[test]
fn unknown_hosts_say_where_apps_are() {
    assert_eq!(
        extract_target("x.example:80").unwrap_err(),
        "unknown host x.example: apps are served at http://<app>.<share>.localhost:<port>"
    );
    // What follows the colon is no port.
    assert!(extract_target("a.b.localhost:x").is_err());
    assert!(extract_target("a.b.localhost:").is_ok());
}

#[test]
fn a_line_puts_the_message_first() {
    let mut line = Line::default();
    line.fields.push("share=rt".to_owned());
    line.message = "connecting".to_owned();
    assert_eq!(line.render(), "connecting share=rt");
    assert_eq!(Line::default().render(), "");
}

#[test]
fn lines_record_their_fields() {
    let mut line = Line::default();
    line.record("share", "rt");
    line.record("message", "connecting");
    line.record("n", "1");
    assert_eq!(line.render(), "connecting share=rt n=1");
    let mut bare = Line::default();
    bare.record("a", "b");
    assert_eq!(bare.render(), "a=b");
}

#[test]
fn labels_are_dns_safe() {
    assert_eq!(host_slug("Bob's Apps").as_deref(), Some("bobs-apps"));
    assert_eq!(host_slug("!!!"), None);
    assert_eq!(host_slug(&"a".repeat(70)).unwrap().len(), 63);
}

#[test]
fn labels_do_not_end_in_a_dash() {
    let name = format!("{} b", "a".repeat(62));
    assert_eq!(host_slug(&name).unwrap(), "a".repeat(62));
    assert_eq!(host_slug("Æúű’s--cool?").as_deref(), Some("aeuus-cool"));
}

fn app(id: &str, name: &str, kind: ShareKind) -> App {
    App {
        id: id.to_owned(),
        name: name.to_owned(),
        kind,
    }
}

fn new_row(db: &mut DB) -> Row {
    db.new_row(ShareId::mint(), 1_000).unwrap()
}

#[test]
fn share_info_round_trips_and_replaces() {
    let mut db = DB::in_memory();
    let row = new_row(&mut db);
    assert!(row.read_share_config_hash(&db).unwrap().is_none());
    assert!(row.read_apps(&db).is_empty());

    let info = ShareInfo {
        config_hash: ConfigHash(7),
        name: "Family".into(),
        transport: "wispers-connect".into(),
        apps: vec![
            app("jf", "Jellyfin", AppKind::Jellyfin),
            app("photos", "Photos", AppKind::Web),
        ],
    };
    row.write_share_info(&mut db, &info).unwrap();
    assert_eq!(
        row.read_share_config_hash(&db).unwrap(),
        Some(ConfigHash(7))
    );
    assert_eq!(row.read_apps(&db), info.apps);
    assert_eq!(row.read_names(&db).unwrap().1, "Family");

    // A later fetch replaces the list wholesale, order included.
    let later = ShareInfo {
        config_hash: ConfigHash(8),
        apps: vec![info.apps[1].clone()],
        ..info
    };
    row.write_share_info(&mut db, &later).unwrap();
    assert_eq!(
        row.read_share_config_hash(&db).unwrap(),
        Some(ConfigHash(8))
    );
    assert_eq!(row.read_apps(&db), later.apps);

    // Deleting the share takes its apps with it.
    row.write_deduped_hostname(&mut db, "family").unwrap();
    row.mark_complete(&mut db);
    assert!(db.find_row("family").is_some());
    row.delete_row(&mut db);
    assert!(db.find_row("family").is_none());
    let orphans: usize = db.shares.iter().map(|s| s.apps.len()).sum();
    assert_eq!(orphans, 0);
}

#[test]
fn circle_info_round_trips_and_replaces() {
    let mut db = circle_store::DB::in_memory();
    let row = db.new_row(1_000).unwrap();
    assert!(row.read_circle_config_hash(&db).unwrap().is_none());
    assert!(row.read_shares(&db).is_empty());

    let info = CircleInfo {
        config_hash: ConfigHash(7),
        name: "Family".into(),
        transport: "wispers-connect".into(),
        shares: vec![
            app("jf", "Jellyfin", ShareKind::Jellyfin),
            app("photos", "Photos", ShareKind::Web),
        ],
    };
    row.write_circle_info(&mut db, &info).unwrap();
    assert_eq!(
        row.read_circle_config_hash(&db).unwrap(),
        Some(ConfigHash(7))
    );
    assert_eq!(row.read_shares(&db), info.shares);
    assert_eq!(row.read_names(&db).unwrap().1, "Family");

    // A later fetch replaces the list wholesale, order included.
    let later = CircleInfo {
        config_hash: ConfigHash(8),
        shares: vec![info.shares[1].clone()],
        ..info
    };
    row.write_circle_info(&mut db, &later).unwrap();
    assert_eq!(
        row.read_circle_config_hash(&db).unwrap(),
        Some(ConfigHash(8))
    );
    assert_eq!(row.read_shares(&db), later.shares);

    // Deleting the circle takes its shares with it.
    row.write_deduped_hostname(&mut db, "family", "cg").unwrap();
    row.mark_complete(&mut db);
    assert!(db.find_row("family").is_some());
    row.delete_row(&mut db);
    assert!(db.find_row("family").is_none());
    let orphans: usize = db.circles.iter().map(|c| c.shares.len()).sum();
    assert_eq!(orphans, 0);
}

#[test]
fn circles_keep_what_is_written() {
    let mut db = circle_store::DB::in_memory();
    let row = db.new_row(1_000).unwrap();
    let other = db.new_row(1_000).unwrap();
    row.write_connectivity_group_id(&mut db, "cg-1");
    row.write_display_name(&mut db, "Family");
    row.write_backend(&mut db, Some("https://h".to_owned()));
    assert_eq!(row.read_backend(&db), Some(Some("https://h".to_owned())));
    let long = "x".repeat(63);
    assert_eq!(other.write_deduped_hostname(&mut db, &long, "cg-2"), Ok(long.clone()));
    assert_eq!(
        row.write_deduped_hostname(&mut db, &long, "cg-1"),
        Ok("cg-1".to_owned())
    );
    assert_eq!(
        row.read_names(&db),
        Some(("cg-1".to_owned(), "Family".to_owned(), "cg-1".to_owned()))
    );
    // Lookup by connectivity group id, once the row is complete.
    assert!(db.find_row("cg-1").is_none());
    row.mark_complete(&mut db);
    assert_eq!(db.find_row("cg-1"), Some(row));
    assert_eq!(db.get_all_rows(), [row]);
    row.write_terminal_state(&mut db, "removed");
    assert_eq!(row.read_terminal_state(&db), Some(Some("removed".to_owned())));
    db.clean_up_incomplete_rows();
    assert_eq!(db.circles.len(), 1);
    assert_eq!(other.read_names(&db), None);
    // With the row gone there is nothing to write, and no one to dispute the name.
    for (hostname, label) in [("cg-1", "cg-1"), ("x", "x"), (&"x".repeat(64), "y")] {
        assert_eq!(
            other.write_deduped_hostname(&mut db, hostname, "y"),
            Ok(label.to_owned())
        );
    }
    assert_eq!(db.circles.len(), 1);
    assert_eq!(db.circles[0].hostname.as_deref(), Some("cg-1"));
}

#[test]
fn circles_keep_their_nodes_state() {
    let mut db = circle_store::DB::in_memory();
    let row = db.new_row(1_000).unwrap();
    assert_eq!(row.load(&db), Ok(None));
    let state = NodeState {
        root_key: [9; 32],
        registration: Some(vec![1]),
    };
    assert_eq!(row.save(&mut db, state.clone()), Ok(()));
    assert_eq!(row.load(&db), Ok(Some(state.clone())));
    db.circles[0].root_key = Some(vec![1]);
    assert_eq!(row.load(&db), Err(circle_store::StoreError::InvalidRootKey));
    row.delete(&mut db);
    assert_eq!(row.load(&db), Ok(None));
    row.delete_row(&mut db);
    assert_eq!(row.load(&db), Err(circle_store::StoreError::NoSuchRow));
    assert_eq!(
        row.save(&mut db, state),
        Err(circle_store::StoreError::NoSuchRow)
    );
}

#[test]
fn circles_refresh_until_they_die() {
    let mut db = circle_store::DB::in_memory();
    let row = db.new_row(1_000).unwrap();
    let mut circle = Circle::new(
        "family".to_owned(),
        "cg".to_owned(),
        "Family".to_owned(),
        row,
        "node 1".to_owned(),
    );
    assert_eq!(circle.known(&db), Ok(None));
    assert_eq!(circle.refresh(&mut db, None), Ok(None));
    let news = CircleInfo {
        config_hash: ConfigHash(7),
        name: "Family".into(),
        transport: "wispers-connect".into(),
        shares: vec![app("jf", "Jellyfin", ShareKind::Jellyfin)],
    };
    assert_eq!(
        circle.refresh(&mut db, Some(news.clone())),
        Ok(Some(news.clone()))
    );
    assert_eq!(circle.known(&db), Ok(Some(ConfigHash(7))));
    assert_eq!(circle.shares(&db), news.shares);
    let twice = CircleInfo {
        shares: vec![news.shares[0].clone(), news.shares[0].clone()],
        ..news
    };
    assert_eq!(
        circle.refresh(&mut db, Some(twice)),
        Err(circle_store::StoreError::DuplicateShare)
    );
    assert_eq!(circle.refusal(), None);
    assert_eq!(circle.opened(&mut db, &Ok(())), None);
    assert_eq!(
        circle
            .opened(&mut db, &Err(TransportError::Terminal(TerminalState::Removed)))
            .as_deref(),
        Some(
            "[family] circle is no longer available — the circle was removed on the server side"
        )
    );
    assert_eq!(
        circle.refusal(),
        Some(TransportError::Terminal(TerminalState::Removed))
    );
    assert_eq!(row.read_terminal_state(&db), Some(Some("removed".to_owned())));
    // With its row gone, whatever the host says has no place.
    row.delete_row(&mut db);
    let gone = circle_store::StoreError::NoSuchRow;
    assert_eq!(circle.known(&db), Err(gone));
    assert_eq!(circle.refresh(&mut db, None), Err(gone));
    let bare = CircleInfo {
        config_hash: ConfigHash(8),
        name: "Family".into(),
        transport: "wispers-connect".into(),
        shares: vec![],
    };
    assert_eq!(circle.refresh(&mut db, Some(bare)), Err(gone));
    assert!(db.circles.is_empty());
}

#[test]
fn answers_about_circles() {
    assert_eq!(circles::fetch_info(304), Ok(Answer::Unchanged));
    assert_eq!(circles::fetch_info(200), Ok(Answer::ReadShare));
    assert_eq!(
        circles::fetch_info(500),
        Err("server answered 500 Internal Server Error to GET /v1/circle".to_owned())
    );
    assert_eq!(circles::activate(200, None), Ok(()));
    assert_eq!(
        circles::activate(409, Some("revoked".to_owned())),
        Err("activation refused: revoked".to_owned())
    );
    assert_eq!(
        circles::activate(404, None),
        Err("server answered 404 Not Found to the activation".to_owned())
    );
    assert_eq!(circles::leave(204), Ok(()));
    assert_eq!(
        circles::leave(200),
        Err("server answered 200 OK to DELETE /v1/guest".to_owned())
    );
}

#[test]
fn stores_are_read_back_from_their_rows() {
    let mut db = DB::in_memory();
    let (row, share) = joined_share(&mut db, "rt");
    row.write_app_port(&mut db, "echo", 1).unwrap();
    let last_id = db.last_id;
    let again = DB::from_rows(db.shares, last_id).unwrap();
    assert_eq!(row.read_share(&again), Some(share));
    // An ID that was never given out.
    assert!(DB::from_rows(again.shares, 0).is_none());

    let mut db = circle_store::DB::in_memory();
    db.new_row(1).unwrap();
    db.new_row(2).unwrap();
    for circle in &mut db.circles {
        circle.hostname = Some("same".to_owned());
    }
    assert!(circle_store::DB::from_rows(db.circles, 2).is_none());
}

#[test]
fn storage_hostnames_dedupe() {
    let mut db = DB::in_memory();
    let a = new_row(&mut db);
    let b = new_row(&mut db);
    assert_ne!(a.share_id(&db).unwrap(), b.share_id(&db).unwrap());
    assert_eq!(a.write_deduped_hostname(&mut db, "family").unwrap(), "family");
    assert_eq!(b.write_deduped_hostname(&mut db, "family").unwrap(), "family-2");
    // Lookup by share id, once the row is complete.
    let id = a.share_id(&db).unwrap();
    assert!(db.find_row(id.as_str()).is_none());
    a.mark_complete(&mut db);
    assert!(db.find_row(id.as_str()).is_some());
}

#[test]
fn long_labels_fall_back_to_the_share_id() {
    let mut db = DB::in_memory();
    let a = new_row(&mut db);
    let b = new_row(&mut db);
    let c = new_row(&mut db);
    let long = "x".repeat(63);
    assert_eq!(a.write_deduped_hostname(&mut db, &long).unwrap(), long);
    // `-2` would be one too many.
    let id = b.share_id(&db).unwrap();
    assert_eq!(b.write_deduped_hostname(&mut db, &long).unwrap(), id.as_str());
    // A row keeps the label it has.
    assert_eq!(a.write_deduped_hostname(&mut db, &long).unwrap(), long);
    // Somebody else has the label that is left.
    let own = c.share_id(&db).unwrap();
    a.write_deduped_hostname(&mut db, own.as_str()).unwrap();
    b.write_deduped_hostname(&mut db, &long).unwrap();
    assert_eq!(
        c.write_deduped_hostname(&mut db, &long),
        Err(StoreError::LabelTaken)
    );
}

#[test]
fn rows_of_failed_joins_are_swept() {
    let mut db = DB::in_memory();
    let a = new_row(&mut db);
    let b = new_row(&mut db);
    let c = new_row(&mut db);
    b.mark_complete(&mut db);
    assert_eq!(db.get_all_rows(), [b]);
    db.clean_up_incomplete_rows();
    assert_eq!(db.shares.len(), 1);
    assert!(a.share_id(&db).is_none());
    assert!(c.read_share(&db).is_none());
    // An ID is not given out again.
    assert_eq!(new_row(&mut db).id, 4);
    let taken = b.share_id(&db).unwrap();
    assert_eq!(db.new_row(taken, 0), Err(StoreError::ShareIdTaken));
}

#[test]
fn rows_keep_what_is_written() {
    let mut db = DB::in_memory();
    let row = new_row(&mut db);
    row.write_display_name(&mut db, "Family");
    row.write_wispers_connect_backend(&mut db, Some("https://h".to_owned()));
    assert_eq!(
        row.read_wispers_connect_backend(&db),
        Some(Some("https://h".to_owned()))
    );
    assert_eq!(row.read_transport_kind(&db), Some(Transport::WispersConnect));
    row.write_iroh_endpoint_id(&mut db, "abcd");
    assert_eq!(row.read_transport_kind(&db), Some(Transport::Iroh));
    assert_eq!(row.read_iroh_endpoint_id(&db), Some(Some("abcd".to_owned())));
    row.write_terminal_state(&mut db, "revoked");
    assert_eq!(row.read_terminal_state(&db), Some(Some("revoked".to_owned())));
    let share = row.read_share(&db).unwrap();
    assert_eq!(share.state, ShareState::Revoked);
    assert_eq!(share.joined_at, 1_000);
    assert_eq!(row.read_joined_at(&db), Some(1_000));
    assert_eq!(share.label, "");
    // A state that this build does not know does not end a share.
    row.write_terminal_state(&mut db, "gone");
    assert_eq!(row.read_share(&db).unwrap().state, ShareState::Live);
    let nowhere = Row { id: 99 };
    nowhere.write_display_name(&mut db, "x");
    assert_eq!(nowhere.read_names(&db), None);
    assert_eq!(
        nowhere.write_app_port(&mut db, "a", 1),
        Err(StoreError::Orphan)
    );
    let apps = vec![app("a", "A", ShareKind::Web)];
    assert_eq!(
        store_news(&mut db, &nowhere, &info("x", apps)),
        Err(StoreError::Orphan)
    );
    assert_eq!(
        store_news(&mut db, &nowhere, &info("x", vec![])),
        Err(StoreError::NoSuchRow)
    );
    assert_eq!(parse_or_web("immich"), AppKind::Immich);
    assert_eq!(parse_or_web("plex"), AppKind::Web);
}

fn info(name: &str, apps: Vec<App>) -> ShareInfo {
    ShareInfo {
        config_hash: ConfigHash(1),
        name: name.to_owned(),
        transport: "iroh".to_owned(),
        apps,
    }
}

fn joined_share(db: &mut DB, name: &str) -> (Row, Share) {
    let row = new_row(db);
    let share = join(db, &row, Ok(info(name, vec![app("echo", "Echo", AppKind::Web)]))).unwrap();
    (row, share)
}

#[test]
fn joins_are_recorded() {
    let mut db = DB::in_memory();
    let (_, first) = joined_share(&mut db, "Bob's Apps");
    assert_eq!(first.name, "Bob's Apps");
    assert_eq!(first.label, "bobs-apps");
    let (_, second) = joined_share(&mut db, "Bobs apps!");
    assert_eq!(second.label, "bobs-apps-2");
    // A share without a name goes by its ID.
    let (_, third) = joined_share(&mut db, "");
    assert_eq!(third.name, third.id.as_str());
    assert_eq!(third.label, third.id.as_str());
    assert_eq!(shares(&db).len(), 3);
    assert_eq!(share(&db, "bobs-apps-2").unwrap().id, second.id);
    assert_eq!(share(&db, second.id.as_str()).unwrap().id, second.id);
    assert!(share(&db, "nope").is_none());
}

#[test]
fn failed_joins_leave_nothing_behind() {
    let mut db = DB::in_memory();
    let row = new_row(&mut db);
    assert_eq!(
        join(&mut db, &row, Err("refused".to_owned())),
        Err(SdkError::HostNode("refused".to_owned()))
    );
    assert!(db.shares.is_empty());
    let row = new_row(&mut db);
    let twice = vec![app("a", "A", AppKind::Web), app("a", "B", AppKind::Web)];
    assert!(matches!(
        join(&mut db, &row, Ok(info("x", twice))),
        Err(SdkError::Storage(_))
    ));
    assert!(db.shares.is_empty());
}

#[test]
fn guest_nodes_are_looked_up() {
    let mut db = DB::in_memory();
    let (row, first) = joined_share(&mut db, "rt");
    assert!(matches!(guest_node(&db, "nope"), Found::Unknown));
    assert!(matches!(
        guest_node(&db, "rt"),
        Found::Known { row: r, share_id, label } if r == row && share_id == first.id && label == "rt"
    ));
    assert_eq!(restored(&mut db, &row, Ok(())), Ok((Lookup::Live, None)));
    assert_eq!(
        restored(
            &mut db,
            &row,
            Err(TransportError::Transient("down".to_owned()))
        ),
        Err(SdkError::HostNode("down".to_owned()))
    );
    let told = restored(
        &mut db,
        &row,
        Err(TransportError::Terminal(TerminalState::Removed)),
    )
    .unwrap();
    assert_eq!(told.0, Lookup::Dead(TerminalState::Removed));
    assert_eq!(told.1.unwrap().state, ShareState::Removed);
    // From then on the share is dead without dialling again.
    assert!(matches!(
        guest_node(&db, "rt"),
        Found::Dead(TerminalState::Removed)
    ));
    assert_eq!(refresh(&db, &first.id), RefreshStart::Nothing);
}

#[test]
fn refreshes_tell_what_changed() {
    let mut db = DB::in_memory();
    let (row, first) = joined_share(&mut db, "rt");
    let RefreshStart::Ask(before) = refresh(&db, &first.id) else {
        panic!("expected to ask");
    };
    assert_eq!(before, first);
    let again = row.read_share(&db).unwrap();
    assert_eq!(refreshed(&before, Ok(false), again), Ok(None));
    let again = row.read_share(&db).unwrap();
    assert_eq!(refreshed(&before, Ok(true), again), Ok(None));
    let news = store_news(&mut db, &row, &info("rt", vec![])).unwrap();
    assert!(news.apps.is_empty());
    let after = row.read_share(&db).unwrap();
    assert!(refreshed(&before, Ok(true), after).unwrap().unwrap().apps.is_empty());
    let after = row.read_share(&db).unwrap();
    assert_eq!(
        refreshed(
            &before,
            Err(RefreshError::Transient("down".to_owned())),
            after
        ),
        Err(SdkError::HostNode("down".to_owned()))
    );
    let mut node = GuestNode::new("rt".to_owned(), row);
    let told = node.opened(&mut db, &Err(TransportError::Terminal(TerminalState::Revoked)));
    assert_eq!(told.unwrap().state, ShareState::Revoked);
    let after = row.read_share(&db).unwrap();
    assert_eq!(
        refreshed(&before, Err(RefreshError::Terminal), after)
            .unwrap()
            .unwrap()
            .state,
        ShareState::Revoked
    );
    assert!(matches!(
        refresh(&db, &ShareId("nope".to_owned())),
        RefreshStart::NoSuchShare(SdkError::NoSuchShare(s)) if s == "nope"
    ));
}

#[test]
fn dead_nodes_do_not_dial() {
    let mut db = DB::in_memory();
    let row = new_row(&mut db);
    let mut node = GuestNode::new("rt".to_owned(), row);
    assert_eq!(node.label(), "rt");
    assert_eq!(node.refusal(), None);
    assert!(node.opened(&mut db, &Ok(())).is_none());
    assert!(node
        .opened(&mut db, &Err(TransportError::Transient("x".to_owned())))
        .is_none());
    assert_eq!(node.refusal(), None);
    node.opened(&mut db, &Err(TransportError::Terminal(TerminalState::Removed)));
    assert_eq!(
        node.refusal(),
        Some(TransportError::Terminal(TerminalState::Removed))
    );
    // A passing failure is retried once, a final one never.
    let transient = Err(TransportError::Transient("x".to_owned()));
    assert!(retries(1, &transient));
    assert!(!retries(2, &transient));
    assert!(!retries(1, &Ok(())));
    assert!(!retries(1, &Err(TransportError::Terminal(TerminalState::Removed))));
}

#[test]
fn shares_are_left() {
    let mut db = DB::in_memory();
    let (_, first) = joined_share(&mut db, "a");
    let (_, second) = joined_share(&mut db, "b");
    assert_eq!(leave(&mut db, &first.id), Ok(()));
    assert_eq!(
        leave(&mut db, &first.id),
        Err(SdkError::NoSuchShare(first.id.as_str().to_owned()))
    );
    assert_eq!(shares(&db), [second]);
}

#[test]
fn apps_have_addresses() {
    let mut db = DB::in_memory();
    let (row, first) = joined_share(&mut db, "rt");
    let url = host_routed_url(&db, &first.id, "echo", 8000).unwrap();
    assert_eq!(url, "http://echo.rt.localhost:8000");
    assert_eq!(
        extract_target(&url["http://".len()..]),
        Ok(("rt".to_owned(), "echo".to_owned()))
    );
    assert!(host_routed_url(&db, &ShareId("x".to_owned()), "echo", 1).is_err());
    assert_eq!(per_app_url(4321), "http://127.0.0.1:4321");

    // The port that was bound is the first one to be tried the next time.
    let mut step = |event| app_port(&mut db, &row, "echo", event).unwrap();
    assert_eq!(step(PortEvent::Asked), PortStep::Any);
    assert_eq!(step(PortEvent::AnyBound(4321)), PortStep::Bound(4321));
    assert_eq!(step(PortEvent::Asked), PortStep::Try(4321));
    assert_eq!(step(PortEvent::RememberedBound(4321)), PortStep::Bound(4321));
    assert_eq!(step(PortEvent::RememberedTaken), PortStep::Any);
    assert_eq!(step(PortEvent::AnyBound(1234)), PortStep::Bound(1234));
    assert_eq!(step(PortEvent::Asked), PortStep::Try(1234));
    assert_eq!(
        app_port(&mut db, &row, "other", PortEvent::Asked),
        Ok(PortStep::Any)
    );
}

#[test]
fn p2p_revocation_is_terminal() {
    assert_eq!(
        terminal_from_p2p_err(P2pFailure::Revoked),
        Some(TerminalState::Revoked)
    );
    // A node that was never activated.
    assert_eq!(terminal_from_p2p_err(P2pFailure::Other), None);
}

#[test]
fn final_answers_are_told_from_outages() {
    assert_eq!(
        terminal_from_p2p_err(P2pFailure::Rejected),
        Some(TerminalState::Removed)
    );
    assert_eq!(
        terminal_from_node_err(true, false, true),
        Some(TerminalState::Removed)
    );
    assert_eq!(
        terminal_from_node_err(false, true, false),
        Some(TerminalState::Removed)
    );
    assert_eq!(
        terminal_from_node_err(false, false, true),
        Some(TerminalState::Revoked)
    );
    assert_eq!(terminal_from_node_err(false, false, false), None);
    assert_eq!(
        terminal_from_close(Some(CloseCode::Unknown)),
        Some(TerminalState::Removed)
    );
    assert_eq!(
        terminal_from_close(Some(CloseCode::Revoked)),
        Some(TerminalState::Revoked)
    );
    assert_eq!(terminal_from_close(Some(CloseCode::Closing)), None);
    assert_eq!(terminal_from_close(None), None);
    assert_eq!(
        iroh_attempt(IrohAttempt::Opened(Some(CloseCode::Revoked))),
        (
            Err(TransportError::Terminal(TerminalState::Revoked)),
            false
        )
    );
    assert_eq!(iroh_attempt(IrohAttempt::Opened(None)), (Ok(()), false));
    assert_eq!(
        iroh_attempt(IrohAttempt::OpenFailed(None, "x".to_owned())),
        (Err(TransportError::Transient("x".to_owned())), true)
    );
    assert_eq!(
        iroh_attempt(IrohAttempt::ConnectFailed("x".to_owned())),
        (Err(TransportError::Transient("x".to_owned())), false)
    );
    assert_eq!(
        connect_attempt(ConnectAttempt::OpenFailed("x".to_owned())),
        (Err(TransportError::Transient("x".to_owned())), true)
    );
    assert_eq!(connect_attempt(ConnectAttempt::Opened), (Ok(()), false));
    assert_eq!(
        connect_attempt(ConnectAttempt::ConnectFailed(
            Some(TerminalState::Removed),
            "x".to_owned()
        )),
        (
            Err(TransportError::Terminal(TerminalState::Removed)),
            false
        )
    );
    assert_eq!(
        TransportError::Terminal(TerminalState::Revoked).describe(),
        "this device's access was revoked"
    );
}

#[test]
fn broken_connections_are_evicted_once() {
    let mut slot = Slot::new();
    assert!(slot.evict(0));
    assert!(!slot.evict(0));
    assert_eq!(slot.current, 1);
}

#[test]
fn failed_joins_log_out_again() {
    assert_eq!(join_step(JoinEvent::Registered), JoinStep::Activate);
    assert_eq!(join_step(JoinEvent::RegisterFailed), JoinStep::Fail);
    assert_eq!(join_step(JoinEvent::Activated), JoinStep::Fetch);
    assert_eq!(join_step(JoinEvent::ActivateFailed), JoinStep::LogOut);
    assert_eq!(join_step(JoinEvent::FetchFailed), JoinStep::LogOut);
    assert_eq!(join_step(JoinEvent::Fetched), JoinStep::Done);
    assert_eq!(join_step(JoinEvent::LoggedOut(false)), JoinStep::Fail);
}

#[test]
fn terminal_states_round_trip_through_storage_form() {
    for state in [TerminalState::Removed, TerminalState::Revoked] {
        assert_eq!(TerminalState::parse(state.as_str()), Some(state));
    }
    assert_eq!(TerminalState::parse("gone"), None);
}

#[test]
fn transports_are_named() {
    for t in [Transport::WispersConnect, Transport::Iroh, Transport::Tailscale] {
        assert_eq!(Transport::parse(t.as_str()), Some(t));
    }
    assert_eq!(Transport::parse("x"), None);
}

#[test]
fn invite_codes_name_their_transport() {
    let host = EndpointId([0xab; 32]);
    let secret = InviteSecret([0x07; 16]);
    let iroh = compose_iroh_code(&host, &secret);
    assert_eq!(
        iroh,
        format!("wax_iroh_{}_{}", "ab".repeat(32), "07".repeat(16))
    );
    assert_eq!(validate_invite(&iroh), Ok(Transport::Iroh));
    assert_eq!(
        Invite::parse(&iroh),
        Ok(Invite::Iroh {
            endpoint_id: host,
            secret
        })
    );
    let hub = compose_wax_code("ab12cd", "1-xyz789", Some("https://myhub.example.com"));
    for code in ["wax_ab12cd_1-xyz789", &hub] {
        assert_eq!(validate_invite(code), Ok(Transport::WispersConnect));
        let invite = Invite::parse(code).unwrap();
        assert_eq!(invite.transport(), Transport::WispersConnect);
        assert!(matches!(invite, Invite::WispersConnect(i) if i.activation_code == "1-xyz789"));
    }
    let refused = |code: &str, why: &str| {
        assert_eq!(
            validate_invite(code),
            Err(SdkError::InvalidInvite(why.to_owned()))
        );
    };
    refused("nope", "not an invite code");
    refused("wax__1-b", "the invite code is incomplete");
    refused("wax_a_1-b_1", "the invite code's backend cannot be read");
    // Neither an iroh code of the right length nor one in the right case.
    for code in [&iroh[..iroh.len() - 2], &iroh.replace("ab", "AB")] {
        assert!(Invite::parse(code).is_err());
    }
}

#[test]
fn client_errors_have_messages() {
    assert_eq!(
        SdkError::InvalidInvite("x".into()).message(),
        "invalid invite code: x"
    );
    assert_eq!(SdkError::NoSuchShare("x".into()).message(), "no share x");
    assert_eq!(SdkError::Internal("x".into()).message(), "x");
    assert_eq!(SdkError::HostNode("x".into()).message(), "x");
    assert_eq!(
        SdkError::from(SecretStoreError("locked".into())),
        SdkError::Storage("locked".into())
    );
    assert_eq!(SecretStoreError("locked".into()).message(), "locked");
}

#[test]
fn answers_of_the_guest_api() {
    assert_eq!(fetch_info(304), Ok(Answer::Unchanged));
    assert_eq!(fetch_info(200), Ok(Answer::ReadShare));
    assert_eq!(
        fetch_info(403),
        Err("the host node answered 403 Forbidden to GET /v1/share".to_owned())
    );
    assert_eq!(node::activate(200, None), Ok(()));
    assert_eq!(
        node::activate(403, Some("invite-unknown".to_owned())),
        Err("activation refused: invite-unknown".to_owned())
    );
    assert_eq!(
        node::activate(500, None),
        Err("the host node answered 500 Internal Server Error to the activation".to_owned())
    );
    assert_eq!(node::leave(204), Ok(()));
    assert_eq!(
        node::leave(404),
        Err("the host node answered 404 Not Found to DELETE /v1/guest".to_owned())
    );
    assert_eq!(
        if_none_match(Some(ConfigHash(1))).as_deref(),
        Some("\"0000000000000001\"")
    );
    assert_eq!(if_none_match(None), None);
}

/// A port that is taken on one loopback address is never served on the other alone.
#[test]
fn a_port_taken_on_one_loopback_is_not_half_bound() {
    let step = bind_loopback_port;
    assert_eq!(step(80, 1, BindEvent::Start), BindStep::BindV4);
    assert_eq!(step(80, 1, BindEvent::V4Bound(80)), BindStep::BindV6(80));
    assert_eq!(step(80, 1, BindEvent::V6Bound(80)), BindStep::Both(80));
    assert_eq!(
        step(80, 1, BindEvent::V6Failed(80, BindError::Other)),
        BindStep::Fail
    );
    assert_eq!(
        step(0, 1, BindEvent::V6Failed(81, BindError::Other)),
        BindStep::BindV4
    );
    assert_eq!(
        step(0, PORT_TRIES, BindEvent::V6Failed(81, BindError::Other)),
        BindStep::GiveUp
    );
    for e in [BindError::AddrNotAvailable, BindError::Unsupported] {
        assert_eq!(step(80, 1, BindEvent::V6Failed(80, e)), BindStep::V4Only(80));
    }
    assert_eq!(step(0, 1, BindEvent::V4Failed), BindStep::Fail);
}

fn body(step: ForwardStep) -> (u16, String) {
    match step {
        ForwardStep::Answer(reply) => (reply.status, reply.body),
        _ => panic!("expected an answer"),
    }
}

#[test]
fn requests_are_forwarded_step_by_step() {
    let start = || Forward::start(&Route::FromHost, Some("echo.rt.localhost:80")).unwrap();
    let mut f = start();
    assert_eq!((f.share.as_str(), f.app.as_str()), ("rt", "echo"));
    assert!(matches!(f.forward(ForwardEvent::ShareLive), ForwardStep::OpenStream));
    assert!(matches!(f.forward(ForwardEvent::StreamOpened), ForwardStep::Connect));
    assert!(matches!(f.forward(ForwardEvent::Connected), ForwardStep::Send));
    assert!(matches!(
        f.forward(ForwardEvent::Responded {
            status: 404,
            app_gone: true,
            asked_upgrade: false
        }),
        ForwardStep::PassOn {
            kind: ResponseKind::Plain,
            refresh: true
        }
    ));
    assert_eq!(
        body(start().forward(ForwardEvent::ShareUnknown)),
        (404, "unknown share 'rt'".to_owned())
    );
    assert_eq!(
        body(start().forward(ForwardEvent::ShareDead(TerminalState::Revoked))),
        (
            410,
            "This app is no longer available on this device — this device's access was revoked."
                .to_owned()
        )
    );
    assert_eq!(
        body(start().forward(ForwardEvent::ShareFailed)),
        (502, "Wispers Access server unavailable".to_owned())
    );
    let mut f = start();
    f.forward(ForwardEvent::ShareLive);
    assert_eq!(
        body(f.forward(ForwardEvent::StreamFailed(TransportError::Terminal(
            TerminalState::Removed
        ))))
        .0,
        410
    );
}

#[test]
fn requests_find_their_app() {
    let fixed = Route::Fixed {
        share: ShareId("id".to_owned()),
        app: "echo".to_owned(),
    };
    let f = Forward::start(&fixed, None).unwrap();
    assert_eq!((f.share.as_str(), f.app.as_str()), ("id", "echo"));
    let e = Forward::start(&Route::FromHost, None).unwrap_err();
    assert_eq!((e.status, e.body.as_str()), (400, "missing host header"));
    let e = Forward::start(&Route::FromHost, Some("example.com")).unwrap_err();
    assert_eq!(e.status, 404);
    let mut headers = hyper::HeaderMap::new();
    assert_eq!(extract_host(None, &headers), None);
    headers.insert("host", hyper::header::HeaderValue::from_static("a.b.localhost"));
    assert_eq!(extract_host(None, &headers).as_deref(), Some("a.b.localhost"));
    assert_eq!(extract_host(Some("x"), &headers).as_deref(), Some("x"));
}

#[test]
fn peers_that_go_away_are_no_fault() {
    assert!(peer_went_away(true, false, &vec![]));
    assert!(peer_went_away(false, true, &vec![]));
    assert!(!peer_went_away(false, false, &vec![]));
    assert!(peer_went_away(false, false, &vec![None, Some(IoKind::BrokenPipe)]));
    assert!(!peer_went_away(
        false,
        false,
        &vec![Some(IoKind::Other), Some(IoKind::BrokenPipe)]
    ));
}

#[test]
fn circles_are_registered() {
    let circle = |label: &str, id: &str| {
        Circle::new(
            label.to_owned(),
            id.to_owned(),
            format!("The {label}"),
            circle_store::Row { id: 1 },
            "node 1".to_owned(),
        )
    };
    let mut reg = CircleRegistry::new();
    reg.insert(circle("family", "id-1"));
    reg.insert(circle("work", "id-2"));
    reg.insert_dead("old".to_owned(), "id-3".to_owned(), TerminalState::Removed);
    for key in ["family", "id-1"] {
        match reg.get(key) {
            circles::Lookup::Live(c) => {
                assert_eq!(c.label(), "family");
                assert_eq!(c.display_name(), "The family");
                assert_eq!(c.describe_transport(), "node 1");
            }
            _ => panic!("expected a live circle"),
        }
    }
    for key in ["old", "id-3"] {
        assert!(matches!(
            reg.get(key),
            circles::Lookup::Dead(TerminalState::Removed)
        ));
    }
    assert!(matches!(reg.get("nope"), circles::Lookup::Unknown));
    // The last of a label wins.
    reg.insert(circle("family", "id-9"));
    let mut listed: Vec<_> = reg.iter().iter().map(|c| (c.label(), c.id.as_str())).collect();
    listed.sort();
    assert_eq!(listed, [("family", "id-9"), ("work", "id-2")]);
    assert!(matches!(reg.get("id-1"), circles::Lookup::Live(c) if c.id == "id-9"));
}

#[test]
fn secrets_have_paths_and_lengths() {
    let store = FileSecretStore::new("/data/secrets".to_owned());
    let share = ShareId("id".to_owned());
    assert_eq!(store.path(&share, "root_key"), "/data/secrets/id/root_key");
    assert_eq!(store.share_dir(&share), "/data/secrets/id");
    let mut node = NodeSecrets::new();
    assert_eq!(node.load(), Ok(None));
    let state = NodeState {
        root_key: [4; 32],
        registration: Some(vec![1, 2]),
    };
    node.save(state.clone());
    assert_eq!(node.load(), Ok(Some(state)));
    node.root_key = Some(vec![1]);
    assert!(node.load().is_err());
    node.delete_all();
    assert_eq!(node.load(), Ok(None));
    assert_eq!(load_iroh_key(Some(vec![2; 32])), Ok([2; 32]));
    assert_eq!(load_iroh_key(None), Err("share has no iroh key".to_owned()));
    assert_eq!(
        load_iroh_key(Some(vec![])),
        Err("stored iroh key has the wrong length".to_owned())
    );
}

#[test]
fn app_descriptions_skip_redundant_names() {
    let apps = vec![
        app("echo", "echo", AppKind::Web),
        app("jf", "Jellyfin", AppKind::Jellyfin),
    ];
    assert_eq!(describe_apps(&apps), "echo, jf (Jellyfin)");
    assert_eq!(describe_apps(&vec![]), "none yet");
}

#[test]
fn the_client_prints_its_shares() {
    let mut db = DB::in_memory();
    let (_, first) = joined_share(&mut db, "rt");
    assert_eq!(
        joined(&first),
        format!(
            "Joined share: rt\n  Label: rt\n  Apps: echo (Echo)\n  Share id: {}\n\n",
            first.id.as_str()
        )
    );
    let mut all = shares(&db);
    all.push(Share {
        id: ShareId("x".to_owned()),
        name: "Old".to_owned(),
        label: "old".to_owned(),
        transport: Transport::Iroh,
        apps: vec![],
        state: ShareState::Removed,
        joined_at: 0,
    });
    assert_eq!(
        list_lines(&all),
        "Share\tName\tApps\tStatus\nrt\trt\techo\tok\n\
         old\tOld\t-\tthe share was removed by its host node\n"
    );
    assert!(list(&all).starts_with("Share  Name  Apps  Status\nrt     rt    echo  ok\n"));
    assert_eq!(
        list(&vec![]),
        "No shares joined. Use 'waclient join <invite_code>'.\n"
    );
    assert_eq!(
        print_app_urls(&all[0], &vec!["http://echo.rt.localhost:1".to_owned()]),
        "    Echo             http://echo.rt.localhost:1\n"
    );
    assert_eq!(print_app_urls(&all[1], &vec![]), "    (no apps yet)\n");
    assert_eq!(serving_line(&all[1]), "  Old (old) via iroh:\n");
    let dead = "  old ('Old') is no longer available — the share was removed by its host node.\n    Run 'waclient remove old' to clean it up.\n";
    assert_eq!(report_dead_share(&all[1]), dead);
    assert!(matches!(refresh_note(&None), RefreshNote::Silent));
    assert!(matches!(
        refresh_note(&all.pop()),
        RefreshNote::Dead(s) if s == dead
    ));
    assert!(matches!(
        refresh_note(&all.pop()),
        RefreshNote::Updated(s) if s == "Updated app list for rt (rt):\n"
    ));
    assert_eq!(describe_state(ShareState::Revoked), "this device's access was revoked");
}

#[test]
fn a_required_cookie_gates_every_request() {
    let cookie = Some(RequiredCookie {
        name: "__wispers_proxy_auth".into(),
        value: "s3cret".into(),
    });
    let with = |header: &str| {
        let mut headers = hyper::HeaderMap::new();
        headers.insert(
            "cookie",
            hyper::header::HeaderValue::from_str(header).unwrap(),
        );
        headers
    };
    let without = hyper::HeaderMap::new();
    assert_eq!(turn_away(&cookie, &without).unwrap().status, 403);
    assert!(turn_away(&None, &without).is_none());
    assert!(turn_away(&cookie, &with("__wispers_proxy_auth=s3cret")).is_none());
    assert!(turn_away(&cookie, &with("a=b; __wispers_proxy_auth=s3cret; c=d")).is_none());
    for header in ["__wispers_proxy_auth=s3cre", "x__wispers_proxy_auth=s3cret", "s3cret"] {
        assert_eq!(turn_away(&cookie, &with(header)).unwrap().status, 403);
    }
    // Let through: the share is what is unknown now.
    let mut request = Forward::start(&Route::FromHost, Some("echo.nope.localhost")).unwrap();
    assert_eq!(body(request.forward(ForwardEvent::ShareUnknown)).0, 404);
}

#[test]
fn a_client_starts_offline_with_its_own_runtime() {
    let db = DB::in_memory();
    assert!(shares(&db).is_empty());
    assert!(share(&db, "nope").is_none());
    assert!(matches!(
        validate_invite("nope"),
        Err(SdkError::InvalidInvite(_))
    ));
}

#[test]
fn per_app_ports_survive_a_new_proxy() {
    let mut db = DB::in_memory();
    // A share the store knows, without a host node behind it.
    let row = new_row(&mut db);
    row.write_deduped_hostname(&mut db, "rt").unwrap();
    row.mark_complete(&mut db);

    // The first proxy binds a port of its own for each app.
    for (app, port) in [("echo", 4001), ("other", 4002)] {
        assert_eq!(
            app_port(&mut db, &row, app, PortEvent::Asked),
            Ok(PortStep::Any)
        );
        assert_eq!(
            app_port(&mut db, &row, app, PortEvent::AnyBound(port)),
            Ok(PortStep::Bound(port))
        );
    }
    let first = per_app_url(4001);
    assert!(first.starts_with("http://127.0.0.1:"));
    assert_ne!(per_app_url(4002), first);

    // A new one asks for the same port again.
    assert_eq!(
        app_port(&mut db, &row, "echo", PortEvent::Asked),
        Ok(PortStep::Try(4001))
    );
    assert_eq!(
        app_port(&mut db, &row, "echo", PortEvent::RememberedBound(4001)),
        Ok(PortStep::Bound(4001))
    );
}

/// Each circle claims a label of its own.
#[test]
fn hostnames_dedupe() {
    let mut db = circle_store::DB::in_memory();
    let a = db.new_row(1_000).unwrap();
    let b = db.new_row(1_000).unwrap();
    assert_eq!(
        a.write_deduped_hostname(&mut db, "family", "cg-a").unwrap(),
        "family"
    );
    assert_eq!(
        b.write_deduped_hostname(&mut db, "family", "cg-b").unwrap(),
        "family-2"
    );
}

#[test]
fn failed_joins_leave_no_secrets_behind() {
    let mut db = DB::in_memory();
    let row = new_row(&mut db);
    let failed = join(&mut db, &row, Err("refused".to_owned()));
    assert_eq!(
        secrets_after_join(&failed, Transport::WispersConnect),
        ["root_key", "registration"]
    );
    assert_eq!(secrets_after_join(&failed, Transport::Iroh), ["iroh_secret"]);
    assert!(secrets_after_join(&failed, Transport::Tailscale).is_empty());
    let row = new_row(&mut db);
    let joined = join(&mut db, &row, Ok(info("rt", vec![])));
    assert!(secrets_after_join(&joined, Transport::Iroh).is_empty());
}

#[test]
fn dead_shares_are_found_dead_by_a_new_client() {
    let mut db = DB::in_memory();
    let (row, first) = joined_share(&mut db, "rt");
    restored(
        &mut db,
        &row,
        Err(TransportError::Terminal(TerminalState::Revoked)),
    )
    .unwrap();
    // One that was left while its transport was being restored.
    let (gone, left) = joined_share(&mut db, "gone");
    leave(&mut db, &left.id).unwrap();
    assert_eq!(restored(&mut db, &gone, Ok(())), Ok((Lookup::Live, None)));
    assert_eq!(
        restored(
            &mut db,
            &gone,
            Err(TransportError::Terminal(TerminalState::Removed))
        ),
        Err(SdkError::Storage("Query returned no rows".to_owned()))
    );
    assert_eq!(
        restored(
            &mut db,
            &gone,
            Err(TransportError::Transient("down".to_owned()))
        ),
        Err(SdkError::HostNode("down".to_owned()))
    );
    // Other shares come and go, and a new client opens the store.
    let (_, other) = joined_share(&mut db, "rt");
    leave(&mut db, &other.id).unwrap();
    new_row(&mut db);
    db.clean_up_incomplete_rows();
    store_news(&mut db, &row, &info("renamed", vec![])).unwrap();
    let last_id = db.last_id;
    let db = DB::from_rows(db.shares, last_id).unwrap();
    for key in ["rt", first.id.as_str()] {
        assert!(matches!(
            guest_node(&db, key),
            Found::Dead(TerminalState::Revoked)
        ));
    }
}

#[test]
fn stores_run_out_of_ids() {
    let mut db = DB::from_rows(Vec::new(), i64::MAX - 1).unwrap();
    let first = ShareId("a".to_owned());
    assert_eq!(db.new_row(first.clone(), 0), Ok(Row { id: i64::MAX }));
    assert_eq!(db.new_row(first, 0), Err(StoreError::Full));
    assert_eq!(
        SdkError::storage(StoreError::Full).message(),
        "database or disk is full"
    );
    let mut db = circle_store::DB::from_rows(Vec::new(), i64::MAX).unwrap();
    assert_eq!(db.new_row(0), Err(circle_store::StoreError::Full));
    assert!(db.circles.is_empty());
}

#[test]
fn minted_ids_are_random_uuids() {
    for _ in 0..64 {
        let id = ShareId::mint().0;
        assert_eq!(id.len(), 36);
        for (i, c) in id.char_indices() {
            match i {
                8 | 13 | 18 | 23 => assert_eq!(c, '-'),
                14 => assert_eq!(c, '4'),
                19 => assert!("89ab".contains(c)),
                _ => assert!("0123456789abcdef".contains(c)),
            }
        }
    }
    assert_ne!(ShareId::mint(), ShareId::mint());
}

#[test]
fn joins_without_a_label_are_half_recorded() {
    let mut db = DB::in_memory();
    let row = new_row(&mut db);
    // Another share has the label this one asks for, and its ID as the last resort.
    let long = "a".repeat(63);
    let (first, _) = joined_share(&mut db, &long);
    let other = new_row(&mut db);
    let id = row.share_id(&db).unwrap().0;
    other.write_deduped_hostname(&mut db, &id).unwrap();
    let apps = vec![app("jf", "Jellyfin", ShareKind::Jellyfin)];
    assert_eq!(
        record_join(&mut db, &row, &info(&long, apps.clone())),
        Err(StoreError::LabelTaken)
    );
    let (_, name, label) = row.read_names(&db).unwrap();
    assert_eq!((name, label.as_str()), (long, ""));
    assert_eq!(row.read_share(&db).unwrap().apps, apps);
    assert!(!db.shares[0].complete);
    assert_eq!(first.id, 2);
}
