//! The status report.
use wispers_access::clock::{self, fmt_duration, Timestamp};
use wispers_access::server::config::{AppConfig, AppKind, ShareConfig, TransportConfig};
use wispers_access::server::ipc::{self, GuestData, Response, ResponseData, StatusData};
use wispers_access::server::status::{
    apply_live_connections, gather_groups_quota, gather_share, invite_status, load_share,
    no_transport_report, probe_apps, query_server, quota_targets, shown_apps, AppStatus,
    GroupsQuota, GuestStatus, InviteStatus, Loaded, ServerReply, ServerStatus, ServerView,
    ShareStatus, StatusReport, TransportReport, TransportStatus,
};
use wispers_access::server::status_text::{
    backend_label, fleet_lines, fmt_quota, print_fleet, print_share_details, share_details,
};
use wispers_access::server::storage::{self, StateDb, WispersConnectState};
use wispers_access::server::wcbe;

/// A point in time, as a text in the form of RFC 3339 writes it.
fn at(s: &str) -> Timestamp {
    let t = chrono::DateTime::parse_from_rfc3339(s).unwrap();
    Timestamp::new(t.timestamp(), t.timestamp_subsec_nanos()).unwrap()
}

#[test]
fn durations_render_compactly() {
    assert_eq!(fmt_duration(45), "45s");
    assert_eq!(fmt_duration(150), "2m");
    assert_eq!(fmt_duration(3 * 3600 + 12 * 60), "3h 12m");
    assert_eq!(fmt_duration(2 * 86400 + 3 * 3600), "2d 3h");
}

#[test]
fn quota_renders_pending_breakdown() {
    let quota = |limit, current| wcbe::NodeQuota { limit, current };
    assert_eq!(
        fmt_quota(&quota(Some(12), 11), 8),
        "11 of 12 used (this host + 8 guest nodes + 2 pending invites)"
    );
    // No pending invites: the guest count would just repeat the table.
    assert_eq!(fmt_quota(&quota(Some(12), 9), 8), "9 of 12 used");
    assert_eq!(
        fmt_quota(&quota(Some(12), 3), 1),
        "3 of 12 used (this host + 1 guest node + 1 pending invite)"
    );
    assert_eq!(fmt_quota(&quota(None, 3), 2), "3 used (no limit)");
}

#[test]
fn odd_quotas_do_not_overflow() {
    let quota = |limit, current| wcbe::NodeQuota { limit, current };
    assert_eq!(fmt_quota(&quota(Some(12), -1), 0), "-1 of 12 used");
    assert_eq!(fmt_quota(&quota(None, i32::MAX), usize::MAX), "2147483647 used (no limit)");
}

fn guest(node_number: i32) -> GuestStatus {
    GuestStatus {
        node_number,
        name: None,
        user_id: None,
        created_at: "2026-07-01T00:00:00Z".to_owned(),
        last_seen_at: None,
        connected_to_server: None,
        connected_since: None,
        revoked: false,
        revoked_at: None,
    }
}

#[test]
fn live_connections_overlay_guests() {
    let mut guests = vec![guest(2), guest(3)];
    let connected = vec![ipc::GuestData {
        node_number: 2,
        user_id: Some("lara@example.com".to_owned()),
        connected_since: Some("2026-07-20T10:00:00Z".to_owned()),
    }];
    apply_live_connections(&mut guests, &connected);

    // A live guest gets the connection and its start time.
    assert_eq!(guests[0].connected_to_server, Some(true));
    assert_eq!(
        guests[0].connected_since.as_deref(),
        Some("2026-07-20T10:00:00Z")
    );
    // A guest without a connection is authoritatively not connected.
    assert_eq!(guests[1].connected_to_server, Some(false));
}

#[test]
fn revoked_guests_are_left_alone() {
    let mut guests = vec![GuestStatus {
        revoked: true,
        ..guest(2)
    }];
    let connected = vec![GuestData {
        node_number: 2,
        user_id: None,
        connected_since: None,
    }];
    apply_live_connections(&mut guests, &connected);
    assert_eq!(guests[0].connected_to_server, None);
}

#[test]
fn invite_status_derivation() {
    let now = at("2026-07-20T12:00:00Z");
    // Used wins, even over expiry.
    assert_eq!(
        invite_status(Some("2026-07-20T11:00:00Z"), "2026-07-19T00:00:00Z", now),
        "used"
    );
    assert_eq!(invite_status(None, "2026-07-21T12:00:00Z", now), "pending");
    assert_eq!(invite_status(None, "2026-07-20T11:59:59Z", now), "expired");
    // Unparseable expiry defaults to pending rather than crying wolf.
    assert_eq!(invite_status(None, "garbage", now), "pending");
    // The very moment is expired; a fraction later is not.
    assert_eq!(invite_status(None, "2026-07-20T12:00:00Z", now), "expired");
    assert_eq!(invite_status(None, "2026-07-20T12:00:00.000000001Z", now), "pending");
    assert_eq!(invite_status(None, "2026-07-20T14:00:00+02:00", now), "expired");
}

fn offline_share() -> ShareStatus {
    ShareStatus {
        name: "family".to_owned(),
        display_name: Some("Family".to_owned()),
        config_error: None,
        transport: Some(TransportStatus::WispersConnect {
            backend: None,
            connectivity_group_id: Some("cg-1".to_owned()),
            group_created_at: None,
            node_quota: Some(wcbe::NodeQuota {
                limit: Some(12),
                current: 11,
            }),
        }),
        server: ServerStatus::offline(),
        apps: vec![AppStatus {
            id: "jellyfin".to_owned(),
            name: "Jellyfin".to_owned(),
            kind: AppKind::Web,
            upstream: "localhost:8096".to_owned(),
            upstream_reachable: false,
        }],
        guests: None,
        guests_error: None,
        invites: Some(vec![InviteStatus {
            node_name: Some("Nick's iPhone".to_owned()),
            user_id: Some("nick@example.com".to_owned()),
            created_at: "2026-07-20T09:00:00Z".to_owned(),
            expires_at: "2026-07-21T09:00:00Z".to_owned(),
            used_at: None,
            status: "pending",
        }]),
        invites_error: None,
    }
}

#[test]
fn details_of_a_stopped_share() {
    let text = share_details(&offline_share(), at("2026-07-20T12:00:30Z"));
    assert_eq!(
        text,
        "Share\n  Name\tfamily (Family)\n  Transport\twispers-connect\n  \
         Backend\tmanaged (connect.wispers.dev)\n  Connectivity group\tcg-1\n  \
         Quota\t11 of 12 used (this host + 0 guest nodes + 10 pending invites)\n\n\
         Server\n  State\toffline\n\n\
         Apps\n  ID\tNAME\tUPSTREAM\tKIND\n  \
         jellyfin\tJellyfin\tlocalhost:8096 (unreachable!)\tweb\n\n\
         Guests\n  (unavailable)\n\n\
         Invites\n  NODE NAME\tUSER\tCREATED\tSTATUS\n  \
         Nick's iPhone\tnick@example.com\t3 h ago\tpending (expires in 20h 59m)\n"
    );
}

#[test]
fn details_of_a_running_share() {
    let share = ShareStatus {
        name: "movies".to_owned(),
        display_name: None,
        config_error: Some("bad file".to_owned()),
        transport: Some(TransportStatus::Iroh {
            endpoint_id: Some("abcd".to_owned()),
        }),
        server: ServerStatus {
            state: "serving",
            error: None,
            reachable: Some(true),
            pid: Some(42),
            started_at: Some("2026-07-18T09:00:00Z".to_owned()),
            connected_since: Some("2026-07-20T11:30:00Z".to_owned()),
            reload_pending: Some(true),
        },
        apps: vec![],
        guests: Some(vec![
            GuestStatus {
                name: Some("phone".to_owned()),
                user_id: Some("a".to_owned()),
                connected_to_server: Some(true),
                connected_since: Some("2026-07-20T11:59:15Z".to_owned()),
                ..guest(1)
            },
            GuestStatus {
                last_seen_at: Some("2026-07-18T12:00:00Z".to_owned()),
                connected_to_server: Some(false),
                ..guest(2)
            },
            GuestStatus {
                revoked: true,
                revoked_at: Some("2026-07-19T11:00:00Z".to_owned()),
                ..guest(3)
            },
            guest(4),
        ]),
        guests_error: None,
        invites: None,
        invites_error: Some("offline".to_owned()),
    };
    let text = share_details(&share, at("2026-07-20T12:00:00Z"));
    assert_eq!(
        text,
        "Share\n  Name\tmovies\n  Config\tERROR: bad file\n  Transport\tiroh\n  \
         Endpoint ID\tabcd\n\n\
         Server\n  State\tserving (pid 42, up 2d 3h)\n  Relay\tconnected (for 30m)\n  \
         Config\tchanged on disk; run `waserver reload movies`\n\n\
         Apps\n  (none configured)\n\n\
         Guests\n  #\tNAME\tUSER\tLAST SEEN\tSTATUS\n  \
         1\tphone\ta\tnow\tconnected (45s)\n  2\t-\t-\t2 days ago\t-\n  \
         3\t-\t-\t-\trevoked (1 day ago)\n  4\t-\t-\t-\t?\n\n\
         Invites\n  (unavailable: offline)\n"
    );
}

#[test]
fn details_of_odd_shares() {
    let share = ShareStatus {
        transport: None,
        server: ServerStatus::error("refused".to_owned()),
        invites: Some(vec![]),
        guests_error: Some("why".to_owned()),
        ..offline_share()
    };
    let text = share_details(&share, at("2026-07-20T12:00:00Z"));
    assert!(text.contains("  Transport\t-\n"), "{text}");
    assert!(text.contains("  State\terror: refused\n"), "{text}");
    assert!(text.contains("  (unavailable: why)\n"), "{text}");
    assert!(text.contains("  (none in the last 7 days)\n"), "{text}");

    let share = ShareStatus {
        server: ServerStatus {
            state: "connecting",
            reachable: Some(false),
            ..ServerStatus::offline()
        },
        guests: Some(vec![]),
        transport: Some(TransportStatus::WispersConnect {
            backend: Some("https://h".to_owned()),
            connectivity_group_id: None,
            group_created_at: Some("2026-05-02T14:11:59Z".to_owned()),
            node_quota: None,
        }),
        invites: Some(vec![InviteStatus {
            node_name: None,
            user_id: None,
            created_at: "someday".to_owned(),
            expires_at: "never".to_owned(),
            used_at: None,
            status: "used",
        }]),
        ..offline_share()
    };
    let text = share_details(&share, at("2026-07-20T12:00:00Z"));
    assert!(text.contains("  Backend\tself-hosted (https://h)\n"), "{text}");
    assert!(text.contains("  Connectivity group\t-\n"), "{text}");
    assert!(text.contains("  Created\t2026-05-02 14:11 UTC\n"), "{text}");
    assert!(text.contains("  Hub\tnot connected\n"), "{text}");
    assert!(text.contains("  (node 1 is the host)\n"), "{text}");
    assert!(text.contains("  -\t-\tsomeday\tused\n"), "{text}");
}

#[test]
fn details_are_aligned() {
    let text = print_share_details(&offline_share(), at("2026-07-20T12:00:30Z"));
    assert!(!text.contains('\t'), "{text}");
    assert!(
        text.contains("  Name                family (Family)\n  Transport           wispers-connect\n"),
        "{text}"
    );
}

#[test]
fn the_fleet_in_lines() {
    let mut running = ShareStatus {
        name: "movies".to_owned(),
        server: ServerStatus {
            state: "serving",
            reachable: Some(true),
            reload_pending: Some(true),
            ..ServerStatus::offline()
        },
        guests: Some(vec![
            GuestStatus {
                connected_to_server: Some(true),
                ..guest(2)
            },
            GuestStatus {
                connected_to_server: Some(false),
                ..guest(3)
            },
            guest(4),
        ]),
        ..offline_share()
    };
    running.apps.push(AppStatus {
        id: "photos".to_owned(),
        name: "Photos".to_owned(),
        kind: AppKind::Web,
        upstream: "localhost:1".to_owned(),
        upstream_reachable: true,
    });
    let bare = ShareStatus {
        name: "bare".to_owned(),
        apps: vec![],
        guests: Some(vec![guest(2)]),
        server: ServerStatus {
            reachable: Some(false),
            ..ServerStatus::offline()
        },
        ..offline_share()
    };
    let shares = vec![offline_share(), running, bare];
    assert_eq!(
        fleet_lines(&shares),
        "SHARE\tSTATE\tNETWORK\tAPPS\tNODES\n\
         family\toffline\t-\tjellyfin\t?\n\
         movies\tserving (reload pending)\tconnected\tjellyfin, photos\t1/2 connected\n\
         bare\toffline\tnot connected\t-\t1 guests\n"
    );
    let report = StatusReport {
        shares,
        groups_quota: Some(vec![
            GroupsQuota {
                backend: None,
                shares: vec!["family".to_owned(), "movies".to_owned()],
                key_id: Some("wc_prod_1".to_owned()),
                count: 5,
                max: Some(7),
            },
            GroupsQuota {
                backend: None,
                shares: vec!["bare".to_owned()],
                key_id: None,
                count: 1,
                max: None,
            },
        ]),
    };
    let text = print_fleet(&report);
    assert!(text.starts_with("SHARE   STATE                     NETWORK        APPS"), "{text}");
    assert!(
        text.ends_with(
            "\nShare usage per API key\n   wc_prod_1 (family, movies): 5 of 7\n   unknown key (bare): 1 of ∞\n"
        ),
        "{text}"
    );
    assert_eq!(
        print_fleet(&StatusReport {
            shares: vec![],
            groups_quota: None
        }),
        "No shares found\n"
    );
}

fn config(transport: TransportConfig) -> ShareConfig {
    ShareConfig {
        name: "Family".to_owned(),
        transport,
        apps: vec![AppConfig {
            id: "a".to_owned(),
            name: "A".to_owned(),
            kind: AppKind::Web,
            upstream: "localhost:1".to_owned(),
        }],
    }
}

fn connect(backend: Option<&str>) -> TransportConfig {
    TransportConfig::WispersConnect {
        backend: backend.map(str::to_owned),
    }
}

fn loaded(backend: Option<&str>, key: Option<&str>) -> Result<Loaded, String> {
    Ok(Loaded {
        config: config(connect(backend)),
        wcs: key.map(|k| WispersConnectState {
            api_key: k.to_owned(),
            connectivity_group_id: "cg".to_owned(),
        }),
    })
}

#[test]
fn quotas_are_queried_once_per_backend_and_key() {
    let shares = vec![
        ("a".to_owned(), loaded(None, Some("wc_prod_1.s"))),
        ("b".to_owned(), loaded(Some("https://h/"), Some("wc_prod_1.s"))),
        ("c".to_owned(), Err("broken".to_owned())),
        ("d".to_owned(), loaded(None, Some("wc_prod_1.s"))),
        ("e".to_owned(), loaded(None, None)),
        (
            "f".to_owned(),
            Ok(Loaded {
                config: config(TransportConfig::Iroh {}),
                wcs: None,
            }),
        ),
        ("g".to_owned(), loaded(Some("https://h"), Some("wc_prod_1.s"))),
        ("h".to_owned(), loaded(None, Some("nodot"))),
    ];
    let targets = quota_targets(&shares);
    let told: Vec<(&str, &str, Vec<&str>)> = targets
        .iter()
        .map(|t| {
            (
                t.api_base.as_str(),
                t.api_key.as_str(),
                t.shares.iter().map(String::as_str).collect(),
            )
        })
        .collect();
    assert_eq!(
        told,
        [
            ("https://connect.wispers.dev/api/v1", "wc_prod_1.s", vec!["a", "d"]),
            ("https://h/api/v1", "wc_prod_1.s", vec!["b", "g"]),
            ("https://connect.wispers.dev/api/v1", "nodot", vec!["h"]),
        ]
    );
    assert_eq!(targets[1].backend.as_deref(), Some("https://h/"));

    let stats = |count, max| {
        Some(wcbe::Stats {
            connectivity_groups: wcbe::GroupsStats { count, max },
        })
    };
    let quotas =
        gather_groups_quota(&targets, &vec![stats(5, Some(7)), None, stats(1, None)]).unwrap();
    assert_eq!(quotas.len(), 2);
    assert_eq!(quotas[0].key_id.as_deref(), Some("wc_prod_1"));
    assert_eq!((quotas[0].count, quotas[0].max), (5, Some(7)));
    assert_eq!(quotas[1].key_id, None);
    assert_eq!(quotas[1].shares, ["h"]);
    assert!(gather_groups_quota(&targets, &vec![None, None, None]).is_none());
}

fn view(status: ServerStatus, guests: Option<Vec<GuestData>>) -> ServerView {
    ServerView {
        status,
        guests,
        apps: None,
    }
}

#[test]
fn shares_are_gathered_from_all_sides() {
    let report = || TransportReport {
        guests: Ok(vec![guest(2)]),
        invites: Err("no invites".to_owned()),
        transport: None,
    };
    let live = vec![GuestData {
        node_number: 2,
        user_id: None,
        connected_since: None,
    }];
    let serving = ServerStatus {
        state: "serving",
        ..ServerStatus::offline()
    };
    let s = gather_share(
        "family",
        loaded(None, None),
        view(serving, Some(live)),
        report(),
        vec![],
    );
    assert_eq!(s.name, "family");
    assert_eq!(s.display_name.as_deref(), Some("Family"));
    assert_eq!(s.guests.unwrap()[0].connected_to_server, Some(true));
    assert_eq!(s.invites_error.as_deref(), Some("no invites"));

    // A stopped server has no connections.
    let s = gather_share(
        "family",
        Err("broken".to_owned()),
        view(ServerStatus::offline(), None),
        report(),
        vec![],
    );
    assert_eq!(s.config_error.as_deref(), Some("broken"));
    assert_eq!(s.display_name, None);
    assert_eq!(s.guests.unwrap()[0].connected_to_server, Some(false));

    // A server that cannot say leaves it open.
    let s = gather_share(
        "family",
        loaded(None, None),
        view(ServerStatus::error("x".to_owned()), None),
        report(),
        vec![],
    );
    assert_eq!(s.guests.unwrap()[0].connected_to_server, None);

    let s = gather_share(
        "family",
        Err("broken".to_owned()),
        view(ServerStatus::offline(), None),
        no_transport_report(),
        vec![],
    );
    assert_eq!(
        s.guests_error.as_deref(),
        Some("share config failed to load")
    );
}

#[test]
fn the_daemon_is_asked() {
    let cfg = config(connect(None));
    let answer = |hash| {
        ServerReply::Answered(Response::success(ResponseData::Status(StatusData {
            reachable: false,
            apps: ipc::app_data(&cfg),
            config_hash: hash,
            pid: 7,
            started_at: "2026-07-20T00:00:00Z".to_owned(),
            connected_since: None,
            connected_guests: Some(vec![]),
        })))
    };
    let v = query_server(answer(cfg.config_hash()), Some(&cfg));
    assert_eq!(v.status.state, "connecting");
    assert_eq!(v.status.reload_pending, Some(false));
    assert_eq!(v.status.pid, Some(7));
    assert_eq!(v.apps.unwrap().len(), 1);
    let v = query_server(answer(1), Some(&cfg));
    assert_eq!(v.status.reload_pending, Some(true));
    assert_eq!(query_server(answer(1), None).status.reload_pending, None);
    let v = query_server(ServerReply::Down, Some(&cfg));
    assert_eq!(v.status, ServerStatus::offline());
    let v = query_server(
        ServerReply::Answered(Response::success(ResponseData::Empty)),
        None,
    );
    assert_eq!(
        v.status.error.as_deref(),
        Some("unexpected response from server")
    );
    let v = query_server(
        ServerReply::Answered(Response::error("nope".to_owned())),
        None,
    );
    assert_eq!(v.status.error.as_deref(), Some("nope"));
}

#[test]
fn the_running_servers_apps_win() {
    let cfg = config(connect(None));
    assert!(shown_apps(Some(vec![]), Some(&cfg)).is_empty());
    assert_eq!(shown_apps(None, Some(&cfg))[0].id, "a");
    assert!(shown_apps(None, None).is_empty());
    let probed = probe_apps(shown_apps(None, Some(&cfg)), &vec![true]);
    assert!(probed[0].upstream_reachable);
    assert_eq!(probed[0].upstream, "localhost:1");
}

#[test]
fn a_missing_state_leaves_the_apps() {
    let cfg = || config(connect(None));
    let l = load_share(
        Ok(cfg()),
        Err(storage::Error::NotInitialised("x".to_owned())),
    )
    .unwrap();
    assert!(l.wcs.is_none());
    assert!(load_share(Ok(cfg()), Err(storage::Error::CorruptKey)).is_err());
    assert!(load_share(
        Err(storage::Error::NoConfigDir),
        Ok(StateDb::open_in_memory())
    )
    .is_err());
    let mut db = StateDb::open_in_memory();
    db.set_wispers_connect_state(&WispersConnectState {
        api_key: "k".to_owned(),
        connectivity_group_id: "cg".to_owned(),
    });
    let l = load_share(Ok(cfg()), Ok(db)).unwrap();
    assert_eq!(l.wcs.unwrap().api_key, "k");
}

#[test]
fn backends_have_labels() {
    assert_eq!(backend_label(&None), "managed (connect.wispers.dev)");
    assert_eq!(
        backend_label(&Some("https://h".to_owned())),
        "self-hosted (https://h)"
    );
}

#[test]
fn ages_in_prose() {
    let now = at("2026-07-20T12:00:00Z");
    let ago = |s| clock::fmt_ago(s, now);
    assert_eq!(ago("2026-07-20T11:59:30Z"), "just now");
    assert_eq!(ago("2026-07-20T12:00:30Z"), "just now");
    assert_eq!(ago("2026-07-20T11:58:00Z"), "2 min ago");
    assert_eq!(ago("2026-07-20T09:00:01Z"), "2 h ago");
    assert_eq!(ago("2026-07-19T11:00:00Z"), "1 day ago");
    assert_eq!(ago("2026-07-10T12:00:00Z"), "10 days ago");
    assert_eq!(ago("unknown"), "unknown");
    assert_eq!(clock::fmt_age("2026-07-20T11:57:30.5Z", now), "2m");
    assert_eq!(clock::fmt_age("?!", now), "?");
    assert_eq!(clock::fmt_until("2026-07-21T11:04:00Z", now), "23h 4m");
    assert_eq!(clock::fmt_until("2026-07-20T11:04:00Z", now), "0s");
    assert_eq!(clock::fmt_until("", now), "?");
    assert_eq!(clock::fmt_utc("2026-05-02T16:11:59+02:00"), "2026-05-02 14:11 UTC");
    assert_eq!(clock::fmt_utc("soon"), "soon");
}

#[test]
fn seconds_round_trip_through_their_texts() {
    for secs in [0, 1_784_548_800, -62_167_219_200, 253_402_300_799] {
        let text = clock::fmt_unix(secs);
        assert_eq!(
            chrono::DateTime::parse_from_rfc3339(&text).unwrap().timestamp(),
            secs
        );
    }
    assert_eq!(clock::fmt_unix(1_784_548_800), "2026-07-20T12:00:00Z");
    assert_eq!(clock::fmt_unix(i64::MAX), "1970-01-01T00:00:00Z");
}

#[test]
fn points_in_time_have_a_range() {
    for (secs, nanos) in [
        (clock::MIN_SECS, 0),
        (clock::MAX_SECS, 0),
        (clock::MIN_SECS - 1, 0),
        (clock::MAX_SECS + 1, 0),
        (59, 1_999_999_999),
        (-1, 1_500_000_000),
        (58, 1_500_000_000),
        (59, 2_000_000_000),
    ] {
        assert_eq!(
            Timestamp::new(secs, nanos).is_some(),
            chrono::DateTime::from_timestamp(secs, nanos).is_some(),
            "{secs} {nanos}"
        );
    }
}
