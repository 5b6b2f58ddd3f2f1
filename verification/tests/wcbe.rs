//! The Wispers Connect backend, and what the host makes of it.
use wispers_access::clock::Timestamp;
use wispers_access::server::connect::{
    explain_group_quota, handle_session_end, let_in, parse_user_id, report, require_api_key,
    require_credentials, resolve_identity, revoke, to_guests, HubAnswers, NodeState, RevokeStep,
    SessionEnd, NOT_INITIALISED,
};
use wispers_access::server::ipc::invite_error_message;
use wispers_access::server::status::TransportStatus;
use wispers_access::server::storage::WispersConnectState;
use wispers_access::server::wcbe::{
    api_base, classify_error, delete_node_outcome, key_id, ok_or_error, registration_token_fields,
    BackendError, Client, DeleteNodeOutcome, GroupDetail, GroupNode, NodeMetadata, NodeQuota, QuotaBody, QuotaExceeded, RegistrationToken,
};

#[test]
fn key_id_never_contains_secret_material() {
    assert_eq!(
        key_id("wc_prod_1a2B3c4D5e6F7g8H9.supersecretsupersecret").as_deref(),
        Some("wc_prod_1a2B3c4D5e6F7g8H9")
    );
    // An unrecognisable key yields nothing rather than a guess.
    assert_eq!(key_id("no-dot-in-here"), None);
    for key in [
        "foo.bar", "wc.x", "wc_.x", "wc_prod.x", "wc_prod_.x", "wc__1.x", "xwc_prod_1.x", "",
    ] {
        assert_eq!(key_id(key), None, "{key}");
    }
    assert_eq!(key_id("wc_t_a_b.s.t").as_deref(), Some("wc_t_a_b"));
}

/// A body as a quota rejection, where it reads as one.
fn quota_body(body: &str) -> Option<QuotaBody> {
    let v: serde_json::Value = serde_json::from_str(body).ok()?;
    Some(QuotaBody {
        error: v.get("error")?.as_str()?.to_owned(),
        quota: v.get("quota")?.as_str()?.to_owned(),
        limit: v.get("limit")?.as_i64()? as i32,
        current: v.get("current")?.as_i64()? as i32,
    })
}

#[test]
fn quota_429_classifies_as_typed_error() {
    let classify = |status, body: &str| classify_error(status, body, quota_body(body));
    let e = classify(
        429,
        r#"{"error":"quota exceeded","quota":"nodes_per_group","limit":12,"current":12}"#,
    );
    let BackendError::Quota(q) = e else {
        panic!("expected a quota error");
    };
    assert_eq!(
        (q.quota.as_str(), q.limit, q.current),
        ("nodes_per_group", 12, 12)
    );
    assert_eq!(
        q.message(),
        "nodes_per_group quota exceeded (12 of 12 used)"
    );

    // The rate limiter's 429 has a different body and stays generic.
    let e = classify(
        429,
        r#"{"error":"rate limit exceeded","retryAfterSeconds":42}"#,
    );
    assert!(matches!(e, BackendError::Server(_)));
    assert!(e.message().contains("429"));

    let e = classify(500, "boom");
    assert!(e.message().contains("boom"));
    assert_eq!(
        e.message(),
        "server returned 500 Internal Server Error: boom"
    );
    // A quota body with another status, or another error, is no quota error.
    let body = r#"{"error":"quota exceeded","quota":"q","limit":1,"current":1}"#;
    assert!(matches!(classify(500, body), BackendError::Server(_)));
}

#[test]
fn answers_are_sorted_by_status() {
    assert_eq!(ok_or_error(200, "", None), Ok(()));
    assert_eq!(ok_or_error(299, "", None), Ok(()));
    assert!(ok_or_error(300, "", None).is_err());
    assert_eq!(
        delete_node_outcome(204, "", None),
        Ok(DeleteNodeOutcome::Deleted)
    );
    assert_eq!(
        delete_node_outcome(404, "", None),
        Ok(DeleteNodeOutcome::AlreadyGone)
    );
    assert_eq!(
        delete_node_outcome(409, "x", None),
        Err(BackendError::Server(
            "server returned 409 Conflict: x".to_owned()
        ))
    );
}

#[test]
fn requests_have_addresses_and_fields() {
    assert_eq!(api_base(None), "https://connect.wispers.dev/api/v1");
    assert_eq!(api_base(Some("https://h.example//")), "https://h.example/api/v1");
    let c = Client::new("key", "https://h/api/v1");
    assert_eq!(c.api_key, "key");
    assert_eq!(c.stats_url(), "https://h/api/v1/stats");
    assert_eq!(c.groups_url(), "https://h/api/v1/connectivity-groups");
    assert_eq!(c.group_url("cg"), "https://h/api/v1/connectivity-groups/cg");
    assert_eq!(
        c.tokens_url("cg"),
        "https://h/api/v1/connectivity-groups/cg/registration-tokens"
    );
    assert_eq!(
        c.node_url("cg", 3),
        "https://h/api/v1/connectivity-groups/cg/nodes/3"
    );
    let metadata = NodeMetadata {
        user_id: "a\"b".to_owned(),
    };
    assert_eq!(
        registration_token_fields(Some("phone"), Some(&metadata)),
        [
            ("ttlProfile".to_owned(), "asynchronous".to_owned()),
            ("nodeName".to_owned(), "phone".to_owned()),
            (
                "nodeMetadata".to_owned(),
                "{\"userId\":\"a\\\"b\"}".to_owned()
            ),
        ]
    );
    assert_eq!(registration_token_fields(None, None).len(), 1);
}

fn metadata(json: &str) -> Option<NodeMetadata> {
    let v: serde_json::Value = serde_json::from_str(json).ok()?;
    Some(NodeMetadata {
        user_id: v.get("userId")?.as_str()?.to_owned(),
    })
}

#[test]
fn user_id_comes_from_node_metadata() {
    assert_eq!(
        parse_user_id(&metadata(r#"{"userId": "lara@example.com"}"#)),
        Some("lara@example.com".to_owned())
    );
    assert_eq!(parse_user_id(&metadata(r#"{"userId": ""}"#)), None);
    assert_eq!(parse_user_id(&metadata("not json")), None);
}

#[test]
fn group_quota_error_names_the_way_out() {
    let quota = BackendError::Quota(QuotaExceeded {
        quota: "groups_per_domain".to_owned(),
        limit: 3,
        current: 3,
    });
    let msg = explain_group_quota(quota).message();
    assert!(msg.contains("3 of 3"), "{msg}");
    assert!(msg.contains("waserver deinit"), "{msg}");

    // Other errors pass through untouched.
    let other = BackendError::Quota(QuotaExceeded {
        quota: "nodes_per_group".to_owned(),
        limit: 12,
        current: 12,
    });
    let msg = explain_group_quota(other).message();
    assert!(!msg.contains("waserver deinit"), "{msg}");
}

#[test]
fn invite_quota_error_names_the_way_out() {
    let quota = BackendError::Quota(QuotaExceeded {
        quota: "nodes_per_group".to_owned(),
        limit: 12,
        current: 12,
    });
    let msg = invite_error_message(&quota);
    assert!(msg.contains("12 of 12 node quota used"), "{msg}");
    assert!(msg.contains("waserver revoke"), "{msg}");

    // Other errors keep the raw passthrough.
    let other = BackendError::Server("server returned 500: boom".to_owned());
    let msg = invite_error_message(&other);
    assert_eq!(
        msg,
        "error generating registration token: server returned 500: boom"
    );
}

fn node(number: i32, user: Option<&str>) -> GroupNode {
    GroupNode {
        node_number: number,
        created_at: format!("created-{number}"),
        name: Some(format!("node-{number}")),
        last_seen_at: None,
        metadata: user.map(|u| NodeMetadata {
            user_id: u.to_owned(),
        }),
    }
}

fn group(nodes: Vec<GroupNode>) -> GroupDetail {
    GroupDetail {
        created_at: "2026-07-30T00:00:00Z".to_owned(),
        name: None,
        nodes,
        node_quota: Some(NodeQuota {
            limit: Some(12),
            current: 3,
        }),
    }
}

#[test]
fn guests_are_the_other_nodes_by_number() {
    let g = group(vec![
        node(4, Some("d")),
        node(1, None),
        node(2, Some("")),
        node(4, Some("e")),
        node(3, None),
    ]);
    let guests = to_guests(&g);
    let told: Vec<(i32, Option<&str>)> = guests
        .iter()
        .map(|g| (g.node_number, g.user_id.as_deref()))
        .collect();
    assert_eq!(told, [(2, None), (3, None), (4, Some("d")), (4, Some("e"))]);
    assert_eq!(guests[0].name.as_deref(), Some("node-2"));
    assert!(!guests[0].revoked);
    assert_eq!(guests[0].connected_to_server, None);
}

#[test]
fn identities_are_the_hubs() {
    let nodes = vec![node(2, Some("a")), node(3, None), node(2, Some("b"))];
    assert_eq!(resolve_identity(&nodes, 2).as_deref(), Some("a"));
    assert_eq!(resolve_identity(&nodes, 3), None);
    assert_eq!(resolve_identity(&nodes, 4), None);
    let peer = let_in(2, Some(&nodes)).unwrap();
    assert_eq!((peer.peer_id.as_str(), peer.user_id.as_deref()), ("2", Some("a")));
    assert!(let_in(3, Some(&nodes)).is_none());
    assert!(let_in(2, None).is_none());
}

#[test]
fn nodes_are_revoked_by_what_the_group_says() {
    assert_eq!(revoke(2, Some(NodeState::Activated)), Ok(RevokeStep::Revoke));
    assert_eq!(revoke(2, Some(NodeState::Revoked)), Ok(RevokeStep::Deregister));
    assert_eq!(
        revoke(2, Some(NodeState::Other)),
        Err("node 2 has never been activated.".to_owned())
    );
    assert_eq!(revoke(2, None), Err("Node 2 is unknown".to_owned()));
    assert_eq!(
        revoke(1, Some(NodeState::Activated)),
        Err("Node 1 is the host and cannot be revoked".to_owned())
    );
}

#[test]
fn sessions_end_for_a_reason() {
    assert_eq!(handle_session_end(SessionEnd::Normal), Ok(()));
    assert_eq!(
        handle_session_end(SessionEnd::Failed("x".to_owned())),
        Err("Session error: x".to_owned())
    );
    assert_eq!(
        handle_session_end(SessionEnd::Panicked("x".to_owned())),
        Err("Session task panicked: x".to_owned())
    );
}

#[test]
fn credentials_are_required() {
    let wcs = || WispersConnectState {
        api_key: "k".to_owned(),
        connectivity_group_id: "cg".to_owned(),
    };
    assert_eq!(require_credentials("s", Some(wcs())), Ok(wcs()));
    assert_eq!(
        require_credentials("s", None),
        Err("Share s has no Wispers Connect credentials".to_owned())
    );
    assert_eq!(require_api_key(Some("k".to_owned())), Ok("k".to_owned()));
    assert!(require_api_key(None).unwrap_err().starts_with("--api-key"));
}

#[test]
fn reports_come_from_the_hub() {
    let now = Timestamp::new(1_784_548_800, 0).unwrap();
    let r = report(Some("https://h"), None, now);
    assert_eq!(r.guests, Err(NOT_INITIALISED.to_owned()));
    let wcs = WispersConnectState {
        api_key: "k".to_owned(),
        connectivity_group_id: "cg".to_owned(),
    };
    let token = RegistrationToken {
        node_name: Some("phone".to_owned()),
        node_metadata: metadata(r#"{"userId":"a"}"#),
        created_at: "2026-07-20T00:00:00Z".to_owned(),
        expires_at: "2026-07-20T11:00:00Z".to_owned(),
        used_at: None,
    };
    let hub = HubAnswers {
        group: Ok(group(vec![node(1, None), node(2, Some("a"))])),
        tokens: Ok(vec![token]),
    };
    let r = report(None, Some((&wcs, hub)), now);
    assert_eq!(r.guests.unwrap().len(), 1);
    let invites = r.invites.unwrap();
    assert_eq!(invites[0].status, "expired");
    assert_eq!(invites[0].user_id.as_deref(), Some("a"));
    assert_eq!(
        r.transport,
        Some(TransportStatus::WispersConnect {
            backend: None,
            connectivity_group_id: Some("cg".to_owned()),
            group_created_at: Some("2026-07-30T00:00:00Z".to_owned()),
            node_quota: Some(NodeQuota {
                limit: Some(12),
                current: 3
            }),
        })
    );
    let hub = HubAnswers {
        group: Err("down".to_owned()),
        tokens: Err("down too".to_owned()),
    };
    let r = report(None, Some((&wcs, hub)), now);
    assert_eq!(r.guests, Err("down".to_owned()));
    assert_eq!(r.invites, Err("down too".to_owned()));
}
