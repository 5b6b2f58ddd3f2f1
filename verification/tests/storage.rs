//! The host's state database.
use wispers_access::server::config;
use wispers_access::server::storage::{
    hash_secret, list_shares, DirEntry, Error, GuestRecord, InviteRecord, KvRow, NewInvite,
    NodeState, Redemption, ShareDir, StateDb, WispersConnectState,
};
use wispers_access::wire::ActivationError::{
    AlreadyGuest, InviteConsumed, InviteExpired, InviteUnknown, Revoked,
};
use wispers_access::wire::InviteSecret;

fn invite(secret: &InviteSecret, user: &str) -> NewInvite {
    NewInvite {
        secret: *secret,
        user_id: user.to_owned(),
        node_name: "phone".to_owned(),
        expires_at: 1_000 + 24 * 3600,
    }
}

#[test]
fn state_db_round_trips() {
    let mut db = StateDb::open_in_memory();
    assert!(db.wispers_connect_state().is_none());
    assert!(db.load().unwrap().is_none());

    db.set_wispers_connect_state(&WispersConnectState {
        api_key: "wc_test_k.secret".to_owned(),
        connectivity_group_id: "cg-1".to_owned(),
    });
    let wcs = db.wispers_connect_state().unwrap();
    assert_eq!(wcs.api_key, "wc_test_k.secret");
    assert_eq!(wcs.connectivity_group_id, "cg-1");

    let state = NodeState {
        root_key: [7u8; 32],
        registration: None,
    };
    db.save(&state);
    let loaded = db.load().unwrap().unwrap();
    assert_eq!(loaded.root_key, [7u8; 32]);
    assert!(loaded.registration.is_none());

    db.delete();
    assert!(db.load().unwrap().is_none());
    // Backend credentials survive a node reset.
    assert!(db.wispers_connect_state().is_some());

    // Taking the tables up again sees the data.
    let StateDb { kv, invites, guests } = db;
    let db = StateDb::from_rows(kv, invites, guests).unwrap();
    assert!(db.wispers_connect_state().is_some());
}

#[test]
fn stored_keys_are_checked() {
    let mut db = StateDb::open_in_memory();
    assert_eq!(db.iroh_secret(), Ok(None));
    db.set_iroh_secret(&[3; 32]);
    assert_eq!(db.iroh_secret(), Ok(Some([3; 32])));
    db.set("iroh_secret", b"short");
    assert_eq!(db.iroh_secret(), Err(Error::CorruptKey));
    db.set("root_key", &[1, 2]);
    assert!(db.load().is_err());
    db.remove("root_key");
    assert_eq!(db.get("root_key"), None);
    // A registration goes with the node it belongs to.
    db.save(&NodeState {
        root_key: [1; 32],
        registration: Some(vec![9, 9]),
    });
    assert_eq!(db.load().unwrap().unwrap().registration, Some(vec![9, 9]));
    db.save(&NodeState {
        root_key: [1; 32],
        registration: None,
    });
    assert_eq!(db.get("registration"), None);
    // Text that is no UTF-8 is shown as far as it is.
    db.set("api_key", &[b'k', 0xff]);
    db.set("connectivity_group_id", b"cg");
    assert_eq!(db.wispers_connect_state().unwrap().api_key, "k\u{fffd}");
}

#[test]
fn recent_invites_keeps_open_ones_and_a_week_of_history() {
    let mut db = StateDb::open_in_memory();
    let day = 24 * 3600;
    // Consumed long ago: out. Expired long ago, never used: out.
    let old_used = InviteSecret([1; 16]);
    db.create_invite(invite(&old_used, "old-used"), 0).unwrap();
    db.redeem_invite(&old_used, "peer-old", 1).unwrap();
    db.create_invite(invite(&InviteSecret([2; 16]), "old-expired"), 0)
        .unwrap();
    // Consumed recently: in, as history.
    let recent_used = InviteSecret([3; 16]);
    db.create_invite(invite(&recent_used, "recent-used"), 29 * day)
        .unwrap();
    db.redeem_invite(&recent_used, "peer-recent", 29 * day + 1).unwrap();
    // Created long ago but still open (a long expiry): in.
    db.create_invite(
        NewInvite {
            secret: InviteSecret([4; 16]),
            user_id: "long-open".to_owned(),
            node_name: "phone".to_owned(),
            expires_at: 100 * day,
        },
        0,
    )
    .unwrap();
    let now = 30 * day;
    let listed: Vec<String> = db
        .recent_invites(now)
        .into_iter()
        .map(|i| i.user_id)
        .collect();
    assert_eq!(listed, ["long-open", "recent-used"]);
    // The table keeps everything.
    assert_eq!(db.invites.len(), 4);
}

#[test]
fn invites_are_redeemed_exactly_once_and_idempotently() {
    let mut db = StateDb::open_in_memory();
    let alice = InviteSecret([1; 16]);
    db.create_invite(invite(&alice, "alice"), 1_000).unwrap();

    // Unknown secret, nothing bound.
    assert_eq!(
        db.redeem_invite(&InviteSecret([9; 16]), "peer-a", 1_001).unwrap(),
        Redemption::Refused(InviteUnknown)
    );
    assert!(db.guests().is_empty());

    // First contact binds the peer.
    let Redemption::Activated(m) = db.redeem_invite(&alice, "peer-a", 1_001).unwrap() else {
        panic!("expected activation");
    };
    assert_eq!(
        (m.number, m.user_id.as_str(), m.activated_at),
        (1, "alice", 1_001)
    );
    assert_eq!(db.guest_by_peer("peer-a").as_ref(), Some(&m));

    // A lost response: the same peer retries and gets the same node.
    assert_eq!(
        db.redeem_invite(&alice, "peer-a", 1_002).unwrap(),
        Redemption::Activated(m.clone())
    );
    // Another key with the same secret is refused.
    assert_eq!(
        db.redeem_invite(&alice, "peer-b", 1_002).unwrap(),
        Redemption::Refused(InviteConsumed)
    );
    // A guest presenting a fresh invite stays as it is.
    let bob = InviteSecret([2; 16]);
    db.create_invite(invite(&bob, "bob"), 1_000).unwrap();
    assert_eq!(
        db.redeem_invite(&bob, "peer-a", 1_003).unwrap(),
        Redemption::Refused(AlreadyGuest)
    );
    assert_eq!(db.guests().len(), 1);
    assert_eq!(db.guest_by_peer("peer-a").unwrap().user_id, "alice");
}

#[test]
fn expired_invites_and_revoked_guests_are_refused() {
    let mut db = StateDb::open_in_memory();
    let secret = InviteSecret([1; 16]);
    db.create_invite(invite(&secret, "alice"), 1_000).unwrap();
    assert_eq!(
        db.redeem_invite(&secret, "peer-a", 1_000 + 24 * 3600).unwrap(),
        Redemption::Refused(InviteExpired)
    );
    let Redemption::Activated(m) = db.redeem_invite(&secret, "peer-a", 1_001).unwrap() else {
        panic!("expected activation");
    };

    db.touch_guest("peer-a", 1_500);
    assert_eq!(
        db.guest_by_peer("peer-a").unwrap().last_seen_at,
        Some(1_500)
    );

    assert!(matches!(
        db.revoke_guest(99, 2_000),
        Err(Error::NoSuchGuest(99))
    ));
    let revoked = db.revoke_guest(m.number, 2_000).unwrap();
    assert_eq!(revoked.revoked_at, Some(2_000));
    // Revoking again keeps the first time; the row stays listed.
    assert_eq!(
        db.revoke_guest(m.number, 3_000).unwrap().revoked_at,
        Some(2_000)
    );
    assert_eq!(db.guests().len(), 1);

    // A guest that leaves is forgotten outright, invite left consumed.
    let leaver = InviteSecret([3; 16]);
    db.create_invite(invite(&leaver, "carol"), 2_000).unwrap();
    let Redemption::Activated(carol) = db.redeem_invite(&leaver, "peer-c", 2_001).unwrap() else {
        panic!("expected activation");
    };
    db.remove_guest(carol.number).unwrap();
    assert!(db.guest_by_peer("peer-c").is_none());
    assert!(matches!(
        db.remove_guest(carol.number),
        Err(Error::NoSuchGuest(_))
    ));
    assert_eq!(
        db.redeem_invite(&leaver, "peer-c2", 2_002).unwrap(),
        Redemption::Refused(InviteConsumed)
    );

    // A revoked key is never re-bound, even with a fresh invite.
    let fresh = InviteSecret([2; 16]);
    db.create_invite(invite(&fresh, "alice-again"), 2_000)
        .unwrap();
    assert_eq!(
        db.redeem_invite(&fresh, "peer-a", 2_001).unwrap(),
        Redemption::Refused(Revoked)
    );
    // A fresh key redeems it, as a new guest number.
    let Redemption::Activated(again) = db.redeem_invite(&fresh, "peer-a2", 2_001).unwrap() else {
        panic!("expected activation");
    };
    assert_eq!(again.number, 2);
    assert_eq!(db.guests().len(), 2);
}

#[test]
fn refused_and_repeated_redemptions_leave_the_tables_alone() {
    let mut db = StateDb::open_in_memory();
    let alice = InviteSecret([1; 16]);
    let bob = InviteSecret([2; 16]);
    db.create_invite(invite(&alice, "alice"), 1_000).unwrap();
    db.create_invite(invite(&bob, "bob"), 1_000).unwrap();
    db.redeem_invite(&alice, "peer-a", 1_001).unwrap();
    let (invites, guests) = (db.invites.clone(), db.guests.clone());
    for (secret, peer, now) in [
        (&alice, "peer-a", 1_002),
        (&alice, "peer-b", 1_002),
        (&bob, "peer-a", 1_002),
        (&bob, "peer-b", 1_000 + 24 * 3600),
        (&InviteSecret([9; 16]), "peer-b", 1_002),
    ] {
        db.redeem_invite(secret, peer, now).unwrap();
        assert_eq!((&db.invites, &db.guests), (&invites, &guests));
    }
}

#[test]
fn an_invite_makes_one_guest_whatever_comes_after() {
    let mut db = StateDb::open_in_memory();
    let secret = InviteSecret([1; 16]);
    db.create_invite(invite(&secret, "alice"), 1_000).unwrap();
    let Redemption::Activated(alice) = db.redeem_invite(&secret, "peer-a", 1_001).unwrap() else {
        panic!("expected activation");
    };
    db.touch_guest("peer-a", 1_002);
    db.revoke_guest(alice.number, 1_003).unwrap();
    let other = InviteSecret([2; 16]);
    db.create_invite(invite(&other, "bob"), 1_004).unwrap();
    db.redeem_invite(&other, "peer-b", 1_005).unwrap();
    assert_eq!(
        db.redeem_invite(&secret, "peer-c", 1_006).unwrap(),
        Redemption::Refused(InviteConsumed)
    );
    // The revocation lasts.
    assert_eq!(
        db.guest_by_peer("peer-a").unwrap().revoked_at,
        Some(1_003)
    );
    db.remove_guest(alice.number).unwrap();
    for peer in ["peer-a", "peer-c"] {
        assert_eq!(
            db.redeem_invite(&secret, peer, 1_007).unwrap(),
            Redemption::Refused(InviteConsumed)
        );
    }
    assert_eq!(db.guests().len(), 1);
}

#[test]
fn guest_numbers_are_reused_only_once_they_run_out() {
    let mut db = StateDb::open_in_memory();
    let secrets: Vec<InviteSecret> = (1..=4).map(|n| InviteSecret([n; 16])).collect();
    for secret in &secrets {
        db.create_invite(invite(secret, "user"), 1_000).unwrap();
    }
    db.redeem_invite(&secrets[0], "peer-1", 1_001).unwrap();
    db.redeem_invite(&secrets[1], "peer-2", 1_001).unwrap();
    db.guests[1].node.number = i64::MAX;
    // The number after the largest does not exist, so the gaps are filled.
    for (secret, peer, number) in [(&secrets[2], "peer-3", 2), (&secrets[3], "peer-4", 3)] {
        let Ok(Redemption::Activated(guest)) = db.redeem_invite(secret, peer, 1_001) else {
            panic!("expected activation");
        };
        assert_eq!(guest.number, number);
    }
    // So it is with the invites.
    db.invites[3].row.id = i64::MAX;
    db.guests[2].invite_id = i64::MAX;
    let more = InviteSecret([9; 16]);
    assert_eq!(db.create_invite(invite(&more, "user"), 1_001), Ok(4));
    let ids: Vec<i64> = db.recent_invites(1_001).iter().map(|i| i.id).collect();
    assert_eq!(ids, [i64::MAX, 4, 3, 2, 1]);
    let numbers: Vec<i64> = db.guests().iter().map(|g| g.number).collect();
    assert_eq!(numbers, [1, 2, 3, i64::MAX]);
    assert_eq!(
        db.redeem_invite(&secrets[0], "peer-5", 1_002),
        Ok(Redemption::Refused(InviteConsumed))
    );
}

#[test]
fn a_secret_is_recorded_once_and_only_as_its_hash() {
    let mut db = StateDb::open_in_memory();
    let secret = InviteSecret([0; 16]);
    assert_eq!(db.create_invite(invite(&secret, "a"), 0), Ok(1));
    assert_eq!(
        db.create_invite(invite(&secret, "b"), 0),
        Err(Error::Db(
            "UNIQUE constraint failed: invites.secret_hash".to_owned()
        ))
    );
    assert_eq!(db.invites.len(), 1);
    // SHA-256 of sixteen zero bytes.
    assert_eq!(
        &hash_secret(&secret)[..8],
        &[0x37, 0x47, 0x08, 0xff, 0xf7, 0x71, 0x9d, 0xd5]
    );
    assert_eq!(db.invites[0].secret_hash, hash_secret(&secret));
}

#[test]
fn broken_tables_are_not_taken_up() {
    let mut db = StateDb::open_in_memory();
    let secret = InviteSecret([1; 16]);
    db.create_invite(invite(&secret, "alice"), 1_000).unwrap();
    db.redeem_invite(&secret, "peer-a", 1_001).unwrap();
    let StateDb { kv, invites, guests } = db;
    // A guest whose invite is not there.
    assert!(StateDb::from_rows(kv, Vec::new(), guests).is_none());
    // An invite that stands twice.
    let row = |id: i64| InviteRecord {
        secret_hash: [5; 32],
        row: wispers_access::server::storage::InviteRow {
            id,
            user_id: String::new(),
            node_name: String::new(),
            created_at: 0,
            expires_at: 0,
            consumed_at: None,
        },
    };
    assert!(StateDb::from_rows(Vec::new(), vec![row(1), row(2)], Vec::new()).is_none());
    assert!(StateDb::from_rows(Vec::new(), vec![row(1)], Vec::new()).is_some());
    assert!(StateDb::from_rows(Vec::new(), vec![row(0)], Vec::new()).is_none());
    // A key that stands twice.
    let kv = || KvRow {
        key: "k".to_owned(),
        value: vec![],
    };
    assert!(StateDb::from_rows(vec![kv(), kv()], invites, Vec::<GuestRecord>::new()).is_none());
}

#[test]
fn share_directories_have_safe_names() {
    let dir = ShareDir::new("family", Some("/home/x/.config".to_owned())).unwrap();
    assert_eq!(
        dir.config_path(),
        "/home/x/.config/waserver/shares/family/share.toml"
    );
    assert_eq!(
        dir.state_path(),
        "/home/x/.config/waserver/shares/family/state.db"
    );
    assert_eq!(
        ShareDir::new("../x", Some("/c".to_owned())),
        Err(Error::InvalidName("../x".to_owned()))
    );
    assert_eq!(ShareDir::new("family", None), Err(Error::NoConfigDir));
    assert_eq!(dir.create(false), Ok(()));
    assert_eq!(
        dir.create(true),
        Err(Error::AlreadyExists("family".to_owned()))
    );
    assert_eq!(dir.open_state(true, true), Ok(dir.state_path()));
    assert_eq!(
        dir.open_state(true, false),
        Err(Error::NotInitialised("family".to_owned()))
    );
    assert!(matches!(
        dir.load_config(None),
        Err(Error::NotInitialised(n)) if n == "family"
    ));
    assert!(matches!(
        dir.load_config(Some(Err(config::Error::EmptyName))),
        Err(Error::Config(config::Error::EmptyName))
    ));
}

#[test]
fn shares_are_the_directories_with_a_config() {
    let entry = |name: &str, has_config| DirEntry {
        name: name.to_owned(),
        has_config,
    };
    assert_eq!(
        list_shares(vec![entry("b", true), entry("x", false), entry("a", true)]),
        ["b", "a"]
    );
}

#[test]
fn storage_errors_have_messages() {
    assert_eq!(Error::Io("x".into()).message(), "io error: x");
    assert_eq!(Error::Db("x".into()).message(), "state database: x");
    assert_eq!(
        Error::Migration("x".into()).message(),
        "state database migration: x"
    );
    assert_eq!(
        Error::InvalidName("a b".into()).message(),
        "invalid share name 'a b' (use letters, digits, '-' or '_')"
    );
    assert_eq!(
        Error::NotInitialised("a".into()).message(),
        "share a is not initialised"
    );
    assert_eq!(
        Error::AlreadyExists("a".into()).message(),
        "share a already exists"
    );
    assert_eq!(Error::NoSuchGuest(-3).message(), "no guest node number -3");
    assert_eq!(
        Error::CorruptKey.message(),
        "stored iroh key has the wrong length"
    );
    assert_eq!(
        Error::NoConfigDir.message(),
        "could not determine the OS config directory"
    );
    assert_eq!(
        Error::Config(config::Error::EmptyName).message(),
        "share name is empty"
    );
}
