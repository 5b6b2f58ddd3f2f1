//! The share's config file.
use wispers_access::server::config::{
    is_valid_id, parse_upstream, render_template, AppConfig, AppKind, Error, ShareConfig,
    TransportConfig, TransportKind,
};

const FULL: &str = r#"
name = "Family"

[transport]
kind = "wispers-connect"

[[app]]
id = "jellyfin"
name = "Jellyfin"
kind = "jellyfin"
upstream = "127.0.0.1:8096"

[[app]]
id = "photos"
upstream = ":2283"
"#;

fn malformed<T>(why: &str) -> Result<T, Error> {
    Err(Error::Parse(why.to_owned()))
}

fn string(table: &toml::Table, key: &str) -> Result<Option<String>, Error> {
    match table.get(key) {
        None => Ok(None),
        Some(toml::Value::String(s)) => Ok(Some(s.clone())),
        Some(_) => malformed("expected a string"),
    }
}

fn only(table: &toml::Table, keys: &[&str]) -> Result<(), Error> {
    match table.keys().find(|k| !keys.contains(&k.as_str())) {
        None => Ok(()),
        Some(_) => malformed("unknown field"),
    }
}

fn transport(value: Option<&toml::Value>) -> Result<TransportConfig, Error> {
    let table = match value {
        None => return Ok(TransportConfig::default()),
        Some(toml::Value::Table(t)) => t,
        Some(_) => return malformed("expected a table"),
    };
    only(table, &["kind", "backend"])?;
    let kind = string(table, "kind")?.unwrap_or_default();
    match TransportConfig::from_table(&kind, string(table, "backend")?) {
        Some(transport) => Ok(transport),
        None => malformed("unknown transport"),
    }
}

fn app(table: &toml::Table) -> Result<AppConfig, Error> {
    only(table, &["id", "name", "kind", "upstream"])?;
    let kind = match string(table, "kind")? {
        None => AppKind::default(),
        Some(k) => match AppKind::parse(&k) {
            Some(kind) => kind,
            None => return malformed("unknown kind"),
        },
    };
    match (string(table, "id")?, string(table, "upstream")?) {
        (Some(id), Some(upstream)) => Ok(AppConfig {
            id,
            name: string(table, "name")?.unwrap_or_default(),
            kind,
            upstream,
        }),
        _ => malformed("missing field"),
    }
}

/// Reads the TOML of a config, then normalises and validates it.
fn parse(text: &str) -> Result<ShareConfig, Error> {
    let table: toml::Table = match text.parse() {
        Ok(t) => t,
        Err(_) => return malformed("no TOML"),
    };
    only(&table, &["name", "transport", "app"])?;
    let Some(name) = string(&table, "name")? else {
        return malformed("missing name");
    };
    let mut apps = Vec::new();
    match table.get("app") {
        None => {}
        Some(toml::Value::Array(list)) => {
            for entry in list {
                match entry {
                    toml::Value::Table(t) => apps.push(app(t)?),
                    _ => return malformed("expected a table"),
                }
            }
        }
        Some(_) => return malformed("expected tables"),
    }
    ShareConfig::parse(ShareConfig {
        name,
        transport: transport(table.get("transport"))?,
        apps,
    })
}

#[test]
fn parses_and_normalises() {
    let cfg = parse(FULL).unwrap();
    assert_eq!(cfg.name, "Family");
    assert_eq!(
        cfg.transport,
        TransportConfig::WispersConnect { backend: None }
    );
    assert_eq!(cfg.apps.len(), 2);
    assert_eq!(cfg.default_app().unwrap().id, "jellyfin");
    assert_eq!(cfg.apps[0].kind, AppKind::Jellyfin);
    // Name defaults to the id, an empty host means localhost.
    assert_eq!(cfg.apps[1].name, "photos");
    assert_eq!(cfg.apps[1].upstream, "localhost:2283");
    assert_eq!(cfg.apps[1].kind, AppKind::Web);
}

#[test]
fn apps_are_found_by_id() {
    let cfg = parse(FULL).unwrap();
    assert_eq!(cfg.find_app("photos").unwrap().upstream, "localhost:2283");
    assert!(cfg.find_app("Photos").is_none());
}

#[test]
fn transport_defaults_to_wispers_connect_and_apps_may_be_absent() {
    let cfg = parse("name = \"x\"\n").unwrap();
    assert_eq!(
        cfg.transport,
        TransportConfig::WispersConnect { backend: None }
    );
    assert!(cfg.apps.is_empty());
    assert!(cfg.default_app().is_none());
}

#[test]
fn transport_settings_live_with_their_transport() {
    let text = "name = \"x\"\n[transport]\nkind = \"wispers-connect\"\nbackend = \"https://h.example\"\n";
    let cfg = parse(text).unwrap();
    assert_eq!(
        cfg.transport,
        TransportConfig::WispersConnect {
            backend: Some("https://h.example".to_owned())
        }
    );
    // A setting that belongs to no transport, or the old flat form, is rejected.
    assert!(
        parse("name = \"x\"\n[transport]\nkind = \"wispers-connect\"\nrelay = \"r\"\n").is_err()
    );
    assert!(parse("name = \"x\"\ntransport = \"wispers-connect\"\n").is_err());
    assert!(parse("name = \"x\"\nbackend = \"https://h.example\"\n").is_err());
}

#[test]
fn rejects_bad_files() {
    assert!(matches!(parse("name = \"\"\n"), Err(Error::EmptyName)));
    assert!(matches!(
        parse("name = \"x\"\n[transport]\nkind = \"tailscale\"\n"),
        Err(Error::Parse(_))
    ));
    // A setting from another transport is a parse error.
    assert!(matches!(
        parse("name = \"x\"\n[transport]\nkind = \"iroh\"\nbackend = \"https://h\"\n"),
        Err(Error::Parse(_))
    ));
    assert_eq!(
        parse("name = \"x\"\n[transport]\nkind = \"iroh\"\n")
            .unwrap()
            .transport,
        TransportConfig::Iroh {}
    );
    assert!(matches!(
        parse("name = \"x\"\nbogus = 1\n"),
        Err(Error::Parse(_))
    ));
    let dup = "name = \"x\"\n[[app]]\nid = \"a\"\nupstream = \":1\"\n[[app]]\nid = \"a\"\nupstream = \":2\"\n";
    assert!(matches!(
        parse(dup),
        Err(Error::DuplicateAppId(id)) if id == "a"
    ));
    let bad_id = "name = \"x\"\n[[app]]\nid = \"a b\"\nupstream = \":1\"\n";
    assert!(matches!(parse(bad_id), Err(Error::InvalidAppId(_))));
    let bad_port = "name = \"x\"\n[[app]]\nid = \"a\"\nupstream = \"app\"\n";
    assert!(matches!(
        parse(bad_port),
        Err(Error::InvalidUpstream { app, .. }) if app == "a"
    ));
    // An unknown kind is a contract violation, not a free-form label.
    let bad_kind = "name = \"x\"\n[[app]]\nid = \"a\"\nkind = \"plex\"\nupstream = \":1\"\n";
    assert!(matches!(parse(bad_kind), Err(Error::Parse(_))));
}

#[test]
fn the_first_bad_app_decides() {
    let two = "name = \"x\"\n[[app]]\nid = \"a\"\nupstream = \"app\"\n[[app]]\nid = \"-\"\nupstream = \":1\"\n";
    assert_eq!(
        parse(two).unwrap_err().message(),
        "app a: invalid upstream: expected host:port or :port, got 'app'"
    );
    // A blank name is no name.
    assert!(matches!(
        parse("name = \" \\u00a0\"\n"),
        Err(Error::EmptyName)
    ));
}

#[test]
fn config_errors_have_messages() {
    assert_eq!(
        Error::Read("a/b".into(), "denied".into()).message(),
        "cannot read a/b: denied"
    );
    assert_eq!(Error::Parse("line 1".into()).message(), "line 1");
    assert_eq!(Error::EmptyName.message(), "share name is empty");
    assert_eq!(
        Error::InvalidAppId("a b".into()).message(),
        "app a b: invalid id (use letters, digits, '-' or '_')"
    );
    assert_eq!(
        Error::DuplicateAppId("a".into()).message(),
        "app a: duplicate id"
    );
}

#[test]
fn hash_tracks_what_guests_see() {
    let a = parse(FULL).unwrap();
    let same = parse(&format!("{}\n# a comment\n", FULL)).unwrap();
    assert_eq!(a.config_hash(), same.config_hash());
    let renamed = parse(&FULL.replace("Jellyfin", "Movies")).unwrap();
    assert_ne!(a.config_hash(), renamed.config_hash());
    let reordered = parse(&FULL.replace("photos", "aphotos")).unwrap();
    assert_ne!(a.config_hash(), reordered.config_hash());
}

#[test]
fn hashes_are_fnv1a_of_the_separated_fields() {
    let hash = |bytes: &[u8]| {
        bytes.iter().fold(0xcbf29ce484222325u64, |h, b| {
            (h ^ u64::from(*b)).wrapping_mul(0x100000001b3)
        })
    };
    let bare = parse("name = \"x\"\n").unwrap();
    assert_eq!(bare.config_hash(), hash(b"wispers-connect\0x\0"));
    let full = parse(FULL).unwrap();
    assert_eq!(
        full.config_hash(),
        hash(
            b"wispers-connect\0Family\0jellyfin\0Jellyfin\0jellyfin\x00127.0.0.1:8096\0photos\0photos\0web\0localhost:2283\0"
        )
    );
    assert_eq!(full.copied().config_hash(), full.config_hash());
}

#[test]
fn template_round_trips() {
    let transport = TransportConfig::WispersConnect {
        backend: Some("https://h.example".to_owned()),
    };
    let cfg = parse(&render_template("It's \"Demo\"", &transport)).unwrap();
    assert_eq!(cfg.name, "It's \"Demo\"");
    assert_eq!(cfg.transport, transport);
    // The app block is commented out, so nothing is served until edited.
    assert!(cfg.apps.is_empty());

    let managed = parse(&render_template("x", &TransportConfig::default())).unwrap();
    assert_eq!(managed.transport, TransportConfig::default());
}

#[test]
fn templates_say_how_to_edit_them() {
    assert_eq!(
        render_template("x", &TransportConfig::Iroh {}),
        "# This share's config. Edit freely and apply with `waserver reload`.\n\
         # Reference: one [[app]] block per shared app.\n\nname = \"x\"\n\n[transport]\n\
         kind = \"iroh\"\n\n# One [[app]] block per app. Keep `id` stable, guest nodes refer to it.\n\
         # `upstream` is host:port, or :port for localhost.\n\
         #\n# [[app]]\n# id = \"myapp\"\n# name = \"My App\"\n# upstream = \":3000\"\n"
    );
}

#[test]
fn transports_have_names() {
    assert_eq!(TransportConfig::default().kind(), TransportKind::WispersConnect);
    assert_eq!(TransportKind::WispersConnect.as_str(), "wispers-connect");
    assert_eq!(TransportConfig::Iroh {}.kind().as_str(), "iroh");
}

#[test]
fn config_parses_upstream_forms() {
    assert_eq!(parse_upstream("app:3000").unwrap(), "app:3000");
    assert_eq!(parse_upstream("127.0.0.1:8080").unwrap(), "127.0.0.1:8080");
    assert_eq!(parse_upstream(":3000").unwrap(), "localhost:3000");
    assert_eq!(parse_upstream("  app:3000\n").unwrap(), "app:3000");
}

#[test]
fn config_rejects_bad_upstream() {
    assert!(parse_upstream("").is_err());
    assert!(parse_upstream("8080").is_err()); // bare port: not a form other tools accept
    assert!(parse_upstream("app").is_err()); // no port
    assert!(parse_upstream("app:").is_err()); // empty port
    assert!(parse_upstream("app:abc").is_err()); // non-numeric port
    assert!(parse_upstream("app:0").is_err()); // port 0
    assert!(parse_upstream("app:99999").is_err()); // out of range
}

#[test]
fn bad_upstreams_say_why() {
    assert_eq!(parse_upstream(" ").unwrap_err(), "upstream is empty");
    assert_eq!(
        parse_upstream("app:x").unwrap_err(),
        "invalid port 'x' (expected 1–65535)"
    );
    assert_eq!(
        parse_upstream("app:0").unwrap_err(),
        "port 0 is not a valid upstream"
    );
    // A target that was normalised stays as it is.
    assert_eq!(parse_upstream("a:b:+080").unwrap(), "a:b:80");
    assert_eq!(parse_upstream("a:b:80").unwrap(), "a:b:80");
}

#[test]
fn ids_are_label_safe() {
    assert!(is_valid_id("my-app_2"));
    assert!(!is_valid_id(""));
    assert!(!is_valid_id("-lead"));
    assert!(!is_valid_id("trail_"));
    assert!(!is_valid_id("has space"));
    assert!(!is_valid_id("dot.dot"));
}

#[test]
fn ids_have_a_length_limit() {
    assert!(is_valid_id(&"a".repeat(63)));
    assert!(!is_valid_id(&"a".repeat(64)));
    assert!(!is_valid_id("é"));
}

#[test]
fn dial_targets_are_normal() {
    for given in [":3000", " app:007 ", "a:b:80", "localhost:1"] {
        let target = parse_upstream(given).unwrap();
        assert_eq!(parse_upstream(&target).unwrap(), target);
    }
}

#[test]
fn normal_configs_are_accepted_again() {
    let raw = ShareConfig {
        name: " Family ".to_owned(),
        transport: TransportConfig::default(),
        apps: vec![AppConfig {
            id: "photos".to_owned(),
            name: "  ".to_owned(),
            kind: AppKind::Web,
            upstream: " :08080".to_owned(),
        }],
    };
    let once = ShareConfig::parse(raw).unwrap();
    assert_eq!(once.apps[0].name, "photos");
    assert_eq!(once.apps[0].upstream, "localhost:8080");
    let twice = ShareConfig::parse(once.clone()).unwrap();
    assert_eq!(twice.name, once.name);
    assert_eq!(twice.apps, once.apps);
}

#[test]
fn another_transport_is_another_hash() {
    let connect = parse("name = \"x\"\n").unwrap();
    let iroh = parse("name = \"x\"\n[transport]\nkind = \"iroh\"\n").unwrap();
    assert_ne!(connect.config_hash(), iroh.config_hash());
    // The backend is between the host and its hub.
    let own = "name = \"x\"\n[transport]\nkind = \"wispers-connect\"\nbackend = \"https://h\"\n";
    assert_eq!(parse(own).unwrap().config_hash(), connect.config_hash());
}

#[test]
fn transports_are_read_by_their_names() {
    for kind in [TransportKind::WispersConnect, TransportKind::Iroh] {
        assert_eq!(TransportKind::parse(kind.as_str()), Some(kind));
        let text = format!("name = \"x\"\n[transport]\nkind = \"{}\"\n", kind.as_str());
        assert_eq!(parse(&text).unwrap().transport.kind(), kind);
    }
    assert_eq!(TransportKind::parse("Iroh"), None);
    assert_eq!(
        TransportConfig::from_table("iroh", Some("https://h".to_owned())),
        None
    );
}
