//! The host's command line.
use wispers_access::guest::invite::parse_wax_code;
use wispers_access::server::cli::{
    compose_wax_code, encode_backend, invite, log_files, minted_code, normalize_backend,
    parse_upstream, render_qr_ansi, stop, AfterList, Asked, AtEnd, Logs, QrModules,
};
use wispers_access::server::config::TransportConfig;
use wispers_access::server::init::{
    down, initialised, undo_failed, up, DownStep, InitStep, Rollback,
};
use wispers_access::server::ipc::{AppData, InviteData, Response, ResponseData, StatusData};

#[test]
fn wax_code_keeps_activation_code_verbatim() {
    assert_eq!(
        compose_wax_code("ab12cd", "1-xyz789", None),
        "wax_ab12cd_1-xyz789"
    );
}

#[test]
fn wax_code_appends_encoded_backend() {
    let code = compose_wax_code("ab12cd", "1-xyz789", Some("https://myhub.example.com"));
    let expected_backend = encode_backend("https://myhub.example.com");
    assert_eq!(code, format!("wax_ab12cd_1-xyz789_{}", expected_backend));
    // The backend field must not reintroduce the '_' delimiter.
    assert!(!expected_backend.contains('_'));
    // Round-trips back to the original URL.
    let decoded = data_encoding::BASE32_NOPAD
        .decode(expected_backend.to_uppercase().as_bytes())
        .unwrap();
    assert_eq!(decoded, b"https://myhub.example.com");
}

#[test]
fn backends_are_encoded_in_lower_case_base32() {
    assert_eq!(encode_backend(""), "");
    assert_eq!(encode_backend("f"), "my");
    assert_eq!(encode_backend("fo"), "mzxq");
    assert_eq!(encode_backend("foobar"), "mzxw6ytboi");
}

#[test]
fn normalize_backend_requires_https_and_trims() {
    assert_eq!(normalize_backend(None).unwrap(), None);
    assert_eq!(
        normalize_backend(Some("https://h.example.com/")).unwrap(),
        Some("https://h.example.com".to_owned())
    );
    assert!(normalize_backend(Some("http://h.example.com")).is_err());
    assert!(normalize_backend(Some("h.example.com")).is_err());
    assert!(normalize_backend(Some("https://")).is_err());
    // Blank/empty (e.g. an unset dashboard env) is managed, not an error.
    assert_eq!(normalize_backend(Some("")).unwrap(), None);
    assert_eq!(normalize_backend(Some("   ")).unwrap(), None);
}

#[test]
fn bad_backends_say_why() {
    assert_eq!(
        normalize_backend(Some(" ftp://x/ ")).unwrap_err(),
        "backend URL must start with https:// (got ' ftp://x/ ')"
    );
}

#[test]
fn main_parses_upstream_forms() {
    assert_eq!(parse_upstream("8080").unwrap(), "localhost:8080");
    assert_eq!(parse_upstream("app:3000").unwrap(), "app:3000");
    assert_eq!(parse_upstream("127.0.0.1:8080").unwrap(), "127.0.0.1:8080");
    assert_eq!(parse_upstream(":3000").unwrap(), "localhost:3000");
    assert_eq!(parse_upstream("  app:3000\n").unwrap(), "app:3000");
}

#[test]
fn main_rejects_bad_upstream() {
    assert!(parse_upstream("").is_err());
    assert!(parse_upstream("app").is_err()); // no port
    assert!(parse_upstream("app:").is_err()); // empty port
    assert!(parse_upstream("app:abc").is_err()); // non-numeric port
    assert!(parse_upstream("app:0").is_err()); // port 0
    assert!(parse_upstream("app:99999").is_err()); // out of range
}

#[test]
fn qr_codes_are_dark_on_light() {
    let qr = QrModules {
        width: 1,
        dark: vec![true],
    };
    let shown = render_qr_ansi(&qr);
    let lines: Vec<&str> = shown.lines().collect();
    // Nine rows with the quiet zone, two to a line.
    assert_eq!(lines.len(), 5);
    let light = "\x1b[38;2;255;255;255m\x1b[48;2;255;255;255m\u{2580}";
    let dark_above = "\x1b[38;2;0;0;0m\x1b[48;2;255;255;255m\u{2580}";
    assert_eq!(lines[0], format!("{}\x1b[0m", light.repeat(9)));
    assert_eq!(
        lines[2],
        format!("{}{}{}\x1b[0m", light.repeat(4), dark_above, light.repeat(4))
    );
    assert!(shown.ends_with("\x1b[0m\n"));
}

fn minted(code: &str) -> Asked {
    Asked::Answered(Response::success(ResponseData::Invite(InviteData {
        code: code.to_owned(),
    })))
}

#[test]
fn invites_are_shown_with_their_qr_code() {
    let shown = invite("family", minted("wax_a_1-b")).unwrap();
    let output = shown.output;
    assert!(output.starts_with("Invite code (valid for 24 hours):\n\n  wax_a_1-b\n\n\x1b["));
    let qr = qrcode::QrCode::new("wax_a_1-b").unwrap();
    let modules = QrModules {
        width: qr.width(),
        dark: qr
            .to_colors()
            .into_iter()
            .map(|c| c == qrcode::Color::Dark)
            .collect(),
    };
    assert!(output.contains(&render_qr_ansi(&modules)));
    assert_eq!(shown.qr, modules);
    // Too much for a QR code.
    assert_eq!(
        invite("family", minted(&"x".repeat(5000))),
        Err("cannot build QR code".to_owned())
    );
}

#[test]
fn requests_to_the_server_can_fail() {
    assert_eq!(minted_code("family", minted("c")), Ok("c".to_owned()));
    assert_eq!(
        minted_code("family", Asked::NoServer),
        Err("cannot connect to server for share family".to_owned())
    );
    assert_eq!(
        invite("family", Asked::Failed("x".to_owned())),
        Err("error sending command to server: x".to_owned())
    );
    assert_eq!(
        minted_code(
            "family",
            Asked::Answered(Response::error("full".to_owned()))
        ),
        Err("error generating invite: full".to_owned())
    );
    assert_eq!(
        minted_code(
            "family",
            Asked::Answered(Response::success(ResponseData::Empty))
        ),
        Err("unexpected response from server".to_owned())
    );
    assert_eq!(
        stop(
            "family",
            Asked::Answered(Response::success(ResponseData::Empty))
        ),
        Ok(())
    );
    assert_eq!(
        stop("family", Asked::Answered(Response::error("x".to_owned()))),
        Err("error stopping server: x".to_owned())
    );
    assert!(stop("family", Asked::NoServer).is_err());
    assert!(stop("family", Asked::Failed("x".to_owned())).is_err());
}

fn files(names: &[&str]) -> Vec<String> {
    names.iter().map(|n| (*n).to_owned()).collect()
}

#[test]
fn logs_follow_their_rotation() {
    assert!(Logs::start(Vec::new()).is_none());
    let mut logs = Logs::start(files(&["log.1", "log.2"])).unwrap();
    assert_eq!(logs.path, "log.1");
    assert_eq!(logs.at_end(true), AtEnd::Open);
    assert_eq!(logs.path, "log.2");
    assert_eq!(logs.at_end(false), AtEnd::Done);
    assert_eq!(logs.at_end(true), AtEnd::ListAgain);
    assert_eq!(
        logs.listed_again(files(&["log.1", "log.2"])),
        AfterList::Wait
    );
    assert_eq!(
        logs.listed_again(files(&["log.2", "log.3", "log.4"])),
        AfterList::Open
    );
    assert_eq!(logs.path, "log.3");
    assert_eq!(logs.at_end(true), AtEnd::Open);
    assert_eq!(logs.path, "log.4");
    assert_eq!(logs.at_end(true), AtEnd::ListAgain);
}

#[test]
fn failed_inits_are_rolled_back_in_reverse() {
    let mut rollback: Rollback<u8> = Rollback::new();
    rollback.push("connectivity group", 1);
    rollback.push("share directory", 2);
    assert_eq!(
        rollback.run(),
        [("share directory", 2), ("connectivity group", 1)]
    );
    assert_eq!(
        undo_failed("share directory", "busy"),
        "Init failed; could not undo the share directory either (busy)."
    );
}

#[test]
fn inits_have_steps() {
    let plan = up("s", false, "My Share", &TransportConfig::default()).unwrap();
    assert!(plan.config_text.contains("name = \"My Share\"\n"));
    let left: Vec<&str> = plan.steps.iter().filter_map(|s| s.leaves()).collect();
    assert_eq!(left, ["connectivity group", "share directory"]);
    let plan = up("s", false, "x", &TransportConfig::Iroh {}).unwrap();
    assert_eq!(plan.steps, [InitStep::CreateDirectory, InitStep::StoreKey]);
    assert!(matches!(
        up("s", true, "x", &TransportConfig::Iroh {}),
        Err(e) if e == "Share s already exists"
    ));
    assert_eq!(
        initialised("s", "/c/share.toml"),
        "Share s initialised. Add its apps to /c/share.toml and run `waserver serve s`."
    );
}

#[test]
fn running_shares_are_not_torn_down() {
    let connect = TransportConfig::default();
    assert_eq!(down("s", &connect, true, None), Ok(DownStep::RemoveGroup));
    assert_eq!(down("s", &connect, false, None), Ok(DownStep::RemoveDirectory));
    assert_eq!(
        down("s", &TransportConfig::Iroh {}, true, None),
        Ok(DownStep::RemoveDirectory)
    );
    assert_eq!(
        down("s", &connect, true, Some(None)),
        Err("share 's' has a running server; stop it first with `waserver stop s`".to_owned())
    );
    let app = |id: &str| AppData {
        id: id.to_owned(),
        name: String::new(),
        kind: Default::default(),
        upstream: String::new(),
    };
    let status = Response::success(ResponseData::Status(StatusData {
        reachable: true,
        apps: vec![app("a"), app("b")],
        config_hash: 0,
        pid: 1,
        started_at: String::new(),
        connected_since: None,
        connected_guests: None,
    }));
    assert_eq!(
        down("s", &connect, true, Some(Some(status))),
        Err(
            "share 's' has a running server serving a, b; stop it first with `waserver stop s`"
                .to_owned()
        )
    );
}

#[test]
fn invite_codes_say_what_was_put_in() {
    for backend in [None, Some("https://myhub.example.com")] {
        let invite = parse_wax_code(&compose_wax_code("ab12cd", "1-xyz789", backend)).unwrap();
        assert_eq!(invite.registration_token, "ab12cd");
        assert_eq!(invite.activation_code, "1-xyz789");
        assert_eq!(invite.backend.as_deref(), backend);
    }
    for code in ["nope", "wax_a", "wax_a_b_c_d", "xaw_a_b", ""] {
        assert_eq!(parse_wax_code(code).unwrap_err(), "not an invite code");
    }
    for code in ["wax__b", "wax_a_"] {
        assert_eq!(
            parse_wax_code(code).unwrap_err(),
            "the invite code is incomplete"
        );
    }
    for field in ["1", "a", "mz", "74"] {
        assert_eq!(
            parse_wax_code(&format!("wax_a_b_{field}")).unwrap_err(),
            "the invite code's backend cannot be read"
        );
    }
    for url in ["http://x", "https://", ""] {
        assert_eq!(
            parse_wax_code(&compose_wax_code("a", "b", Some(url))).unwrap_err(),
            "the invite code's backend must start with https://"
        );
    }
}

#[test]
fn log_files_are_told_by_their_names_and_sorted() {
    let names = |names: &[&str]| names.iter().map(|n| n.to_string()).collect::<Vec<_>>();
    assert_eq!(
        log_files(names(&[
            "waserver.log.2026-07-21",
            "notes.txt",
            "waserver.log",
            "waserver.log.2026-07-20",
            "old-waserver.log",
        ])),
        ["waserver.log", "waserver.log.2026-07-20", "waserver.log.2026-07-21"]
    );
    assert!(log_files(names(&["waserver.lo"])).is_empty());
}
