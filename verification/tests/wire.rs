//! The wire contract.
use wispers_access::wire::{
    self, CircleChanged, CircleInfo, CloseCode, ConfigHash, EndpointId, FirstByte, FrameError,
    FrameProblem, HttpPreamble, InviteSecret, Share, ShareInfo, ShareKind, StreamType,
    MAX_MESSAGE_LEN,
};

#[test]
fn first_byte_classes() {
    assert_eq!(FirstByte::from(0x00), FirstByte::Typed(StreamType::Data));
    assert_eq!(FirstByte::from(0x01), FirstByte::Typed(StreamType::Ctrl));
    for method in ["GET", "POST", "OPTIONS", "get"] {
        assert_eq!(FirstByte::from(method.as_bytes()[0]), FirstByte::LegacyHttp);
    }
    assert_eq!(FirstByte::from(0x02), FirstByte::Unknown(0x02));
    assert_eq!(FirstByte::from(b' '), FirstByte::Unknown(b' '));
    assert_eq!(FirstByte::from(0xff), FirstByte::Unknown(0xff));
}

fn circle() -> CircleInfo {
    CircleInfo {
        config_hash: ConfigHash(0xdead_beef),
        name: "Family".into(),
        transport: "wispers-connect".into(),
        shares: vec![Share {
            id: "jf".into(),
            name: "Jellyfin".into(),
            kind: ShareKind::Jellyfin,
        }],
    }
}

/// The JSON shapes are the contract; this pins them.
#[test]
fn message_shapes() {
    let info = circle();
    let json: serde_json::Value = serde_json::from_str(&info.to_json()).unwrap();
    assert_eq!(json["config_hash"], "00000000deadbeef");
    assert_eq!(json["shares"][0]["kind"], "jellyfin");
    let changed = CircleChanged {
        config_hash: ConfigHash(1),
    };
    let mut expected = serde_json::Map::new();
    expected.insert("config_hash".to_owned(), "0000000000000001".into());
    assert_eq!(
        serde_json::from_str::<serde_json::Value>(&changed.to_json()).unwrap(),
        serde_json::Value::Object(expected)
    );
    // A share without a kind is a web app.
    assert_eq!(ShareKind::default(), ShareKind::Web);
    // An unknown kind is a contract violation.
    assert_eq!(ShareKind::parse("plex"), None);
}

#[test]
fn json_texts_are_compact_and_escaped() {
    assert_eq!(
        circle().to_json(),
        "{\"config_hash\":\"00000000deadbeef\",\"name\":\"Family\",\
         \"transport\":\"wispers-connect\",\
         \"shares\":[{\"id\":\"jf\",\"name\":\"Jellyfin\",\"kind\":\"jellyfin\"}]}"
    );
    let info = ShareInfo {
        config_hash: ConfigHash(7),
        name: "It's \"Demo\"\n".into(),
        transport: "iroh".into(),
        apps: vec![],
    };
    assert_eq!(
        info.to_json(),
        "{\"config_hash\":\"0000000000000007\",\"name\":\"It's \\\"Demo\\\"\\n\",\
         \"transport\":\"iroh\",\"apps\":[]}"
    );
    let preamble = HttpPreamble {
        share_id: "jf".into(),
    };
    assert_eq!(preamble.to_json(), "{\"share_id\":\"jf\"}");
}

#[test]
fn etag_forms() {
    let h = ConfigHash(0xdead_beef);
    assert_eq!(h.etag(), "\"00000000deadbeef\"");
    assert!(h.matches_if_none_match("\"00000000deadbeef\""));
    assert!(h.matches_if_none_match("\"0\", \"00000000deadbeef\""));
    assert!(h.matches_if_none_match("W/\"00000000deadbeef\""));
    assert!(h.matches_if_none_match("*"));
    assert!(!h.matches_if_none_match("\"00000000deadbeee\""));
    assert!(!h.matches_if_none_match("00000000deadbeef")); // unquoted is not a tag
    assert_eq!("00000000deadbeef".parse::<ConfigHash>().unwrap(), h);
}

#[test]
fn hashes_read_back_and_bad_ones_do_not() {
    for n in [0, 1, 0xdead_beef, u64::MAX] {
        assert_eq!(ConfigHash::from_hex(&ConfigHash(n).to_hex()), Some(ConfigHash(n)));
    }
    assert_eq!(ConfigHash::from_hex("+Ff"), Some(ConfigHash(255)));
    assert_eq!(ConfigHash::from_hex(""), None);
    assert_eq!(ConfigHash::from_hex("+"), None);
    assert_eq!(ConfigHash::from_hex("-1"), None);
    assert_eq!(ConfigHash::from_hex("10000000000000000"), None);
    assert!("xyz".parse::<ConfigHash>().is_err());
    assert_eq!(ConfigHash::default(), ConfigHash(0));
}

#[test]
fn share_kinds_have_names() {
    for kind in [ShareKind::Web, ShareKind::Jellyfin, ShareKind::Immich] {
        assert_eq!(ShareKind::parse(kind.as_str()), Some(kind));
    }
    assert_eq!(ShareKind::Immich.as_str(), "immich");
}

/// A preamble framed on a stream reads back, after the byte that opens the stream.
#[test]
fn preamble_round_trips() {
    let preamble = HttpPreamble {
        share_id: "jf".into(),
    };
    let mut stream = wire::write_stream_type(StreamType::Data);
    stream.extend(wire::write_message(&preamble.to_json().into_bytes()));
    assert_eq!(
        FirstByte::from(stream[0]),
        FirstByte::Typed(StreamType::Data)
    );
    let body = wire::read_message(&stream[1..]).unwrap();
    let back: serde_json::Value = serde_json::from_slice(&body).unwrap();
    assert_eq!(back["share_id"], "jf");
    assert_eq!(wire::write_stream_type(StreamType::Ctrl), vec![0x01]);
}

#[test]
fn oversized_and_truncated_messages_are_errors() {
    let header = (MAX_MESSAGE_LEN + 1).to_be_bytes();
    assert_eq!(
        wire::read_message(&header),
        Err(FrameProblem::TooLong(MAX_MESSAGE_LEN + 1))
    );
    assert_eq!(
        wire::message_len(&header),
        Err(FrameProblem::TooLong(MAX_MESSAGE_LEN + 1))
    );

    let mut short = 8u32.to_be_bytes().to_vec();
    short.extend([1, 2, 3]);
    assert_eq!(wire::read_message(&short), Err(FrameProblem::Truncated));
    assert_eq!(wire::read_message(&[0, 0]), Err(FrameProblem::Truncated));

    // What is framed is not looked into.
    let mut garbage = 3u32.to_be_bytes().to_vec();
    garbage.extend(b"{{{");
    let body = wire::read_message(&garbage).unwrap();
    assert!(serde_json::from_slice::<serde_json::Value>(&body).is_err());
}

#[test]
fn frame_errors_have_messages() {
    assert_eq!(
        FrameError::TooLong(70000).message(),
        "message of 70000 bytes exceeds the 65536 byte limit"
    );
    assert_eq!(FrameError::Io("gone".into()).message(), "io: gone");
    assert_eq!(
        FrameError::Decode("bad".into()).message(),
        "malformed message: bad"
    );
}

#[test]
fn json_strings_escape_what_json_asks_for() {
    let preamble = |id: &str| {
        HttpPreamble {
            share_id: id.to_owned(),
        }
        .to_json()
    };
    assert_eq!(
        preamble("a\"\\/\u{8}\t\n\u{b}\u{c}\r\u{0}\u{1f} \u{7f}é\u{2028}😀"),
        "{\"share_id\":\"a\\\"\\\\/\\b\\t\\n\\u000b\\f\\r\\u0000\\u001f \u{7f}é\u{2028}😀\"}"
    );
    assert_eq!(preamble(""), "{\"share_id\":\"\"}");
}

#[test]
fn secrets_and_keys_read_back_from_hexadecimal() {
    let secret = InviteSecret([0, 1, 2, 3, 4, 5, 6, 7, 8, 9, 10, 0x7f, 0x80, 0xab, 0xfe, 0xff]);
    assert_eq!(secret.to_hex(), "000102030405060708090a7f80abfeff");
    assert_eq!(
        InviteSecret::from_hex("000102030405060708090a7f80abfeff"),
        Some(secret)
    );
    for digits in ["", "00", "000102030405060708090A7F80ABFEFF", &"0".repeat(31), &"g".repeat(32)] {
        assert_eq!(InviteSecret::from_hex(digits), None);
    }
    let key = EndpointId([0xc3; 32]);
    assert_eq!(key.to_hex(), "c3".repeat(32));
    assert_eq!(EndpointId::from_hex(&key.to_hex()), Some(key));
    assert_eq!(EndpointId::from_hex(&"c3".repeat(31)), None);
}

#[test]
fn close_codes_have_numbers_and_reasons() {
    for (code, number, reason) in [
        (CloseCode::Unknown, 1, "unknown"),
        (CloseCode::Revoked, 2, "revoked"),
        (CloseCode::Closing, 3, "closing"),
    ] {
        assert_eq!((code.code(), code.reason()), (number, reason));
        assert_eq!(CloseCode::from_code(u64::from(number)), Some(code));
    }
    for number in [0, 4, (1 << 32) + 1, u64::MAX] {
        assert_eq!(CloseCode::from_code(number), None);
    }
}
