use replay_candles::admin::{
    consume, secret_args, secret_binding_for, url, AdminRequest, BrokerKind, Method, SecretAction,
    ADMIN_KEY_HEADER,
};
use replay_candles::hexadecimal::HexError;
use replay_candles::payload::{
    check_root, check_template, extract_payload_blob, fresh_suffix, input_source,
    names_to_remember, parse_key, payload_with_field, strip_quotes, suffix_of, suffix_of_draw,
    template_source, wire_level, with_line_end, InputSource, KeyError, NoPayload, TemplateError,
    TemplateSource, VetoLevel,
};

const BLOB: &str = "v1.iiLvZCndSf+I3toNPFOtMDQixC2eMYO2TovfKKgepdIW";

#[test]
fn url_join_handles_trailing_slash() {
    assert_eq!(
        url("https://x.workers.dev/", "/admin/accounts"),
        "https://x.workers.dev/admin/accounts"
    );
}

#[test]
fn url_join_handles_no_trailing_slash() {
    assert_eq!(
        url("https://x.workers.dev", "/admin/accounts"),
        "https://x.workers.dev/admin/accounts"
    );
}

#[test]
fn url_join_drops_every_trailing_slash() {
    assert_eq!(url("https://x///", "/a"), "https://x/a");
    assert_eq!(url("///", "/a"), "/a");
    assert_eq!(url("", "/a"), "/a");
}

#[test]
fn requests_go_to_their_routes() {
    let named = |name: &str| name.to_string();
    let cases = [
        (AdminRequest::ListAccounts, Method::Get, "/admin/accounts", false),
        (AdminRequest::AddAccount, Method::Post, "/admin/accounts", true),
        (
            AdminRequest::DeleteAccount { name: named("demo") },
            Method::Delete,
            "/admin/accounts/demo",
            false,
        ),
        (AdminRequest::AdoptTrade, Method::Post, "/admin/adopt-trade", true),
        (
            AdminRequest::TestAccount { name: named("demo") },
            Method::Post,
            "/admin/accounts/demo/test",
            false,
        ),
    ];
    for (request, method, path, body) in cases {
        assert_eq!(request.method(), method);
        assert_eq!(request.path(), path);
        assert_eq!(request.has_body(), body);
    }
    assert_eq!(ADMIN_KEY_HEADER, "X-Admin-Key");
}

#[test]
fn a_response_is_its_body_or_an_error() {
    assert_eq!(consume(200, "200 OK", "yes".into()), Ok("yes".to_string()));
    assert_eq!(consume(204, "204 No Content", "".into()), Ok(String::new()));
    assert_eq!(
        consume(404, "404 Not Found", "no such account".into()),
        Err("worker returned 404 Not Found: no such account".to_string())
    );
    assert!(consume(199, "199", "".into()).is_err());
    assert!(consume(300, "300", "".into()).is_err());
}

#[test]
fn tradenation_binding_uppercases_and_swaps_dashes() {
    assert_eq!(
        secret_binding_for(BrokerKind::TradeNation, "demo-alice"),
        "TN_ACCOUNT_DEMO_ALICE"
    );
}

#[test]
fn oanda_binding_uses_correct_prefix() {
    assert_eq!(secret_binding_for(BrokerKind::Oanda, "live-prod"), "OANDA_ACCOUNT_LIVE_PROD");
}

#[test]
fn binding_leaves_alnum_intact() {
    assert_eq!(secret_binding_for(BrokerKind::TradeNation, "demo1"), "TN_ACCOUNT_DEMO1");
}

#[test]
fn secret_arguments_name_the_worker_and_carry_no_credential() {
    let (binding, worker) = ("TN_ACCOUNT_X".to_string(), "trade-control".to_string());
    assert_eq!(
        secret_args(SecretAction::Put, &binding, &worker),
        vec!["secret", "put", "TN_ACCOUNT_X", "--name", "trade-control"]
    );
    assert_eq!(
        secret_args(SecretAction::Delete, &binding, &worker),
        vec!["secret", "delete", "TN_ACCOUNT_X", "--name", "trade-control"]
    );
}

#[test]
fn extract_payload_from_bare_blob() {
    assert_eq!(extract_payload_blob(BLOB).unwrap(), BLOB);
}

#[test]
fn extract_payload_from_bare_blob_with_whitespace() {
    let padded = format!("  \n{BLOB}\n  ");
    assert_eq!(extract_payload_blob(&padded).unwrap(), BLOB);
}

#[test]
fn extract_payload_from_quoted_bare_blob() {
    assert_eq!(extract_payload_blob("\"v1.abc\"").unwrap(), "v1.abc");
    assert_eq!(extract_payload_blob("'v1.abc'").unwrap(), "v1.abc");
    assert_eq!(extract_payload_blob(&format!(" \n\"{BLOB}\"\n")).unwrap(), BLOB);
    assert_eq!(payload_with_field("\"v1.abc\"", None), Some("v1.abc".to_string()));
    assert_eq!(payload_with_field("'v1.abc'", Some("v1.f".into())), Some("v1.abc".to_string()));
    // One quote alone is no pair, and quotes around something else make no blob.
    assert!(extract_payload_blob("\"v1.abc").is_err());
    assert!(extract_payload_blob("\"v1.abc'").is_err());
    assert!(extract_payload_blob("\"v2.abc\"").is_err());
    // Quotes that open and close more than once are no quotes around the whole.
    assert_eq!(extract_payload_blob("\"v1.old\": \"x\""), Err(NoPayload));
    assert_eq!(extract_payload_blob("'v1.old': 'x'"), Err(NoPayload));
    assert_eq!(payload_with_field("\"v1.old\": \"x\"", None), None);
    assert_eq!(
        extract_payload_blob("\"v1.old\": \"x\"\npayload: \"v1.new\"").unwrap(),
        "v1.new"
    );
}

#[test]
fn extract_payload_from_yaml_body() {
    let yaml = format!(
        "close: 1.23\nhigh: 1.24\nlow: 1.22\ntime: \"2026-05-18T00:00:00Z\"\npayload: \"{BLOB}\"\n"
    );
    assert_eq!(extract_payload_blob(&yaml).unwrap(), BLOB);
}

#[test]
fn extract_payload_from_tradingview_template_with_placeholders() {
    let yaml = format!(
        "close: {{{{close}}}}\nhigh: {{{{high}}}}\nlow: {{{{low}}}}\ntime: \"{{{{time}}}}\"\npayload: \"{BLOB}\"\n"
    );
    assert_eq!(extract_payload_blob(&yaml).unwrap(), BLOB);
}

#[test]
fn extract_payload_rejects_missing_payload() {
    let yaml = "close: 1\nhigh: 2\nlow: 0\ntime: \"now\"\n";
    assert!(extract_payload_blob(yaml).is_err());
    assert_eq!(extract_payload_blob(""), Err(NoPayload));
}

#[test]
fn the_yaml_field_is_taken_as_the_parser_reads_it() {
    // A folded scalar that no single line holds.
    let folded = "payload: >-\n  v1.abc\n";
    assert_eq!(extract_payload_blob(folded).unwrap(), "v1.abc");
    // A field that is no payload falls back to the lines.
    assert!(extract_payload_blob("payload: 12\n").is_err());
}

#[test]
fn a_payload_by_its_field_or_its_lines() {
    assert_eq!(payload_with_field("x: 1", Some("v1.f".into())), Some("v1.f".to_string()));
    assert_eq!(payload_with_field("v1.b", Some("v1.f".into())), Some("v1.b".to_string()));
    assert_eq!(payload_with_field("x: 1", Some("v2.f".into())), None);
    let body = "a: {{b}}\r\n  payload:  'v1.q'  \r\npayload: v1.second";
    assert_eq!(payload_with_field(body, None), Some("v1.q".to_string()));
    assert_eq!(payload_with_field("payload: v2.x\npayload: v1.y", None), Some("v1.y".to_string()));
    assert_eq!(payload_with_field("payloads: v1.y", None), None);
}

#[test]
fn quotes_are_stripped_in_pairs() {
    assert_eq!(strip_quotes("  \"a b\"  "), "a b");
    assert_eq!(strip_quotes("'a'"), "a");
    assert_eq!(strip_quotes("\"a'"), "\"a'");
    assert_eq!(strip_quotes("\""), "\"");
    assert_eq!(strip_quotes("\"\""), "");
    assert_eq!(strip_quotes("\u{2003}x\u{3000}"), "x");
    assert_eq!(strip_quotes("'\"a\"'"), "\"a\"");
    assert_eq!(strip_quotes(""), "");
}

#[test]
fn white_space_is_what_the_standard_library_takes_for_it() {
    for n in 0..0x11_0000u32 {
        if let Some(c) = char::from_u32(n) {
            if n > 0x3100 && n % 97 != 0 {
                continue;
            }
            let text = format!("{c}x");
            assert_eq!(strip_quotes(&text) == "x", c.is_whitespace(), "{n:x}");
        }
    }
}

#[test]
fn a_key_is_sixty_four_digits() {
    let hex = "000102030405060708090a0b0c0d0e0f101112131415161718191A1B1C1D1E1F";
    let key = parse_key(&format!(" {hex}\n")).unwrap();
    assert_eq!(key, (0u8..32).collect::<Vec<u8>>());
    assert_eq!(parse_key("00"), Err(KeyError::WrongLength));
    assert_eq!(parse_key(""), Err(KeyError::WrongLength));
    assert_eq!(parse_key("000"), Err(KeyError::NotHex(HexError::OddLength)));
    assert_eq!(
        parse_key("0g"),
        Err(KeyError::NotHex(HexError::InvalidCharacter { c: 'g', index: 1 }))
    );
    assert_eq!(
        parse_key("é"),
        Err(KeyError::NotHex(HexError::InvalidCharacter { c: 'Ã', index: 0 }))
    );
}

#[test]
fn a_suffix_is_four_lower_case_digits() {
    assert_eq!(suffix_of([0x0a, 0xf3]), "0af3");
    assert_eq!(suffix_of([0xff, 0x00]), "ff00");
    assert_eq!(suffix_of_draw(Ok([0x00, 0xbe])).ok().as_deref(), Some("00be"));
    match suffix_of_draw(Err(getrandom::Error::UNSUPPORTED)) {
        Ok(s) => panic!("{s}"),
        Err(e) => assert_eq!(e.cause, getrandom::Error::UNSUPPORTED),
    }
    match fresh_suffix() {
        Ok(s) => {
            assert_eq!(s.len(), 4);
            assert!(s.chars().all(|c| c.is_ascii_digit() || ('a'..='f').contains(&c)), "{s}");
        }
        Err(e) => panic!("{}", e.cause),
    }
}

#[test]
fn a_template_is_a_mapping() {
    assert_eq!(check_template("a: 1\nb: 2\n"), Ok(()));
    assert_eq!(check_template("- 1\n- 2\n"), Err(TemplateError::NotMapping));
    assert_eq!(check_template("a: {{b}}\n: ["), Err(TemplateError::NotYaml));
    assert_eq!(check_root(Some(true)), Ok(()));
    assert_eq!(check_root(Some(false)), Err(TemplateError::NotMapping));
    assert_eq!(check_root(None), Err(TemplateError::NotYaml));
}

#[test]
fn the_plainest_veto_level_is_not_sent() {
    assert_eq!(wire_level(VetoLevel::StopNextEntry), None);
    assert_eq!(wire_level(VetoLevel::CancelPending), Some(VetoLevel::CancelPending));
    assert_eq!(wire_level(VetoLevel::ClosePositions), Some(VetoLevel::ClosePositions));
}

#[test]
fn inputs_come_in_their_order() {
    let (b, f) = (Some("v1.x".to_string()), Some("file".to_string()));
    assert_eq!(input_source(b.clone(), f.clone()), InputSource::Blob("v1.x".into()));
    assert_eq!(input_source(None, f), InputSource::File("file".into()));
    assert_eq!(input_source(None, None), InputSource::Stdin);
    assert_eq!(template_source(Some("t".into()), true), TemplateSource::File("t".into()));
    assert_eq!(template_source(None, true), TemplateSource::Missing);
    assert_eq!(template_source(None, false), TemplateSource::Ask);
    assert_eq!(with_line_end("a".into()), "a\n");
    assert_eq!(with_line_end("a\n".into()), "a\n");
    assert_eq!(with_line_end("".into()), "\n");
    let clears = vec!["retest".to_string(), "other".to_string()];
    assert_eq!(
        names_to_remember(&"break-and-close".to_string(), &clears),
        vec!["break-and-close", "retest", "other"]
    );
}
