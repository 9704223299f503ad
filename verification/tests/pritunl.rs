use conduit::json::JsonValue;
use conduit::provider::pritunl::{
    auth_key_of, base64_decode, connect_password, parse_profile_conf, parse_service_response, service_outcome,
    service_request_text, sort_profiles, with_keychain_data, PritunlProfile, PritunlProvider,
};
use conduit::provider::{ConnectOptions, ProviderConfig, VpnError};
use conduit::strmap::StrMap;

/// Compares two JSON texts as documents (member order aside).
fn same_json(actual: &str, expected: &str) {
    let a: serde_json::Value = serde_json::from_str(actual).unwrap();
    let e: serde_json::Value = serde_json::from_str(expected).unwrap();
    assert_eq!(a, e);
}

fn profile(id: &str, name: &str) -> PritunlProfile {
    PritunlProfile {
        id: id.to_string(),
        name: name.to_string(),
        server: name.to_string(),
        organization: String::new(),
        user: String::new(),
        password_mode: None,
    }
}

#[test]
fn pritunl_base64_decoding() {
    assert_eq!(base64_decode("aGVsbG8=").unwrap(), "hello");
    assert_eq!(base64_decode(" aGVs\nbG8gd29y bGQ= ").unwrap(), "hello world");
    assert_eq!(base64_decode("").unwrap(), "");
    assert_eq!(base64_decode("QQ").unwrap(), "A");
    assert_eq!(base64_decode("QUI").unwrap(), "AB");
    assert_eq!(base64_decode("QUJD" ).unwrap(), "ABC");
    assert_eq!(base64_decode("QUJDR").unwrap(), "ABC");
    match base64_decode("a*==") {
        Err(VpnError::ParseError(m)) => assert_eq!(m, "Invalid base64"),
        other => panic!("expected invalid base64, got {:?}", other),
    }
    assert!(matches!(base64_decode("/w=="), Err(VpnError::ParseError(_))));
}

#[test]
fn pritunl_profiles_from_conf() {
    let p = PritunlProfile::from_conf(
        "abc".to_string(),
        r#"{"server":"vpn.example.com","organization":"org","user":"alice","password_mode":"otp"}"#,
    )
    .unwrap();
    assert_eq!(p.id, "abc");
    assert_eq!(p.name, "vpn.example.com");
    assert_eq!(p.organization, "org");
    assert_eq!(p.user, "alice");
    assert_eq!(p.password_mode.as_deref(), Some("otp"));
    let q = PritunlProfile::from_conf("xyz".to_string(), r#"{"server": 5}"#).unwrap();
    assert_eq!(q.name, "xyz");
    assert_eq!(q.server, "");
    assert!(q.password_mode.is_none());
    assert!(PritunlProfile::from_conf("bad".to_string(), "not json").is_none());
}

#[test]
fn pritunl_profiles_sorted_by_name_stably() {
    let sorted = sort_profiles(vec![profile("1", "zeta"), profile("2", "alpha"), profile("3", "beta"), profile("4", "alpha")]);
    let ids: Vec<&str> = sorted.iter().map(|p| p.id.as_str()).collect();
    assert_eq!(ids, vec!["2", "4", "3", "1"]);
    let sorted = sort_profiles(vec![profile("a", "b"), profile("b", "B"), profile("c", "ba")]);
    let names: Vec<&str> = sorted.iter().map(|p| p.name.as_str()).collect();
    assert_eq!(names, vec!["B", "b", "ba"]);
    assert!(sort_profiles(vec![]).is_empty());
}

#[test]
fn pritunl_status_extra_from_profiles() {
    let mut known = profile("p1", "Office");
    known.user = "bob".to_string();
    known.password_mode = Some("pin".to_string());
    let profiles = vec![profile("p0", "Home"), known];
    let p = PritunlProvider::with_profile("p1");
    let extra = p.status_extra(&profiles);
    assert_eq!(extra.get("profile").map(|s| s.as_str()), Some("p1"));
    assert_eq!(extra.get("server").map(|s| s.as_str()), Some("Office"));
    assert_eq!(extra.get("user").map(|s| s.as_str()), Some("bob"));
    assert_eq!(extra.get("password_mode").map(|s| s.as_str()), Some("pin"));
    assert_eq!(PritunlProvider::new().status_extra(&profiles).len(), 0);
    let unknown = PritunlProvider::with_profile("zz").status_extra(&profiles);
    assert_eq!(unknown.len(), 1);
}

#[test]
fn pritunl_status_from_service_answers() {
    let answer = r#"{"p1":{"status":"connecting","client_address":"10.0.0.9"},
                     "p2":{"status":"connected","client_address":"10.0.0.2","server_address":"1.2.3.4"}}"#;
    let p = PritunlProvider::with_profile("p2");
    let st = p.status_from_response(StrMap::new(), Some((200, answer.to_string())));
    assert!(st.connected);
    assert_eq!(st.ip.as_deref(), Some("10.0.0.2"));
    assert_eq!(st.extra.get("server_address").map(|s| s.as_str()), Some("1.2.3.4"));
    let other = PritunlProvider::with_profile("p1").status_from_response(StrMap::new(), Some((200, answer.to_string())));
    assert!(!other.connected);
    assert!(other.ip.is_none());
    let any = PritunlProvider::new().status_from_response(StrMap::new(), Some((200, answer.to_string())));
    assert!(any.connected);
    let refused = p.status_from_response(StrMap::new(), Some((500, answer.to_string())));
    assert!(!refused.connected);
    let unreachable = p.status_from_response(StrMap::new(), None);
    assert!(!unreachable.connected);
    assert_eq!(unreachable.provider, "Pritunl");
    let garbage = p.status_from_response(StrMap::new(), Some((200, "<html>".to_string())));
    assert!(!garbage.connected);
    let empty_address = PritunlProvider::new().status_from_response(
        StrMap::new(),
        Some((200, r#"{"a":{"status":"connected","client_address":""}}"#.to_string())),
    );
    assert!(empty_address.connected);
    assert!(empty_address.ip.is_none());
    assert_eq!(empty_address.extra.len(), 0);
}

#[test]
fn pritunl_service_request_and_response() {
    let request = service_request_text("POST", "/profile", "KEY", Some("{\"id\":\"é\"}"));
    assert_eq!(
        request,
        "POST /profile HTTP/1.1\r\nHost: unix\r\nAuth-Key: KEY\r\nUser-Agent: pritunl\r\nContent-Type: application/json\r\nContent-Length: 11\r\nConnection: close\r\n\r\n{\"id\":\"é\"}"
    );
    let get = service_request_text("GET", "/profile", "K", None);
    assert!(get.ends_with("Content-Length: 0\r\nConnection: close\r\n\r\n"));
    let (code, body) = parse_service_response(b"HTTP/1.1 200 OK\r\nContent-Type: application/json\r\n\r\n{\"a\":1}");
    assert_eq!(code, 200);
    assert_eq!(body, "{\"a\":1}");
    let (code, body) = parse_service_response(b"HTTP/1.1 abc OK\r\n\r\n");
    assert_eq!(code, 0);
    assert_eq!(body, "");
    let (code, body) = parse_service_response(b"");
    assert_eq!(code, 0);
    assert_eq!(body, "");
    let (code, _) = parse_service_response(b"HTTP/1.1 +404 Not Found");
    assert_eq!(code, 404);
    let (code, _) = parse_service_response(b"HTTP/1.1 70000 Huge\r\n\r\nx");
    assert_eq!(code, 0);
}

#[test]
fn pritunl_outcomes_and_checks() {
    assert!(service_outcome("connect", 200, "").is_ok());
    match service_outcome("disconnect", 403, "denied") {
        Err(VpnError::CliError(m)) => assert_eq!(m, "Pritunl disconnect failed (403): denied"),
        other => panic!("expected a CLI error, got {:?}", other),
    }
    match PritunlProvider::new().check_profile() {
        Err(VpnError::CliError(m)) => assert_eq!(m, "No Pritunl profile selected"),
        other => panic!("expected a CLI error, got {:?}", other),
    }
    assert!(PritunlProvider::with_profile("x").check_profile().is_ok());
    let opts = ConnectOptions { provider_config: Some(ProviderConfig::Pritunl { profile_id: "x".to_string(), password: Some("pw".to_string()) }) };
    assert_eq!(connect_password(&opts).as_deref(), Some("pw"));
    assert!(connect_password(&ConnectOptions { provider_config: None }).is_none());
    match PritunlProvider::with_profile("x").get_config() {
        ProviderConfig::Pritunl { profile_id, password } => {
            assert_eq!(profile_id, "x");
            assert!(password.is_none());
        }
        _ => panic!("Pritunl reports a Pritunl configuration"),
    }
    assert_eq!(PritunlProvider::new().name(), "Pritunl");
    assert!(!PritunlProvider::new().has_profile());
}

#[test]
fn pritunl_request_bodies() {
    let conf = parse_profile_conf(
        r#"{"wg":true,"organization_id":"o1","user_id":"u1","server_id":"s1","sync_hosts":["h1","h2"],
            "sync_token":"t","sync_secret":"sec","dynamic_firewall":true,"server_public_key":["k1",3,"k2"],
            "server_box_public_key":"box","token_ttl":60,"disable_reconnect":true}"#,
    )
    .unwrap();
    let body = PritunlProvider::with_profile("pid").connect_body(Some("pw"), conf, "DATA".to_string());
    same_json(
        &body.render(),
        r#"{"data":"DATA","device_auth":false,"dynamic_firewall":true,"id":"pid","mode":"wg","org_id":"o1","password":"pw","reconnect":false,"server_box_public_key":"box","server_id":"s1","server_public_key":"k1\nk2","sso_auth":false,"sync_hosts":["h1","h2"],"sync_secret":"sec","sync_token":"t","timeout":false,"token_ttl":60,"user_id":"u1","username":"pritunl"}"#
    );
    let bare = PritunlProvider::with_profile("p").connect_body(None, JsonValue::Null, String::new());
    same_json(
        &bare.render(),
        r#"{"data":"","device_auth":false,"dynamic_firewall":false,"id":"p","mode":"ovpn","org_id":"","password":"","reconnect":true,"server_box_public_key":null,"server_id":"","server_public_key":null,"sso_auth":false,"sync_hosts":null,"sync_secret":"","sync_token":"","timeout":false,"token_ttl":2592000,"user_id":"","username":"pritunl"}"#
    );
    assert_eq!(PritunlProvider::with_profile("p9").disconnect_body().unwrap().render(), r#"{"id":"p9"}"#);
    assert!(PritunlProvider::new().disconnect_body().is_none());
    match parse_profile_conf("{oops") {
        Err(VpnError::ParseError(m)) => assert!(m.starts_with("Failed to parse profile conf: ")),
        other => panic!("expected a parse error, got {:?}", other),
    }
}

#[test]
fn pritunl_keychain_data() {
    assert_eq!(with_keychain_data("conf".to_string(), true, b"  a2V5\n"), "confkey");
    assert_eq!(with_keychain_data("conf".to_string(), false, b"a2V5"), "conf");
    assert_eq!(with_keychain_data("conf".to_string(), true, b"   "), "conf");
    assert_eq!(with_keychain_data("conf".to_string(), true, b"!!!!"), "conf");
}

/// Standard base64 of `data`, with or without `=` padding.
fn encode_base64(data: &[u8], padded: bool) -> String {
    const DIGITS: &[u8] = b"ABCDEFGHIJKLMNOPQRSTUVWXYZabcdefghijklmnopqrstuvwxyz0123456789+/";
    let mut out = String::new();
    for chunk in data.chunks(3) {
        let x = chunk[0];
        let y = if chunk.len() > 1 { chunk[1] } else { 0 };
        let z = if chunk.len() > 2 { chunk[2] } else { 0 };
        let digits = [x >> 2, ((x & 3) << 4) | (y >> 4), ((y & 15) << 2) | (z >> 6), z & 63];
        for d in &digits[..chunk.len() + 1] {
            out.push(DIGITS[*d as usize] as char);
        }
        if padded {
            for _ in chunk.len()..3 {
                out.push('=');
            }
        }
    }
    out
}

#[test]
fn pritunl_base64_round_trip() {
    for text in ["", "a", "ab", "abc", "hello world", "key:\n-----BEGIN-----", "h\u{e9}llo \u{2713} \u{1F600}"] {
        for padded in [true, false] {
            let encoded = encode_base64(text.as_bytes(), padded);
            assert_eq!(base64_decode(&encoded).unwrap(), text);
            let spaced: String = encoded.chars().flat_map(|c| [c, '\n', ' ']).collect();
            assert_eq!(base64_decode(&format!("\t{}", spaced)).unwrap(), text);
        }
    }
}

#[test]
fn pritunl_auth_key_trimmed() {
    assert_eq!(auth_key_of("  abc123\n"), "abc123");
    assert_eq!(auth_key_of("\n\t"), "");
    assert_eq!(auth_key_of("k e y"), "k e y");
}

#[test]
fn pritunl_conf_floats_render_as_parsed() {
    let text = r#"{"a": 0.1, "b": 1e-7, "c": 2.5, "d": 1.7976931348623157e308, "e": 2.2250738585072014e-308, "f": 0.30000000000000004, "g": 8.98846567431158e307, "h": -3.14159265358979323846}"#;
    let expected = serde_json::from_str::<serde_json::Value>(text).unwrap().to_string();
    let conf = parse_profile_conf(text).unwrap();
    assert_eq!(conf.render(), expected);
}
