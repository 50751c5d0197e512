use superhq::agents::{cursor, secret_entry, InstallStep};
use superhq::sandbox::agent_config::{is_yes, merge_env, parse_env_output, profile_script, write_export};
use superhq::sandbox::agent_setup::{agent_checkpoint_name, checkpoint_base_path};
use superhq::sandbox::auth_gateway::{
    auth_headers, build_stub_jwt, extract_jwt_claim, gateway_error_reply, is_forwarded_header,
    is_oauth_method, is_websocket_upgrade, jwt_payload_segment, resolve_upstream, str_eq_ignore_ascii_case,
    stub_jwt, switching_protocols_headers, upstream_url, websocket_url, BAD_GATEWAY,
};

#[test]
fn secret_entries_keep_their_fields() {
    let e = secret_entry("OPENAI_API_KEY", "OpenAI API Key", vec!["api.openai.com"], vec!["chatgpt.com"], true);
    assert_eq!(e.env_var, "OPENAI_API_KEY");
    assert_eq!(e.label, "OpenAI API Key");
    assert_eq!(e.hosts, vec!["api.openai.com"]);
    assert_eq!(e.extra_hosts, vec!["chatgpt.com"]);
    assert!(e.optional);
}

#[test]
fn cursor_config() {
    let c = cursor::config();
    assert_eq!(c.name, "cursor");
    assert_eq!(c.command, "/root/.local/bin/cursor-agent");
    assert!(c.color.is_none());
    assert_eq!(c.tab_order, 2);
    match &c.install_steps[0] {
        InstallStep::Cmd { skip_if, .. } => assert_eq!(*skip_if, Some("test -x /root/.local/bin/cursor-agent")),
        _ => panic!("expected a command"),
    }
    assert!(c.secrets.is_empty());
}

#[test]
fn exports_escape_single_quotes() {
    let mut s = String::new();
    write_export(&mut s, "A", "plain");
    write_export(&mut s, "B", "it's");
    assert_eq!(s, "export A='plain'\nexport B='it'\\''s'\n");
}

#[test]
fn env_output_pairs() {
    let pairs = parse_env_output("HOME=/root\nNOEQ\nX=a=b\r\nEMPTY=\n");
    let view: Vec<(&str, &str)> = pairs.iter().map(|(k, v)| (k.as_str(), v.as_str())).collect();
    assert_eq!(view, vec![("HOME", "/root"), ("X", "a=b"), ("EMPTY", "")]);
    assert!(parse_env_output("").is_empty());
}

#[test]
fn yes_is_trimmed() {
    assert!(is_yes("yes\n"));
    assert!(is_yes("  yes "));
    assert!(!is_yes("no\n"));
    assert!(!is_yes("yess"));
}

#[test]
fn profile_exports_ca_and_gateway_vars() {
    let env = vec![
        ("OPENAI_BASE_URL".to_string(), "http://10.0.0.1:9000".to_string()),
        ("_GATEWAY_TOKEN".to_string(), "secret".to_string()),
    ];
    assert_eq!(profile_script(false, &env), "export OPENAI_BASE_URL='http://10.0.0.1:9000'\n");
    let with_ca = profile_script(true, &env);
    assert!(with_ca.starts_with(
        "export NODE_EXTRA_CA_CERTS='/usr/local/share/ca-certificates/shuru-proxy.crt'\nexport SSL_CERT_FILE='/etc/ssl/certs/ca-certificates.crt'\n"
    ));
    assert!(!with_ca.contains("_GATEWAY_"));
}

#[test]
fn checkpoint_names() {
    assert_eq!(agent_checkpoint_name("cursor"), "agent-cursor-base");
    assert_eq!(checkpoint_base_path("/data", "agent-cursor-base"), "/data/checkpoints/agent-cursor-base");
}

#[test]
fn upstream_routing() {
    assert_eq!(upstream_url(false, "https://api.openai.com", "/v1/responses"), "https://api.openai.com/v1/responses");
    assert_eq!(upstream_url(true, "https://api.openai.com", "/v1/responses"), "https://chatgpt.com/backend-api/codex/responses");
    assert_eq!(upstream_url(true, "x", "/v1/codex/responses"), "https://chatgpt.com/backend-api/codex/responses");
    assert_eq!(upstream_url(true, "x", "/other"), "https://chatgpt.com/backend-api/codex/other");
    assert_eq!(websocket_url("https://chatgpt.com/backend-api/codex/responses"), "wss://chatgpt.com/backend-api/codex/responses");
    assert_eq!(websocket_url("http://local/https://x"), "http://local/wss://x");
}

#[test]
fn credential_headers() {
    let h = auth_headers("tok", false, Some("acct"));
    assert_eq!(h, vec![("Authorization".to_string(), "Bearer tok".to_string())]);
    let h = auth_headers("tok", true, Some("acct"));
    let names: Vec<&str> = h.iter().map(|(n, _)| n.as_str()).collect();
    assert_eq!(names, vec!["Authorization", "chatgpt-account-id", "OpenAI-Beta", "originator"]);
    assert_eq!(h[2].1, "responses=experimental");
    let h = auth_headers("tok", true, None);
    assert_eq!(h.len(), 3);
}

#[test]
fn header_forwarding_and_upgrade() {
    assert!(!is_forwarded_header("authorization"));
    assert!(!is_forwarded_header("host"));
    assert!(is_forwarded_header("content-type"));
    assert!(is_websocket_upgrade(Some("WebSocket")));
    assert!(!is_websocket_upgrade(Some("h2c")));
    assert!(!is_websocket_upgrade(None));
    assert!(str_eq_ignore_ascii_case("ABC", "abc"));
}

#[test]
fn gateway_errors_are_bad_gateway() {
    assert_eq!(gateway_error_reply(true, "boom"), (BAD_GATEWAY, "auth gateway ws error: boom".to_string()));
    assert_eq!(gateway_error_reply(false, "boom"), (502, "auth gateway error: boom".to_string()));
}

#[test]
fn stub_jwt_round_trips_account_id() {
    let t = stub_jwt("acct_123");
    assert!(t.starts_with("eyJhbGciOiJub25lIiwidHlwIjoiSldUIn0."));
    assert!(t.ends_with('.'));
    assert_eq!(jwt_payload_segment(&t).is_some(), true);
    assert_eq!(extract_jwt_claim(&t, "chatgpt_account_id").as_deref(), Some("acct_123"));
    assert_eq!(extract_jwt_claim(&t, "other"), None);
    assert_eq!(build_stub_jwt(Some(t.as_str())), Some(t.clone()));
    assert_eq!(build_stub_jwt(None), None);
    assert_eq!(build_stub_jwt(Some("no-dots")), None);
    assert_eq!(extract_jwt_claim("a.!!!.c", "x"), None);
}

#[test]
fn websocket_accept_key_of_rfc_example() {
    let h = switching_protocols_headers(Some("dGhlIHNhbXBsZSBub25jZQ=="));
    assert_eq!(
        h,
        vec![
            ("Upgrade".to_string(), "websocket".to_string()),
            ("Connection".to_string(), "Upgrade".to_string()),
            ("Sec-WebSocket-Accept".to_string(), "s3pPLMBiTxaQ9kYGzzhZRbK+xOo=".to_string()),
        ]
    );
    let none = switching_protocols_headers(None);
    assert_eq!(none[2].0, "Sec-WebSocket-Accept");
    assert_eq!(none[2].1, switching_protocols_headers(Some(""))[2].1);
    assert_ne!(none[2].1, "");
}

#[test]
fn auth_method_lookup() {
    assert!(is_oauth_method(Some("oauth")));
    assert!(!is_oauth_method(Some("api_key")));
    assert!(!is_oauth_method(Some("OAuth")));
    assert!(!is_oauth_method(None));
}

#[test]
fn upstream_resolution() {
    let r = resolve_upstream(false, Some("sk-1".to_string()), None, "https://api.openai.com", "/v1/models").unwrap();
    assert_eq!(r.url, "https://api.openai.com/v1/models");
    assert_eq!(r.credential, "sk-1");
    assert!(!r.is_oauth);
    assert_eq!(r.account_id, None);

    let token = stub_jwt("acct_9");
    let r = resolve_upstream(true, Some("tok".to_string()), Some(token.as_str()), "https://api.openai.com", "/v1/responses")
        .unwrap();
    assert_eq!(r.url, "https://chatgpt.com/backend-api/codex/responses");
    assert!(r.is_oauth);
    assert_eq!(r.account_id.as_deref(), Some("acct_9"));

    let r = resolve_upstream(false, Some("k".to_string()), Some(token.as_str()), "https://api.openai.com", "/x").unwrap();
    assert_eq!(r.account_id, None);

    match resolve_upstream(true, None, None, "https://api.openai.com", "/v1") {
        Err(e) => assert_eq!(e, "auth gateway: secret not found in vault"),
        Ok(_) => panic!("a missing secret resolves nothing"),
    }
}

#[test]
fn gateway_variables_override_the_sandbox_env() {
    let pair = |k: &str, v: &str| (k.to_string(), v.to_string());
    let sandbox = vec![pair("HOME", "/root"), pair("OPENAI_API_KEY", "dummy"), pair("PATH", "/bin"), pair("HOME", "/home")];
    let gateway = vec![pair("OPENAI_API_KEY", "sk-proxy"), pair("OPENAI_BASE_URL", "http://gw")];
    let merged = merge_env(&sandbox, &gateway);
    assert_eq!(
        merged,
        vec![
            pair("HOME", "/home"),
            pair("OPENAI_API_KEY", "sk-proxy"),
            pair("PATH", "/bin"),
            pair("OPENAI_BASE_URL", "http://gw"),
        ]
    );
    assert!(merge_env(&vec![], &vec![]).is_empty());
}
