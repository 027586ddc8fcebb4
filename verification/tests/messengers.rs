use rustyclaw::messengers::{
    http_success, lark_api_result, lark_http_error, line_send_error, stamped, LarkConfig, LarkMessenger, LarkSend,
    LineConfig, LineMessenger,
};

#[test]
fn test_line_type() {
    let m = LineMessenger::new("line-main".to_string(), LineConfig::default());
    assert_eq!(m.messenger_type(), "line");
}

#[test]
fn test_lark_type() {
    let m = LarkMessenger::new("lark-main".to_string(), LarkConfig::default());
    assert_eq!(m.messenger_type(), "lark");
}

#[test]
fn line_defaults_and_name() {
    let m = LineMessenger::new("line-main".to_string(), LineConfig::default());
    assert_eq!(m.name(), "line-main");
    assert_eq!(m.api_base(), "https://api.line.me/v2/bot");
    assert!(!m.is_connected());
}

#[test]
fn line_initialize_needs_token() {
    let mut m = LineMessenger::new("l".to_string(), LineConfig::default());
    assert_eq!(m.initialize().unwrap_err(), "LINE requires token (channel access token)");
    assert!(!m.is_connected());
    let cfg = LineConfig { token: Some("tok".to_string()), ..LineConfig::default() };
    let mut m = LineMessenger::new("l".to_string(), cfg);
    assert!(m.initialize().is_ok());
    assert!(m.is_connected());
    assert!(m.disconnect().is_ok());
    assert!(!m.is_connected());
}

#[test]
fn line_push_request_resolution() {
    let m = LineMessenger::new("l".to_string(), LineConfig::default());
    assert_eq!(m.push_request("U1").unwrap_err(), "LINE token is not configured");

    let cfg = LineConfig {
        token: Some("tok".to_string()),
        default_to: None,
        api_base: "https://example.test/bot//".to_string(),
    };
    let m = LineMessenger::new("l".to_string(), cfg);
    let p = m.push_request("U1").unwrap();
    assert_eq!(p.url, "https://example.test/bot/message/push");
    assert_eq!(p.token, "tok");
    assert_eq!(p.to, "U1");
    assert_eq!(
        m.push_request("   ").unwrap_err(),
        "LINE requires recipient user/group/room id or default_to"
    );

    let cfg = LineConfig {
        token: Some("tok".to_string()),
        default_to: Some("G9".to_string()),
        api_base: "https://api.line.me/v2/bot".to_string(),
    };
    let m = LineMessenger::new("l".to_string(), cfg);
    assert_eq!(m.resolve_to("").unwrap(), "G9");
    assert_eq!(m.resolve_to(" x ").unwrap(), " x ");
}

#[test]
fn line_ids_and_errors() {
    let m = LineMessenger::new("l".to_string(), LineConfig::default());
    assert_eq!(m.sent_message_id(1700000000123), "line-1700000000123");
    assert_eq!(line_send_error("400 Bad Request", "bad"), "LINE send failed (400 Bad Request): bad");
    assert_eq!(stamped("x-", -42), "x--42");
    assert_eq!(stamped("line-", 1700000000123), "line-1700000000123");
}

#[test]
fn lark_initialize_modes() {
    let mut m = LarkMessenger::new("k".to_string(), LarkConfig::default());
    assert_eq!(m.initialize().unwrap_err(), "Lark API mode requires token");
    assert!(!m.is_connected());

    let cfg = LarkConfig { webhook_url: Some("https://hook".to_string()), ..LarkConfig::default() };
    let mut m = LarkMessenger::new("k".to_string(), cfg);
    assert!(m.initialize().is_ok());
    assert!(m.is_connected());

    let cfg = LarkConfig { token: Some("t".to_string()), ..LarkConfig::default() };
    let mut m = LarkMessenger::new("k".to_string(), cfg);
    assert!(m.initialize().is_ok());
    assert!(m.disconnect().is_ok());
    assert!(!m.is_connected());
}

#[test]
fn lark_send_plan() {
    let cfg = LarkConfig {
        token: Some("t".to_string()),
        webhook_url: Some("https://hook".to_string()),
        ..LarkConfig::default()
    };
    let m = LarkMessenger::new("k".to_string(), cfg);
    match m.send_plan("") {
        Ok(LarkSend::Webhook { url }) => assert_eq!(url, "https://hook"),
        _ => panic!("webhook mode expected"),
    }

    let m = LarkMessenger::new("k".to_string(), LarkConfig::default());
    assert!(matches!(m.send_plan("c1"), Err(e) if e == "Lark token is not configured"));

    let cfg = LarkConfig {
        token: Some("t".to_string()),
        default_chat_id: Some("oc_default".to_string()),
        api_base: "https://open.feishu.cn/open-apis/".to_string(),
        ..LarkConfig::default()
    };
    let m = LarkMessenger::new("k".to_string(), cfg);
    assert_eq!(m.api_base(), "https://open.feishu.cn/open-apis");
    match m.send_plan(" ") {
        Ok(LarkSend::Api { url, token, chat_id }) => {
            assert_eq!(url, "https://open.feishu.cn/open-apis/im/v1/messages?receive_id_type=chat_id");
            assert_eq!(token, "t");
            assert_eq!(chat_id, "oc_default");
        }
        _ => panic!("api mode expected"),
    }

    let cfg = LarkConfig { token: Some("t".to_string()), ..LarkConfig::default() };
    let m = LarkMessenger::new("k".to_string(), cfg);
    assert!(matches!(m.send_plan(""), Err(e) if e == "Lark requires recipient chat id or default_chat_id"));
    assert_eq!(m.resolve_chat_id("oc_1").unwrap(), "oc_1");
}

#[test]
fn lark_outcomes() {
    assert_eq!(
        lark_api_result(99991663, Some("token invalid".to_string()), None).unwrap_err(),
        "Lark API returned error code 99991663: token invalid"
    );
    assert_eq!(lark_api_result(-1, None, None).unwrap_err(), "Lark API returned error code -1: unknown");
    assert_eq!(lark_api_result(0, None, Some("om_1".to_string())).unwrap(), Some("om_1".to_string()));
    assert_eq!(lark_api_result(0, Some("ok".to_string()), None).unwrap(), None);

    let m = LarkMessenger::new("k".to_string(), LarkConfig::default());
    assert_eq!(m.api_outcome(0, None, Some("om_2".to_string()), 42).unwrap(), "om_2");
    assert_eq!(m.api_outcome(0, None, None, 42).unwrap(), "lark-42");
    assert_eq!(m.api_outcome(7, None, None, 42).unwrap_err(), "Lark API returned error code 7: unknown");
    assert_eq!(m.request_id(1700000000000), "rustyclaw-1700000000000");
    assert_eq!(m.webhook_message_id(-5), "lark--5");
    assert_eq!(lark_http_error(true, "500"), "Lark webhook send failed: 500");
    assert_eq!(lark_http_error(false, "403 Forbidden"), "Lark API send failed: 403 Forbidden");
}

#[test]
fn http_success_is_2xx() {
    assert!(!http_success(199));
    assert!(http_success(200));
    assert!(http_success(204));
    assert!(http_success(299));
    assert!(!http_success(300));
    assert!(!http_success(404));
    assert!(!http_success(500));
}
