use rustyclaw::webhook::{
    check_payload, check_webhook_request, extract_header, json_response, normalize_path_prefix,
    provider_api, webhook_prompt, ProviderApi, WebhookRejection,
};

#[test]
fn test_normalize_path_prefix() {
    assert_eq!(normalize_path_prefix("/webhook"), "/webhook");
    assert_eq!(normalize_path_prefix("webhook"), "/webhook");
    assert_eq!(normalize_path_prefix("/webhook/"), "/webhook");
    assert_eq!(normalize_path_prefix(""), "/webhook");
}

#[test]
fn normalize_path_prefix_edge_cases() {
    assert_eq!(normalize_path_prefix("  /"), "/webhook");
    assert_eq!(normalize_path_prefix(" hooks/in// "), "/hooks/in");
    assert_eq!(normalize_path_prefix("//"), "");
}

#[test]
fn extract_header_ignores_case_and_trims() {
    let req = "POST /webhook HTTP/1.1\r\nHost: x\r\nX-Webhook-Secret:  s3cret \r\n\r\n{}";
    assert_eq!(extract_header(req, "x-webhook-secret"), Some("s3cret".to_string()));
    assert_eq!(extract_header(req, "HOST"), Some("x".to_string()));
    assert_eq!(extract_header(req, "missing"), None);
}

#[test]
fn extract_header_stops_at_blank_line_and_skips_request_line() {
    let req = "host: first\r\nA: 1\r\n\r\nB: 2";
    assert_eq!(extract_header(req, "host"), None);
    assert_eq!(extract_header(req, "b"), None);
    assert_eq!(extract_header("GET / HTTP/1.1\nEmpty:   \nEmpty: later", "empty"), None);
}

#[test]
fn request_checks_in_order() {
    let ok = "POST /webhook/run HTTP/1.1\r\nX-Webhook-Secret: k\r\n\r\n{\"message\":\"hi\"}";
    assert_eq!(check_webhook_request(ok, "/webhook", Some("k")).ok(), Some("{\"message\":\"hi\"}".to_string()));
    let get = "GET /webhook HTTP/1.1\r\n\r\n";
    assert!(matches!(check_webhook_request(get, "/webhook", None), Err(WebhookRejection::MethodNotAllowed)));
    let other = "POST /webhooks HTTP/1.1\r\n\r\n{}";
    match check_webhook_request(other, "/webhook", None) {
        Err(WebhookRejection::UnknownPath { path }) => assert_eq!(path, "/webhooks"),
        _ => panic!("expected an unknown path"),
    }
    let no_secret = "POST /webhook HTTP/1.1\r\n\r\n{}";
    assert!(matches!(check_webhook_request(no_secret, "/webhook", Some("k")), Err(WebhookRejection::Unauthorized)));
    assert_eq!(check_webhook_request(no_secret, "/webhook", None).ok(), Some("{}".to_string()));
}

#[test]
fn request_without_path_defaults_to_root() {
    match check_webhook_request("POST", "/webhook", None) {
        Err(WebhookRejection::UnknownPath { path }) => assert_eq!(path, "/"),
        _ => panic!("expected an unknown path"),
    }
    assert_eq!(check_webhook_request("POST /", "/", None).ok(), Some(String::new()));
}

#[test]
fn payload_checks() {
    assert!(matches!(check_payload("  \n", true), Err(WebhookRejection::MissingMessage)));
    assert!(matches!(check_payload("hi", false), Err(WebhookRejection::NoModel)));
    assert!(check_payload("hi", true).is_ok());
    assert_eq!(WebhookRejection::NoModel.status(), "503 Service Unavailable");
    assert_eq!(WebhookRejection::MissingMessage.error(), "Field 'message' is required");
    assert_eq!(WebhookRejection::Unauthorized.status(), "401 Unauthorized");
}

#[test]
fn response_framing_counts_bytes() {
    let r = json_response("200 OK", "{\"a\":\"é\"}");
    assert_eq!(
        r,
        "HTTP/1.1 200 OK\r\nContent-Type: application/json\r\nContent-Length: 10\r\nAccess-Control-Allow-Origin: *\r\n\r\n{\"a\":\"é\"}"
    );
}

#[test]
fn prompt_and_provider() {
    assert_eq!(webhook_prompt("do it", None), "do it");
    assert_eq!(webhook_prompt("do it", Some("{}")), "Webhook context:\n{}\n\ndo it");
    assert_eq!(provider_api("anthropic"), ProviderApi::Anthropic);
    assert_eq!(provider_api("google"), ProviderApi::Google);
    assert_eq!(provider_api("openrouter"), ProviderApi::OpenAi);
}
