use rustyclaw::gmail::{
    create_authenticator, default_webhook_path, default_webhook_port, init_gmail, start_webhook,
    start_webhook_server, EmailAction, EmailFilter, GmailClient, GmailConfig,
};
use std::path::Path;

#[test]
fn gmail_config_defaults() {
    let c = GmailConfig::default();
    assert!(!c.enabled);
    assert!(c.credentials_path.is_none());
    assert_eq!(c.webhook_port, 8080);
    assert_eq!(c.webhook_path, "/gmail/webhook");
    assert!(c.pubsub_topic.is_none());
    assert!(c.pubsub_subscription.is_none());
    assert!(c.filters.is_empty());
    assert_eq!(default_webhook_port(), 8080);
    assert_eq!(default_webhook_path(), "/gmail/webhook");
}

#[test]
fn gmail_entry_points_report_unimplemented() {
    let mut c = GmailConfig::default();
    c.filters.push(EmailFilter {
        name: "boss".to_string(),
        from: Some("boss@example.com".to_string()),
        label: None,
        subject: None,
        action: EmailAction::NotifySession { session_id: "s1".to_string() },
    });
    assert_eq!(init_gmail(&c).unwrap_err(), "Gmail integration not yet fully implemented");
    assert_eq!(start_webhook(&c).unwrap_err(), "Gmail webhook server not yet implemented");
    assert_eq!(start_webhook_server(&c).unwrap_err(), "Webhook server not yet implemented");
    assert_eq!(create_authenticator(Path::new("/tmp/creds.json")).unwrap_err(), "Gmail OAuth not yet implemented");
}

#[test]
fn gmail_client_reports_unimplemented() {
    assert_eq!(GmailClient::new().err().unwrap(), "GmailClient not yet implemented");
    let client = GmailClient {};
    assert_eq!(client.read_email("m1").err().unwrap(), "read_email not yet implemented");
    assert_eq!(client.send_email("a@b", "s", "b", None).unwrap_err(), "send_email not yet implemented");
    assert_eq!(client.list_emails("is:unread", 10).err().unwrap(), "list_emails not yet implemented");
}
