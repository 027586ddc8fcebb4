//! Gmail integration: configuration, filters, messages and the client.
//!
//! Reading and sending mail, OAuth and the Pub/Sub webhook are not
//! implemented yet; their entry points report so.

use vstd::prelude::*;
use vstd::string::StringExecFns;

verus! {

/// An owned filesystem path, `std::path::PathBuf`, carried through opaque.
#[verifier::external_type_specification]
#[verifier::external_body]
pub struct ExPathBuf(std::path::PathBuf);

/// A borrowed filesystem path, `std::path::Path`, carried through opaque.
#[verifier::external_type_specification]
#[verifier::external_body]
pub struct ExPath(std::path::Path);

/// Email filter for routing and processing.
#[derive(Debug, Clone)]
pub struct EmailFilter {
    /// Filter name/description
    pub name: String,
    /// Match emails from this address (supports wildcards)
    pub from: Option<String>,
    /// Match emails with this label
    pub label: Option<String>,
    /// Match emails with this subject pattern
    pub subject: Option<String>,
    /// Action to take when filter matches
    pub action: EmailAction,
}

/// Action to take when an email filter matches.
#[derive(Debug, Clone)]
pub enum EmailAction {
    /// Automatically respond with template
    AutoRespond { template: String },
    /// Forward to specific session
    NotifySession { session_id: String },
    /// Ignore the email
    Ignore,
}

/// Email message representation.
#[derive(Debug, Clone)]
pub struct Email {
    pub id: String,
    pub thread_id: String,
    pub from: String,
    pub to: Vec<String>,
    pub subject: String,
    pub body_plain: String,
    pub body_html: Option<String>,
    pub timestamp: i64,
}

/// Gmail integration configuration.
#[derive(Debug, Clone)]
pub struct GmailConfig {
    /// Whether Gmail integration is enabled
    pub enabled: bool,
    /// Path to the OAuth 2.0 credentials JSON file
    pub credentials_path: Option<std::path::PathBuf>,
    /// Port for the webhook HTTP server
    pub webhook_port: u16,
    /// Path for the webhook endpoint (e.g., "/gmail/webhook")
    pub webhook_path: String,
    /// Google Cloud Pub/Sub topic name
    pub pubsub_topic: Option<String>,
    /// Google Cloud Pub/Sub subscription name
    pub pubsub_subscription: Option<String>,
    /// Email processing filters
    pub filters: Vec<EmailFilter>,
}

/// Default port of the webhook server.
pub fn default_webhook_port() -> (p: u16)
    ensures
        p == 8080,
{
    8080
}

/// Default path of the webhook endpoint.
pub fn default_webhook_path() -> (s: String)
    ensures
        s@ == "/gmail/webhook"@,
{
    String::from_str("/gmail/webhook")
}

impl Default for GmailConfig {
    fn default() -> (c: GmailConfig)
        ensures
            !c.enabled,
            c.credentials_path is None,
            c.webhook_port == 8080,
            c.webhook_path@ == "/gmail/webhook"@,
            c.pubsub_topic is None,
            c.pubsub_subscription is None,
            c.filters@.len() == 0,
    {
        GmailConfig {
            enabled: false,
            credentials_path: None,
            webhook_port: default_webhook_port(),
            webhook_path: default_webhook_path(),
            pubsub_topic: None,
            pubsub_subscription: None,
            filters: Vec::new(),
        }
    }
}

/// Initialize the Gmail integration; not implemented yet.
pub fn init_gmail(_config: &GmailConfig) -> (r: Result<(), String>)
    ensures
        r matches Err(e) && e@ == "Gmail integration not yet fully implemented"@,
{
    Err(String::from_str("Gmail integration not yet fully implemented"))
}

/// Start the Gmail webhook server; not implemented yet.
pub fn start_webhook(_config: &GmailConfig) -> (r: Result<(), String>)
    ensures
        r matches Err(e) && e@ == "Gmail webhook server not yet implemented"@,
{
    Err(String::from_str("Gmail webhook server not yet implemented"))
}

/// Start the HTTP server for Pub/Sub notifications; not implemented yet.
pub fn start_webhook_server(_config: &GmailConfig) -> (r: Result<(), String>)
    ensures
        r matches Err(e) && e@ == "Webhook server not yet implemented"@,
{
    Err(String::from_str("Webhook server not yet implemented"))
}

/// Initialize the Gmail OAuth authenticator from a credentials file; not
/// implemented yet.
pub fn create_authenticator(_credentials_path: &std::path::Path) -> (r: Result<(), String>)
    ensures
        r matches Err(e) && e@ == "Gmail OAuth not yet implemented"@,
{
    Err(String::from_str("Gmail OAuth not yet implemented"))
}

/// Gmail API client.
#[derive(Debug, Clone)]
pub struct GmailClient {}

impl GmailClient {
    /// Create a new client; not implemented yet.
    pub fn new() -> (r: Result<GmailClient, String>)
        ensures
            r matches Err(e) && e@ == "GmailClient not yet implemented"@,
    {
        Err(String::from_str("GmailClient not yet implemented"))
    }

    /// Read an email by message ID; not implemented yet.
    pub fn read_email(&self, _message_id: &str) -> (r: Result<Email, String>)
        ensures
            r matches Err(e) && e@ == "read_email not yet implemented"@,
    {
        Err(String::from_str("read_email not yet implemented"))
    }

    /// Send an email; not implemented yet.
    pub fn send_email(
        &self,
        _to: &str,
        _subject: &str,
        _body: &str,
        _thread_id: Option<&str>,
    ) -> (r: Result<String, String>)
        ensures
            r matches Err(e) && e@ == "send_email not yet implemented"@,
    {
        Err(String::from_str("send_email not yet implemented"))
    }

    /// List recent emails matching a query; not implemented yet.
    pub fn list_emails(&self, _query: &str, _max_results: u32) -> (r: Result<Vec<Email>, String>)
        ensures
            r matches Err(e) && e@ == "list_emails not yet implemented"@,
    {
        Err(String::from_str("list_emails not yet implemented"))
    }
}

} // verus!
