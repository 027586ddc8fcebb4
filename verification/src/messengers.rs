//! LINE and Feishu/Lark messengers: configuration, connection state,
//! recipient resolution, and the decisions around each push. The HTTP
//! exchanges themselves are made by the caller with the plans given here.

use vstd::prelude::*;
use vstd::string::StringExecFns;
use crate::text::{back_ws, chars_of, push_signed_decimal, signed_decimal, skip_ws, string_from_range, trim};
use crate::webhook::trim_end_slashes;

verus! {

/// The HTTP client of `reqwest`, carried through opaque.
#[verifier::external_type_specification]
#[verifier::external_body]
pub struct ExClient(reqwest::Client);

/// A new HTTP client.
///
/// Calls `reqwest::Client::new`; nothing is claimed of the client, which the
/// library only stores. (`reqwest` documents a panic when its TLS backend or
/// resolver cannot be initialized; this crate enables no TLS backend of it.)
#[verifier::external_body]
fn new_http_client() -> reqwest::Client {
    reqwest::Client::new()
}

/// Whether an HTTP status code reports success: 200 to 299.
pub fn http_success(status: u16) -> (b: bool)
    ensures
        b == (200 <= status && status < 300),
{
    200 <= status && status < 300
}

/// `prefix` followed by the decimal notation of `millis`.
pub fn stamped(prefix: &str, millis: i64) -> (r: String)
    ensures
        r@ == prefix@ + signed_decimal(millis as int),
{
    let mut out = String::from_str(prefix);
    push_signed_decimal(&mut out, millis);
    out
}

/// `base` without its trailing slashes, joined with `path`.
fn endpoint(base: &String, path: &str) -> (r: String)
    ensures
        r@ == trim_end_slashes(base@) + path@,
{
    let v = chars_of(base.as_str());
    let mut e = v.len();
    assert(v@.subrange(0, e as int) =~= v@);
    while e > 0 && v[e - 1] == '/'
        invariant
            e <= v@.len(),
            trim_end_slashes(v@.subrange(0, e as int)) == trim_end_slashes(base@),
        decreases e,
    {
        assert(v@.subrange(0, e as int).drop_last() =~= v@.subrange(0, e - 1));
        e -= 1;
    }
    let mut out = string_from_range(&v, 0, e);
    out.append(path);
    out
}

/// Whether a recipient is given: anything but blank.
fn has_recipient(recipient: &str) -> (b: bool)
    ensures
        b == (trim(recipient@).len() > 0),
{
    let v = chars_of(recipient);
    let a = skip_ws(&v, 0, v.len());
    let b = back_ws(&v, a, v.len());
    assert(v@.subrange(0, v@.len() as int) =~= v@);
    a < b
}

/// The recipient of a push: the given one unless blank, else the default.
pub open spec fn recipient_spec(recipient: Seq<char>, default_to: Option<String>) -> Option<Seq<char>> {
    if trim(recipient).len() > 0 {
        Some(recipient)
    } else {
        match default_to {
            Some(d) => Some(d@),
            None => None,
        }
    }
}

/// Whether a result holds the resolved recipient, or the given error when
/// there is none.
pub open spec fn resolved(r: Result<String, String>, want: Option<Seq<char>>, err: Seq<char>) -> bool {
    match want {
        Some(w) => r matches Ok(s) && s@ == w,
        None => r matches Err(e) && e@ == err,
    }
}

fn resolve(recipient: &str, default_to: &Option<String>, err: &str) -> (r: Result<String, String>)
    ensures
        resolved(r, recipient_spec(recipient@, *default_to), err@),
{
    if has_recipient(recipient) {
        return Ok(String::from_str(recipient));
    }
    match default_to {
        Some(d) => Ok(d.clone()),
        None => Err(String::from_str(err)),
    }
}

// ---------------------------------------------------------------------------
// LINE
// ---------------------------------------------------------------------------

/// LINE messenger configuration.
#[derive(Debug, Clone)]
pub struct LineConfig {
    pub token: Option<String>,
    pub default_to: Option<String>,
    pub api_base: String,
}

impl Default for LineConfig {
    fn default() -> (c: LineConfig)
        ensures
            c.token is None,
            c.default_to is None,
            c.api_base@ == "https://api.line.me/v2/bot"@,
    {
        LineConfig {
            token: None,
            default_to: None,
            api_base: String::from_str("https://api.line.me/v2/bot"),
        }
    }
}

/// A LINE push to make: where, with which token, to whom.
#[derive(Debug, Clone)]
pub struct LinePush {
    pub url: String,
    pub token: String,
    pub to: String,
}

/// LINE messenger: outbound pushes through the Messaging API; inbound
/// messages arrive by webhook.
pub struct LineMessenger {
    name: String,
    config: LineConfig,
    http: reqwest::Client,
    connected: bool,
}

impl LineMessenger {
    pub closed spec fn name_spec(&self) -> Seq<char> {
        self.name@
    }

    pub closed spec fn config_spec(&self) -> LineConfig {
        self.config
    }

    pub closed spec fn connected_spec(&self) -> bool {
        self.connected
    }

    /// The HTTP client the messenger holds.
    pub closed spec fn http_spec(&self) -> reqwest::Client {
        self.http
    }

    pub fn new(name: String, config: LineConfig) -> (m: LineMessenger)
        ensures
            m.name_spec() == name@,
            m.config_spec() == config,
            !m.connected_spec(),
    {
        LineMessenger { name, config, http: new_http_client(), connected: false }
    }

    pub fn name(&self) -> (r: &str)
        ensures
            r@ == self.name_spec(),
    {
        self.name.as_str()
    }

    pub fn messenger_type(&self) -> (r: &'static str)
        ensures
            r@ == "line"@,
    {
        "line"
    }

    /// The HTTP client pushes go through: the one the messenger was made with.
    pub fn http(&self) -> (r: &reqwest::Client)
        ensures
            *r == self.http_spec(),
    {
        &self.http
    }

    /// The API base URL without trailing slashes.
    pub fn api_base(&self) -> (r: String)
        ensures
            r@ == trim_end_slashes(self.config_spec().api_base@),
    {
        let r = endpoint(&self.config.api_base, "");
        proof {
            reveal_strlit("");
        }
        assert(r@ =~= trim_end_slashes(self.config_spec().api_base@));
        r
    }

    /// The recipient of a push: the given user/group/room id unless blank,
    /// else the configured default.
    pub fn resolve_to(&self, recipient: &str) -> (r: Result<String, String>)
        ensures
            resolved(
                r,
                recipient_spec(recipient@, self.config_spec().default_to),
                "LINE requires recipient user/group/room id or default_to"@,
            ),
    {
        resolve(recipient, &self.config.default_to, "LINE requires recipient user/group/room id or default_to")
    }

    /// Connect: a channel access token is required.
    pub fn initialize(&mut self) -> (r: Result<(), String>)
        ensures
            old(self).config_spec().token is None ==> (r matches Err(e) && e@
                == "LINE requires token (channel access token)"@ && *final(self) == *old(self)),
            old(self).config_spec().token is Some ==> (r is Ok && final(self).connected_spec()
                && final(self).config_spec() == old(self).config_spec() && final(self).name_spec()
                == old(self).name_spec()),
    {
        if self.config.token.is_none() {
            return Err(String::from_str("LINE requires token (channel access token)"));
        }
        self.connected = true;
        Ok(())
    }

    pub fn is_connected(&self) -> (b: bool)
        ensures
            b == self.connected_spec(),
    {
        self.connected
    }

    pub fn disconnect(&mut self) -> (r: Result<(), String>)
        ensures
            r is Ok,
            !final(self).connected_spec(),
            final(self).config_spec() == old(self).config_spec(),
            final(self).name_spec() == old(self).name_spec(),
    {
        self.connected = false;
        Ok(())
    }

    /// The push to make for a message to `recipient`: the token is required,
    /// then a recipient; the endpoint is `/message/push` under the API base.
    pub fn push_request(&self, recipient: &str) -> (r: Result<LinePush, String>)
        ensures
            self.config_spec().token is None ==> (r matches Err(e) && e@ == "LINE token is not configured"@),
            self.config_spec().token matches Some(t) ==> match recipient_spec(
                recipient@,
                self.config_spec().default_to,
            ) {
                Some(to) => r matches Ok(p) && p.to@ == to && p.token@ == t@ && p.url@
                    == trim_end_slashes(self.config_spec().api_base@) + "/message/push"@,
                None => r matches Err(e) && e@ == "LINE requires recipient user/group/room id or default_to"@,
            },
    {
        let token = match &self.config.token {
            Some(t) => t.clone(),
            None => {
                return Err(String::from_str("LINE token is not configured"));
            },
        };
        let to = self.resolve_to(recipient)?;
        let url = endpoint(&self.config.api_base, "/message/push");
        Ok(LinePush { url, token, to })
    }

    /// The id reported for a message sent at `millis` (milliseconds since
    /// the Unix epoch): `line-` and the time.
    pub fn sent_message_id(&self, millis: i64) -> (r: String)
        ensures
            r@ == "line-"@ + signed_decimal(millis as int),
    {
        stamped("line-", millis)
    }
}

/// The error for a push the API refused.
pub fn line_send_error(status: &str, text: &str) -> (r: String)
    ensures
        r@ == "LINE send failed ("@ + status@ + "): "@ + text@,
{
    let mut out = String::from_str("LINE send failed (");
    out.append(status);
    out.append("): ");
    out.append(text);
    out
}

// ---------------------------------------------------------------------------
// Feishu/Lark
// ---------------------------------------------------------------------------

/// Feishu/Lark messenger configuration.
#[derive(Debug, Clone)]
pub struct LarkConfig {
    pub token: Option<String>,
    pub webhook_url: Option<String>,
    pub default_chat_id: Option<String>,
    pub api_base: String,
}

impl Default for LarkConfig {
    fn default() -> (c: LarkConfig)
        ensures
            c.token is None,
            c.webhook_url is None,
            c.default_chat_id is None,
            c.api_base@ == "https://open.feishu.cn/open-apis"@,
    {
        LarkConfig {
            token: None,
            webhook_url: None,
            default_chat_id: None,
            api_base: String::from_str("https://open.feishu.cn/open-apis"),
        }
    }
}

/// A Lark send to make.
#[derive(Debug, Clone)]
pub enum LarkSend {
    /// Post to the incoming webhook.
    Webhook { url: String },
    /// Call the bot API for a chat.
    Api { url: String, token: String, chat_id: String },
}

/// Feishu/Lark messenger: incoming-webhook mode or bot API mode; inbound
/// events arrive by webhook.
pub struct LarkMessenger {
    name: String,
    config: LarkConfig,
    http: reqwest::Client,
    connected: bool,
}

impl LarkMessenger {
    pub closed spec fn name_spec(&self) -> Seq<char> {
        self.name@
    }

    pub closed spec fn config_spec(&self) -> LarkConfig {
        self.config
    }

    pub closed spec fn connected_spec(&self) -> bool {
        self.connected
    }

    /// The HTTP client the messenger holds.
    pub closed spec fn http_spec(&self) -> reqwest::Client {
        self.http
    }

    pub fn new(name: String, config: LarkConfig) -> (m: LarkMessenger)
        ensures
            m.name_spec() == name@,
            m.config_spec() == config,
            !m.connected_spec(),
    {
        LarkMessenger { name, config, http: new_http_client(), connected: false }
    }

    pub fn name(&self) -> (r: &str)
        ensures
            r@ == self.name_spec(),
    {
        self.name.as_str()
    }

    pub fn messenger_type(&self) -> (r: &'static str)
        ensures
            r@ == "lark"@,
    {
        "lark"
    }

    /// The HTTP client sends go through: the one the messenger was made with.
    pub fn http(&self) -> (r: &reqwest::Client)
        ensures
            *r == self.http_spec(),
    {
        &self.http
    }

    /// The API base URL without trailing slashes.
    pub fn api_base(&self) -> (r: String)
        ensures
            r@ == trim_end_slashes(self.config_spec().api_base@),
    {
        let r = endpoint(&self.config.api_base, "");
        proof {
            reveal_strlit("");
        }
        assert(r@ =~= trim_end_slashes(self.config_spec().api_base@));
        r
    }

    /// The chat of a send: the given chat id unless blank, else the default.
    pub fn resolve_chat_id(&self, recipient: &str) -> (r: Result<String, String>)
        ensures
            resolved(
                r,
                recipient_spec(recipient@, self.config_spec().default_chat_id),
                "Lark requires recipient chat id or default_chat_id"@,
            ),
    {
        resolve(recipient, &self.config.default_chat_id, "Lark requires recipient chat id or default_chat_id")
    }

    /// Connect: webhook mode needs nothing more, bot API mode a token.
    pub fn initialize(&mut self) -> (r: Result<(), String>)
        ensures
            (old(self).config_spec().webhook_url is None && old(self).config_spec().token is None)
                ==> (r matches Err(e) && e@ == "Lark API mode requires token"@ && *final(self)
                == *old(self)),
            (old(self).config_spec().webhook_url is Some || old(self).config_spec().token is Some)
                ==> (r is Ok && final(self).connected_spec() && final(self).config_spec()
                == old(self).config_spec() && final(self).name_spec() == old(self).name_spec()),
    {
        if self.config.webhook_url.is_some() {
            self.connected = true;
            return Ok(());
        }
        if self.config.token.is_none() {
            return Err(String::from_str("Lark API mode requires token"));
        }
        self.connected = true;
        Ok(())
    }

    pub fn is_connected(&self) -> (b: bool)
        ensures
            b == self.connected_spec(),
    {
        self.connected
    }

    pub fn disconnect(&mut self) -> (r: Result<(), String>)
        ensures
            r is Ok,
            !final(self).connected_spec(),
            final(self).config_spec() == old(self).config_spec(),
            final(self).name_spec() == old(self).name_spec(),
    {
        self.connected = false;
        Ok(())
    }

    /// The send to make for a message to `recipient`: the incoming webhook
    /// when one is configured; else the bot API, which needs a token and a
    /// chat.
    pub fn send_plan(&self, recipient: &str) -> (r: Result<LarkSend, String>)
        ensures
            self.config_spec().webhook_url matches Some(w) ==> (r matches Ok(LarkSend::Webhook { url })
                && url@ == w@),
            (self.config_spec().webhook_url is None && self.config_spec().token is None) ==> (r matches Err(
                e,
            ) && e@ == "Lark token is not configured"@),
            self.config_spec().webhook_url is None ==> (self.config_spec().token matches Some(t) ==> match recipient_spec(
                recipient@,
                self.config_spec().default_chat_id,
            ) {
                Some(c) => r matches Ok(LarkSend::Api { url, token, chat_id }) && chat_id@ == c
                    && token@ == t@ && url@ == trim_end_slashes(self.config_spec().api_base@)
                    + "/im/v1/messages?receive_id_type=chat_id"@,
                None => r matches Err(e) && e@ == "Lark requires recipient chat id or default_chat_id"@,
            }),
    {
        if let Some(w) = &self.config.webhook_url {
            return Ok(LarkSend::Webhook { url: w.clone() });
        }
        let token = match &self.config.token {
            Some(t) => t.clone(),
            None => {
                return Err(String::from_str("Lark token is not configured"));
            },
        };
        let chat_id = self.resolve_chat_id(recipient)?;
        let url = endpoint(&self.config.api_base, "/im/v1/messages?receive_id_type=chat_id");
        Ok(LarkSend::Api { url, token, chat_id })
    }

    /// The `X-Request-ID` of an API send made at `millis` (milliseconds
    /// since the Unix epoch): `rustyclaw-` and the time.
    pub fn request_id(&self, millis: i64) -> (r: String)
        ensures
            r@ == "rustyclaw-"@ + signed_decimal(millis as int),
    {
        stamped("rustyclaw-", millis)
    }

    /// The id reported for a message sent through the incoming webhook at
    /// `millis` (milliseconds since the Unix epoch): `lark-` and the time.
    pub fn webhook_message_id(&self, millis: i64) -> (r: String)
        ensures
            r@ == "lark-"@ + signed_decimal(millis as int),
    {
        stamped("lark-", millis)
    }

    /// The outcome of an API send that answered with a JSON body: an error
    /// code is reported with its message, else the message id the API gave,
    /// or, when it gave none, `lark-` and the time of the answer, `millis`
    /// (milliseconds since the Unix epoch).
    pub fn api_outcome(
        &self,
        code: i32,
        msg: Option<String>,
        message_id: Option<String>,
        millis: i64,
    ) -> (r: Result<String, String>)
        ensures
            code != 0 ==> (r matches Err(e) && e@ == lark_code_error(code as int, msg)),
            (code == 0 && message_id is Some) ==> (r matches Ok(id) && id@ == message_id->0@),
            (code == 0 && message_id is None) ==> (r matches Ok(id) && id@ == "lark-"@
                + signed_decimal(millis as int)),
    {
        match lark_api_result(code, msg, message_id) {
            Ok(Some(id)) => Ok(id),
            Ok(None) => Ok(stamped("lark-", millis)),
            Err(e) => Err(e),
        }
    }
}

/// The error for a nonzero Lark API code.
pub open spec fn lark_code_error(code: int, msg: Option<String>) -> Seq<char> {
    "Lark API returned error code "@ + signed_decimal(code) + ": "@ + (match msg {
        Some(m) => m@,
        None => "unknown"@,
    })
}

/// The outcome of a Lark API answer: the error for a nonzero code, else the
/// message id it carries, if any.
pub fn lark_api_result(code: i32, msg: Option<String>, message_id: Option<String>) -> (r: Result<
    Option<String>,
    String,
>)
    ensures
        code != 0 ==> (r matches Err(e) && e@ == lark_code_error(code as int, msg)),
        code == 0 ==> (r matches Ok(id) && id == message_id),
{
    if code != 0 {
        let mut e = String::from_str("Lark API returned error code ");
        push_signed_decimal(&mut e, code as i64);
        e.append(": ");
        match &msg {
            Some(m) => e.append(m.as_str()),
            None => e.append("unknown"),
        }
        assert(e@ =~= lark_code_error(code as int, msg));
        return Err(e);
    }
    Ok(message_id)
}

/// The error for a send the webhook or the API refused with an HTTP status.
pub fn lark_http_error(webhook: bool, status: &str) -> (r: String)
    ensures
        r@ == (if webhook {
            "Lark webhook send failed: "@
        } else {
            "Lark API send failed: "@
        }) + status@,
{
    let mut out = String::from_str(if webhook { "Lark webhook send failed: " } else { "Lark API send failed: " });
    out.append(status);
    out
}

} // verus!
