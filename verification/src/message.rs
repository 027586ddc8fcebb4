//! Chat messages as the gateway exchanges them with model providers.
use vstd::string::StringExecFns;

use vstd::prelude::*;

verus! {

/// One message of a conversation.
pub struct ChatMessage {
    pub role: String,
    pub content: String,
    /// Tool calls requested by the model, when there are any.
    pub tool_calls: Option<Vec<String>>,
    /// The tool call this message answers, for tool results.
    pub tool_call_id: Option<String>,
    /// Attached media references, when there are any.
    pub media: Option<Vec<String>>,
}

impl ChatMessage {
    /// A plain text message with the given role.
    pub fn text(role: &str, content: &str) -> (m: ChatMessage)
        ensures
            m.role@ == role@,
            m.content@ == content@,
            m.tool_calls is None,
            m.tool_call_id is None,
            m.media is None,
    {
        ChatMessage {
            role: String::from_str(role),
            content: String::from_str(content),
            tool_calls: None,
            tool_call_id: None,
            media: None,
        }
    }
}

impl Default for ChatMessage {
    fn default() -> (m: ChatMessage)
        ensures
            m.role@ == Seq::<char>::empty(),
            m.content@ == Seq::<char>::empty(),
            m.tool_calls is None,
            m.tool_call_id is None,
            m.media is None,
    {
        ChatMessage {
            role: String::new(),
            content: String::new(),
            tool_calls: None,
            tool_call_id: None,
            media: None,
        }
    }
}

} // verus!
