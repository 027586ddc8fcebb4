//! Verified core of the rustyclaw gateway: message chunking, context
//! compaction, webhook request routing and the other decision logic.

pub mod message;
pub mod messengers;
pub mod text;
pub mod webhook;

pub mod chunking;
pub mod compaction;
pub mod gmail;
pub mod mdns;
pub mod rate_limit;
pub mod skills;
