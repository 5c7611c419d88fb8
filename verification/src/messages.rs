//! The chat messages that the agent adapters collect.
use vstd::prelude::*;

verus! {

/// The agent whose transcripts a message came from.
#[derive(Clone, Copy, Debug, PartialEq, Eq, Structural)]
pub enum AdapterKind {
    Codex,
    Claude,
    OpenCode,
    Cursor,
}

/// One message that the user typed into an agent, with the time it was sent
/// in milliseconds since the Unix epoch.
#[derive(Clone, Debug)]
pub struct UserMessage {
    pub adapter: AdapterKind,
    pub text: String,
    pub time: i64,
}

} // verus!
