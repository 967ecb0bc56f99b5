//! Conversations and what is compiled out of them.
use vstd::prelude::*;

use crate::text::same_text;

verus! {

/// A message of a conversation.
#[derive(Debug)]
pub struct Message {
    /// Who speaks: `user`, `assistant`, or another role.
    pub role: String,
    pub content: String,
    pub turn_id: Option<String>,
    pub tool_call_id: Option<String>,
}

impl Message {
    /// A message without identifiers.
    pub fn new(role: &str, content: &str) -> (m: Message)
        ensures
            m.role@ == role@,
            m.content@ == content@,
            m.turn_id is None,
            m.tool_call_id is None,
    {
        Message {
            role: role.to_owned(),
            content: content.to_owned(),
            turn_id: None,
            tool_call_id: None,
        }
    }

    /// Whether the user speaks.
    pub fn is_user(&self) -> (r: bool)
        ensures
            r == (self.role@ == "user"@),
    {
        same_text(self.role.as_str(), "user")
    }

    /// Whether the assistant speaks.
    pub fn is_assistant(&self) -> (r: bool)
        ensures
            r == (self.role@ == "assistant"@),
    {
        same_text(self.role.as_str(), "assistant")
    }
}

/// An importance score. Scores are fractions computed elsewhere; what is kept
/// of one is an integer that ranks as the score does, and the score in whole
/// percent.
#[derive(Debug, Clone, Copy)]
pub struct Importance {
    pub rank: i64,
    pub percent: u32,
}

/// What a memory holds.
#[derive(Debug, Clone, Copy)]
pub enum MemoryType {
    Knowledge,
}

/// A piece of compiled knowledge.
#[derive(Debug)]
pub struct Memory {
    pub tenant_id: String,
    pub memory_type: MemoryType,
    pub content: String,
    /// A shorter form of the content; may be empty.
    pub summary: String,
    pub importance: Importance,
}

impl Memory {
    /// A memory without a summary.
    pub fn new(
        tenant_id: &str,
        memory_type: MemoryType,
        content: &str,
        importance: Importance,
    ) -> (m: Memory)
        ensures
            m.tenant_id@ == tenant_id@,
            m.memory_type == memory_type,
            m.content@ == content@,
            m.summary@.len() == 0,
            m.importance == importance,
    {
        Memory {
            tenant_id: tenant_id.to_owned(),
            memory_type,
            content: content.to_owned(),
            summary: String::new(),
            importance,
        }
    }
}

/// A decision made in a conversation.
#[derive(Debug)]
pub struct Decision {
    pub decision: String,
    pub rationale: String,
    pub module: String,
    pub importance: Importance,
}

/// A step of the reasoning in a session.
#[derive(Debug)]
pub struct ReasoningStep {
    pub trigger: String,
    pub tool_name: String,
    pub tool_args: String,
    pub status: String,
    pub reasoning: String,
}

/// Where a session stands.
#[derive(Debug)]
pub struct SessionState {
    pub current_goal: String,
    pub current_module: String,
    pub current_files: Vec<String>,
    pub open_problems: Vec<String>,
    pub reasoning_chain: Vec<ReasoningStep>,
}

impl SessionState {
    /// Nothing is known of the session.
    pub open spec fn is_blank(self) -> bool {
        &&& self.current_goal@.len() == 0
        &&& self.current_module@.len() == 0
        &&& self.current_files@.len() == 0
        &&& self.open_problems@.len() == 0
        &&& self.reasoning_chain@.len() == 0
    }
}

impl Default for SessionState {
    fn default() -> (s: SessionState)
        ensures
            s.is_blank(),
    {
        SessionState {
            current_goal: String::new(),
            current_module: String::new(),
            current_files: Vec::new(),
            open_problems: Vec::new(),
            reasoning_chain: Vec::new(),
        }
    }
}

/// What a conversation was compiled into.
#[derive(Debug)]
pub struct CompiledConversation {
    pub knowledge: Vec<Memory>,
    pub decisions: Vec<Decision>,
    pub session: SessionState,
}

impl Default for CompiledConversation {
    fn default() -> (c: CompiledConversation)
        ensures
            c.knowledge@.len() == 0,
            c.decisions@.len() == 0,
            c.session.is_blank(),
    {
        CompiledConversation {
            knowledge: Vec::new(),
            decisions: Vec::new(),
            session: SessionState::default(),
        }
    }
}

} // verus!
