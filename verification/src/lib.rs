//! Long-term memory for conversational agents: facts about people and how they
//! change, the relationships between them, a graph of what documents tell, and
//! a server that offers all of it as tools over the Model Context Protocol.
pub mod automaton;
pub mod clock;
pub mod cognition;
pub mod error;
pub mod json;
pub mod knowledge;
pub mod launch;
pub mod mcp;
pub mod observation_compiler;
pub mod order;
pub mod persona;
pub mod personality;
pub mod prompt;
pub mod relationship;
pub mod text;
pub mod types;
