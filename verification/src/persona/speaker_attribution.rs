//! Who said it, and which entity it is about.
use vstd::prelude::*;

use crate::types::Message;

verus! {

/// The role of a speaker.
#[derive(Debug, Clone, Copy, PartialEq, Eq, Hash, Structural)]
pub enum Speaker {
    /// The companion agent.
    Agent,
    /// The human user.
    User,
    /// A named character of a novel.
    Character,
}

impl Speaker {
    /// The name of the role.
    pub open spec fn name(self) -> Seq<char> {
        match self {
            Speaker::Agent => "agent"@,
            Speaker::User => "user"@,
            Speaker::Character => "character"@,
        }
    }

    /// The name of the role, as payloads hold it.
    pub fn as_str(self) -> (s: &'static str)
        ensures
            s@ == self.name(),
    {
        match self {
            Speaker::Agent => "agent",
            Speaker::User => "user",
            Speaker::Character => "character",
        }
    }

    /// The speaker of a message; none for roles that have no persona.
    pub fn from_message(msg: &Message) -> (r: Option<Speaker>)
        ensures
            r == (if msg.role@ == "assistant"@ {
                Some(Speaker::Agent)
            } else if msg.role@ == "user"@ {
                Some(Speaker::User)
            } else {
                None
            }),
    {
        if msg.is_assistant() {
            Some(Speaker::Agent)
        } else if msg.is_user() {
            Some(Speaker::User)
        } else {
            None
        }
    }
}

/// A speaker and the entity that their statements are about.
#[derive(Debug, Clone, Copy, PartialEq, Eq, Structural)]
pub struct SpeakerAttribution {
    pub speaker: Speaker,
    pub entity_id: i64,
}

impl SpeakerAttribution {
    /// The attribution to an entity.
    pub fn new(speaker: Speaker, entity_id: i64) -> (a: SpeakerAttribution)
        ensures
            a.speaker == speaker,
            a.entity_id == entity_id,
    {
        SpeakerAttribution { speaker, entity_id }
    }

    /// The attribution to the agent.
    pub fn for_agent(agent_entity_id: i64) -> (a: SpeakerAttribution)
        ensures
            a.speaker is Agent,
            a.entity_id == agent_entity_id,
    {
        SpeakerAttribution::new(Speaker::Agent, agent_entity_id)
    }

    /// The attribution to the user.
    pub fn for_user(user_entity_id: i64) -> (a: SpeakerAttribution)
        ensures
            a.speaker is User,
            a.entity_id == user_entity_id,
    {
        SpeakerAttribution::new(Speaker::User, user_entity_id)
    }
}

/// Speakers have different names: nobody is taken for another.
pub proof fn law_speakers_have_different_names(a: Speaker, b: Speaker)
    ensures
        a.name() == b.name() ==> a == b,
{
    reveal_strlit("agent");
    reveal_strlit("user");
    reveal_strlit("character");
    assert("agent"@.len() == 5
        && "user"@.len() == 4
        && "character"@.len() == 9);
}

} // verus!
