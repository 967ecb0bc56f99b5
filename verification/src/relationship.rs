//! How close an agent and a user have grown: a snapshot per pair, moved by the
//! emotions that their messages show.
//!
//! Intimacy is counted in hundredths, from 0 to 100.
use vstd::prelude::*;

use crate::clock::unix_seconds;
use crate::text::{
    cat3, contains_any, has_any, has_part, occurs_at, same_text, texts, words,
};
use crate::types::Message;

verus! {

/// What a user's positive message adds.
pub const POSITIVE_DELTA: i64 = 2;

/// What a user's negative message takes away.
pub const NEGATIVE_DELTA: i64 = 2;

/// What an assistant's positive message adds.
pub const AGENT_POSITIVE_DELTA: i64 = 1;

/// What an assistant's negative message takes away.
pub const AGENT_NEGATIVE_DELTA: i64 = 1;

/// How many recurring topics are kept.
pub const MAX_RECENT_TOPICS: usize = 10;

/// The highest intimacy.
pub const FULL_INTIMACY: i64 = 100;

/// Words of positive emotion.
pub open spec fn positive_words() -> Seq<Seq<char>> {
    seq![
        "开心"@,
        "高兴"@,
        "好开心"@,
        "快乐"@,
        "温暖"@,
        "信任"@,
        "喜欢"@,
        "爱"@,
        "感谢"@,
        "谢谢"@,
        "幸福"@,
        "安心"@,
        "欣慰"@,
        "期待"@,
        "依赖"@,
    ]
}

/// Words of negative emotion.
pub open spec fn negative_words() -> Seq<Seq<char>> {
    seq![
        "难过"@,
        "伤心"@,
        "生气"@,
        "讨厌"@,
        "害怕"@,
        "烦"@,
        "压力"@,
        "委屈"@,
        "失望"@,
        "痛苦"@,
        "焦虑"@,
        "愤怒"@,
        "孤独"@,
        "疲惫"@,
        "心累"@,
        "崩溃"@,
    ]
}

/// Whether a message shows positive emotion.
pub fn has_positive_emotion(content: &str) -> (r: bool)
    ensures
        r == has_any(content@, positive_words()),
{
    let list: Vec<&str> = vec![
        "开心", "高兴", "好开心", "快乐", "温暖", "信任", "喜欢", "爱", "感谢", "谢谢", "幸福", "安心", "欣慰", "期待",
        "依赖",
    ];
    assert(words(list@) =~= positive_words());
    contains_any(content, &list)
}

/// Whether a message shows negative emotion.
pub fn has_negative_emotion(content: &str) -> (r: bool)
    ensures
        r == has_any(content@, negative_words()),
{
    let list: Vec<&str> = vec![
        "难过", "伤心", "生气", "讨厌", "害怕", "烦", "压力", "委屈", "失望", "痛苦", "焦虑", "愤怒", "孤独", "疲惫",
        "心累", "崩溃",
    ];
    assert(words(list@) =~= negative_words());
    contains_any(content, &list)
}

/// The phase of a relationship.
#[derive(Debug, Clone, Copy, PartialEq, Eq, Structural)]
pub enum RelationshipStage {
    /// No bond yet: intimacy below 20.
    Stranger,
    /// From 20, below 50.
    Acquaintance,
    /// From 50, below 80.
    Companion,
    /// From 80.
    Partner,
}

impl RelationshipStage {
    /// The name of the stage.
    pub open spec fn name(self) -> Seq<char> {
        match self {
            RelationshipStage::Stranger => "stranger"@,
            RelationshipStage::Acquaintance => "acquaintance"@,
            RelationshipStage::Companion => "companion"@,
            RelationshipStage::Partner => "partner"@,
        }
    }

    /// The stage of an intimacy in hundredths.
    pub open spec fn of(intimacy: int) -> RelationshipStage {
        if intimacy < 20 {
            RelationshipStage::Stranger
        } else if intimacy < 50 {
            RelationshipStage::Acquaintance
        } else if intimacy < 80 {
            RelationshipStage::Companion
        } else {
            RelationshipStage::Partner
        }
    }

    /// The name under which the stage is stored.
    pub fn as_str(self) -> (s: &'static str)
        ensures
            s@ == self.name(),
    {
        match self {
            RelationshipStage::Stranger => "stranger",
            RelationshipStage::Acquaintance => "acquaintance",
            RelationshipStage::Companion => "companion",
            RelationshipStage::Partner => "partner",
        }
    }

    /// The stage of an intimacy in hundredths.
    pub fn from_intimacy(intimacy: i64) -> (s: RelationshipStage)
        ensures
            s == RelationshipStage::of(intimacy as int),
    {
        if intimacy < 20 {
            RelationshipStage::Stranger
        } else if intimacy < 50 {
            RelationshipStage::Acquaintance
        } else if intimacy < 80 {
            RelationshipStage::Companion
        } else {
            RelationshipStage::Partner
        }
    }

    /// The stage of this name.
    pub fn parse(s: &str) -> (r: Result<RelationshipStage, String>)
        ensures
            match r {
                Ok(stage) => stage.name() == s@,
                Err(m) => (forall|stage: RelationshipStage| #[trigger] stage.name() != s@) && m@
                    == "unknown relationship stage `"@ + s@ + "`"@,
            },
    {
        if same_text(s, "stranger") {
            Ok(RelationshipStage::Stranger)
        } else if same_text(s, "acquaintance") {
            Ok(RelationshipStage::Acquaintance)
        } else if same_text(s, "companion") {
            Ok(RelationshipStage::Companion)
        } else if same_text(s, "partner") {
            Ok(RelationshipStage::Partner)
        } else {
            Err(cat3("unknown relationship stage `", s, "`"))
        }
    }
}

impl std::str::FromStr for RelationshipStage {
    type Err = String;

    fn from_str(s: &str) -> (r: Result<RelationshipStage, String>)
        ensures
            match r {
                Ok(stage) => stage.name() == s@,
                Err(m) => (forall|stage: RelationshipStage| #[trigger] stage.name() != s@) && m@
                    == "unknown relationship stage `"@ + s@ + "`"@,
            },
    {
        RelationshipStage::parse(s)
    }
}

/// The direction of the latest change.
#[derive(Debug, Clone, Copy, PartialEq, Eq, Structural)]
pub enum EmotionTrend {
    Rising,
    Stable,
    Declining,
}

impl EmotionTrend {
    /// The name of the trend.
    pub open spec fn name(self) -> Seq<char> {
        match self {
            EmotionTrend::Rising => "rising"@,
            EmotionTrend::Stable => "stable"@,
            EmotionTrend::Declining => "declining"@,
        }
    }

    /// The trend of a change.
    pub open spec fn of(delta: int) -> EmotionTrend {
        if delta > 0 {
            EmotionTrend::Rising
        } else if delta < 0 {
            EmotionTrend::Declining
        } else {
            EmotionTrend::Stable
        }
    }

    /// The name under which the trend is stored.
    pub fn as_str(self) -> (s: &'static str)
        ensures
            s@ == self.name(),
    {
        match self {
            EmotionTrend::Rising => "rising",
            EmotionTrend::Stable => "stable",
            EmotionTrend::Declining => "declining",
        }
    }

    /// The trend of a change in intimacy.
    pub fn from_delta(delta: i64) -> (t: EmotionTrend)
        ensures
            t == EmotionTrend::of(delta as int),
    {
        if delta > 0 {
            EmotionTrend::Rising
        } else if delta < 0 {
            EmotionTrend::Declining
        } else {
            EmotionTrend::Stable
        }
    }

    /// The trend of this name.
    pub fn parse(s: &str) -> (r: Result<EmotionTrend, String>)
        ensures
            match r {
                Ok(trend) => trend.name() == s@,
                Err(m) => (forall|trend: EmotionTrend| #[trigger] trend.name() != s@) && m@
                    == "unknown emotion trend `"@ + s@ + "`"@,
            },
    {
        if same_text(s, "rising") {
            Ok(EmotionTrend::Rising)
        } else if same_text(s, "stable") {
            Ok(EmotionTrend::Stable)
        } else if same_text(s, "declining") {
            Ok(EmotionTrend::Declining)
        } else {
            Err(cat3("unknown emotion trend `", s, "`"))
        }
    }
}

impl std::str::FromStr for EmotionTrend {
    type Err = String;

    fn from_str(s: &str) -> (r: Result<EmotionTrend, String>)
        ensures
            match r {
                Ok(trend) => trend.name() == s@,
                Err(m) => (forall|trend: EmotionTrend| #[trigger] trend.name() != s@) && m@
                    == "unknown emotion trend `"@ + s@ + "`"@,
            },
    {
        EmotionTrend::parse(s)
    }
}

/// No two stages share a name, so a stored name gives back its stage.
pub proof fn law_stage_names_differ(a: RelationshipStage, b: RelationshipStage)
    ensures
        a.name() == b.name() ==> a == b,
{
    reveal_strlit("stranger");
    reveal_strlit("acquaintance");
    reveal_strlit("companion");
    reveal_strlit("partner");
    assert("stranger"@[0] == 's');
    assert("acquaintance"@[0] == 'a');
    assert("companion"@[0] == 'c');
    assert("partner"@[0] == 'p');
}

/// No two trends share a name, so a stored name gives back its trend.
pub proof fn law_trend_names_differ(a: EmotionTrend, b: EmotionTrend)
    ensures
        a.name() == b.name() ==> a == b,
{
    reveal_strlit("rising");
    reveal_strlit("stable");
    reveal_strlit("declining");
    assert("rising"@[0] == 'r');
    assert("stable"@[0] == 's');
    assert("declining"@[0] == 'd');
}

/// What one message does to intimacy. Only the user and the assistant move it,
/// and a message can show both emotions.
pub open spec fn message_delta(m: Message) -> int {
    let positive = has_any(m.content@, positive_words());
    let negative = has_any(m.content@, negative_words());
    if m.role@ == "user"@ {
        (if positive {
            POSITIVE_DELTA as int
        } else {
            0
        }) - (if negative {
            NEGATIVE_DELTA as int
        } else {
            0
        })
    } else if m.role@ == "assistant"@ {
        (if positive {
            AGENT_POSITIVE_DELTA as int
        } else {
            0
        }) - (if negative {
            AGENT_NEGATIVE_DELTA as int
        } else {
            0
        })
    } else {
        0
    }
}

/// What a batch of messages does to intimacy.
pub open spec fn batch_delta(v: Seq<Message>) -> int
    decreases v.len(),
{
    if v.len() == 0 {
        0
    } else {
        batch_delta(v.drop_last()) + message_delta(v.last())
    }
}

/// `n`, brought into the range of intimacy.
pub open spec fn clamped(n: int) -> int {
    if n < 0 {
        0
    } else if n > FULL_INTIMACY {
        FULL_INTIMACY as int
    } else {
        n
    }
}

/// The snapshot of one pair.
#[derive(Debug)]
pub struct RelationshipState {
    pub tenant_id: String,
    pub agent_entity_id: i64,
    pub user_entity_id: i64,
    /// In hundredths, from 0 to 100.
    pub intimacy: i64,
    pub stage: RelationshipStage,
    pub emotion_trend: EmotionTrend,
    pub recent_topics: Vec<String>,
    /// Seconds since the Unix epoch.
    pub updated_at: i64,
}

impl RelationshipState {
    /// Intimacy is in range and the stage is the one it stands for.
    pub open spec fn wf(self) -> bool {
        &&& 0 <= self.intimacy <= FULL_INTIMACY
        &&& self.stage == RelationshipStage::of(self.intimacy as int)
        &&& self.recent_topics@.len() <= MAX_RECENT_TOPICS
    }

    /// The snapshot is of this pair.
    pub open spec fn is_of(self, tenant_id: Seq<char>, agent: i64, user: i64) -> bool {
        self.tenant_id@ == tenant_id && self.agent_entity_id == agent && self.user_entity_id
            == user
    }

    /// Nothing has happened between the two yet.
    pub open spec fn is_fresh(self) -> bool {
        &&& self.intimacy == 0
        &&& self.stage is Stranger
        &&& self.emotion_trend is Stable
        &&& self.recent_topics@.len() == 0
    }

    /// The snapshot of a pair not seen before, at a given time.
    pub fn new_at(tenant_id: &str, agent_entity_id: i64, user_entity_id: i64, now: i64) -> (s:
        RelationshipState)
        ensures
            s.wf(),
            s.is_of(tenant_id@, agent_entity_id, user_entity_id),
            s.is_fresh(),
            s.updated_at == now,
    {
        RelationshipState {
            tenant_id: tenant_id.to_owned(),
            agent_entity_id,
            user_entity_id,
            intimacy: 0,
            stage: RelationshipStage::Stranger,
            emotion_trend: EmotionTrend::Stable,
            recent_topics: Vec::new(),
            updated_at: now,
        }
    }

    /// The snapshot of a pair not seen before, as of now.
    pub fn new(tenant_id: &str, agent_entity_id: i64, user_entity_id: i64) -> (s: RelationshipState)
        ensures
            s.wf(),
            s.is_of(tenant_id@, agent_entity_id, user_entity_id),
            s.is_fresh(),
    {
        RelationshipState::new_at(tenant_id, agent_entity_id, user_entity_id, unix_seconds())
    }

    /// A copy with the same value.
    pub fn copy(&self) -> (s: RelationshipState)
        ensures
            s.tenant_id@ == self.tenant_id@,
            s.agent_entity_id == self.agent_entity_id,
            s.user_entity_id == self.user_entity_id,
            s.intimacy == self.intimacy,
            s.stage == self.stage,
            s.emotion_trend == self.emotion_trend,
            texts(s.recent_topics@) == texts(self.recent_topics@),
            s.updated_at == self.updated_at,
    {
        RelationshipState {
            tenant_id: self.tenant_id.clone(),
            agent_entity_id: self.agent_entity_id,
            user_entity_id: self.user_entity_id,
            intimacy: self.intimacy,
            stage: self.stage,
            emotion_trend: self.emotion_trend,
            recent_topics: first_topics(&self.recent_topics, self.recent_topics.len()),
            updated_at: self.updated_at,
        }
    }
}

/// The first `n` topics.
fn first_topics(topics: &Vec<String>, n: usize) -> (v: Vec<String>)
    ensures
        v@.len() == (if n <= topics@.len() {
            n as nat
        } else {
            topics@.len()
        }),
        texts(v@) == texts(topics@).subrange(0, v@.len() as int),
{
    let mut v: Vec<String> = Vec::new();
    let mut i: usize = 0;
    while i < topics.len() && i < n
        invariant
            i <= topics@.len(),
            i <= n,
            v@.len() == i,
            forall|k: int| 0 <= k < i ==> (#[trigger] v@[k])@ == topics@[k]@,
        decreases topics.len() - i,
    {
        v.push(topics[i].clone());
        i = i + 1;
    }
    assert(texts(v@) =~= texts(topics@).subrange(0, v@.len() as int));
    v
}

/// What a snapshot looks like after a batch of messages: `next` follows from
/// an intimacy of `before`, the messages, and the topics that recur in them.
pub open spec fn follows(
    next: RelationshipState,
    before: int,
    messages: Seq<Message>,
    topics: Seq<Seq<char>>,
) -> bool {
    &&& next.intimacy == clamped(before + batch_delta(messages))
    &&& next.stage == RelationshipStage::of(next.intimacy as int)
    &&& next.emotion_trend == EmotionTrend::of(next.intimacy - before)
    &&& texts(next.recent_topics@) == topics.subrange(
        0,
        if topics.len() <= MAX_RECENT_TOPICS {
            topics.len() as int
        } else {
            MAX_RECENT_TOPICS as int
        },
    )
}

/// A batch moves intimacy by at most two hundredths per message.
proof fn lemma_batch_bounds(v: Seq<Message>)
    ensures
        -2 * v.len() <= batch_delta(v) <= 2 * v.len(),
    decreases v.len(),
{
    if v.len() > 0 {
        lemma_batch_bounds(v.drop_last());
    }
}

/// The snapshot after a batch of messages. Both sides shape the bond: the
/// user's emotions with full weight, the assistant's with half. Nobody else's
/// messages count.
pub fn updated_state(
    current: &RelationshipState,
    messages: &Vec<Message>,
    topics: &Vec<String>,
    now: i64,
) -> (next: RelationshipState)
    requires
        current.wf(),
    ensures
        next.wf(),
        next.is_of(current.tenant_id@, current.agent_entity_id, current.user_entity_id),
        follows(next, current.intimacy as int, messages@, texts(topics@)),
        next.updated_at == now,
{
    let mut total: i128 = current.intimacy as i128;
    let mut i: usize = 0;
    assert(messages@.subrange(0, messages@.len() as int) == messages@);
    while i < messages.len()
        invariant
            i <= messages@.len(),
            current.wf(),
            total == current.intimacy + batch_delta(messages@.subrange(0, i as int)),
        decreases messages.len() - i,
    {
        let m: &Message = &messages[i];
        proof {
            lemma_batch_bounds(messages@.subrange(0, i as int));
            assert(messages@.subrange(0, i + 1).drop_last() == messages@.subrange(0, i as int));
        }
        if m.is_user() {
            if has_positive_emotion(m.content.as_str()) {
                total = total + POSITIVE_DELTA as i128;
            }
            if has_negative_emotion(m.content.as_str()) {
                total = total - NEGATIVE_DELTA as i128;
            }
        } else if m.is_assistant() {
            if has_positive_emotion(m.content.as_str()) {
                total = total + AGENT_POSITIVE_DELTA as i128;
            }
            if has_negative_emotion(m.content.as_str()) {
                total = total - AGENT_NEGATIVE_DELTA as i128;
            }
        }
        i = i + 1;
    }
    let intimacy: i64 = if total < 0 {
        0
    } else if total > FULL_INTIMACY as i128 {
        FULL_INTIMACY
    } else {
        total as i64
    };
    RelationshipState {
        tenant_id: current.tenant_id.clone(),
        agent_entity_id: current.agent_entity_id,
        user_entity_id: current.user_entity_id,
        intimacy,
        stage: RelationshipStage::from_intimacy(intimacy),
        emotion_trend: EmotionTrend::from_delta(intimacy - current.intimacy),
        recent_topics: first_topics(topics, MAX_RECENT_TOPICS),
        updated_at: now,
    }
}

/// The snapshots of all pairs.
#[derive(Debug)]
pub struct RelationshipStore {
    pub states: Vec<RelationshipState>,
}

impl RelationshipStore {
    /// Every snapshot is well-formed, and no pair has two.
    pub open spec fn wf(self) -> bool {
        &&& forall|i: int| 0 <= i < self.states@.len() ==> (#[trigger] self.states@[i]).wf()
        &&& forall|i: int, j: int|
            0 <= i < j < self.states@.len() ==> !(#[trigger] self.states@[i]).is_of(
                (#[trigger] self.states@[j]).tenant_id@,
                self.states@[j].agent_entity_id,
                self.states@[j].user_entity_id,
            )
    }

    /// `state` is the snapshot of this pair.
    pub open spec fn holds(
        self,
        tenant_id: Seq<char>,
        agent: i64,
        user: i64,
        state: RelationshipState,
    ) -> bool {
        state.is_of(tenant_id, agent, user) && self.states@.contains(state)
    }

    /// The pair has a snapshot.
    pub open spec fn knows(self, tenant_id: Seq<char>, agent: i64, user: i64) -> bool {
        exists|i: int|
            0 <= i < self.states@.len() && (#[trigger] self.states@[i]).is_of(
                tenant_id,
                agent,
                user,
            )
    }

    /// A store without snapshots.
    pub fn new() -> (s: RelationshipStore)
        ensures
            s.wf(),
            s.states@.len() == 0,
    {
        RelationshipStore { states: Vec::new() }
    }

    /// The index of the snapshot of a pair, or the number of snapshots.
    fn find(&self, tenant_id: &str, agent: i64, user: i64) -> (i: usize)
        ensures
            i <= self.states@.len(),
            i < self.states@.len() ==> self.states@[i as int].is_of(tenant_id@, agent, user),
            i == self.states@.len() ==> !self.knows(tenant_id@, agent, user),
    {
        let mut i: usize = 0;
        while i < self.states.len()
            invariant
                i <= self.states@.len(),
                forall|k: int|
                    0 <= k < i ==> !(#[trigger] self.states@[k]).is_of(tenant_id@, agent, user),
            decreases self.states.len() - i,
        {
            let s: &RelationshipState = &self.states[i];
            if s.agent_entity_id == agent && s.user_entity_id == user && same_text(
                s.tenant_id.as_str(),
                tenant_id,
            ) {
                return i;
            }
            i = i + 1;
        }
        i
    }

    /// The snapshot of a pair; none before its first update.
    pub fn get_relationship(&self, tenant_id: &str, agent_entity_id: i64, user_entity_id: i64) -> (r:
        Option<&RelationshipState>)
        ensures
            match r {
                Some(s) => self.holds(tenant_id@, agent_entity_id, user_entity_id, *s),
                None => !self.knows(tenant_id@, agent_entity_id, user_entity_id),
            },
    {
        let i: usize = self.find(tenant_id, agent_entity_id, user_entity_id);
        if i < self.states.len() {
            Some(&self.states[i])
        } else {
            None
        }
    }

    /// Apply a batch of messages at a given time and keep the new snapshot.
    /// Snapshots of other pairs stay as they are.
    pub fn apply_messages_at(
        &mut self,
        tenant_id: &str,
        agent_entity_id: i64,
        user_entity_id: i64,
        messages: &Vec<Message>,
        topics: &Vec<String>,
        now: i64,
    ) -> (next: RelationshipState)
        requires
            old(self).wf(),
        ensures
            final(self).wf(),
            next.wf(),
            next.is_of(tenant_id@, agent_entity_id, user_entity_id),
            next.updated_at == now,
            old(self).knows(tenant_id@, agent_entity_id, user_entity_id) ==> exists|
                before: RelationshipState,
            |
                #![trigger old(self).holds(tenant_id@, agent_entity_id, user_entity_id, before)]
                old(self).holds(tenant_id@, agent_entity_id, user_entity_id, before) && follows(
                    next,
                    before.intimacy as int,
                    messages@,
                    texts(topics@),
                ),
            !old(self).knows(tenant_id@, agent_entity_id, user_entity_id) ==> follows(
                next,
                0,
                messages@,
                texts(topics@),
            ),
            exists|kept: RelationshipState|
                #![trigger final(self).holds(tenant_id@, agent_entity_id, user_entity_id, kept)]
                final(self).holds(tenant_id@, agent_entity_id, user_entity_id, kept)
                    && same_snapshot(kept, next),
            forall|t: Seq<char>, a: i64, u: i64, s: RelationshipState|
                !(t == tenant_id@ && a == agent_entity_id && u == user_entity_id) ==> (
                #[trigger] final(self).holds(t, a, u, s) <==> old(self).holds(t, a, u, s)),
    {
        let ghost start = *self;
        let i: usize = self.find(tenant_id, agent_entity_id, user_entity_id);
        let known: bool = i < self.states.len();
        let next: RelationshipState = if known {
            assert(start.holds(
                tenant_id@,
                agent_entity_id,
                user_entity_id,
                start.states@[i as int],
            ));
            updated_state(&self.states[i], messages, topics, now)
        } else {
            let fresh: RelationshipState = RelationshipState::new_at(
                tenant_id,
                agent_entity_id,
                user_entity_id,
                now,
            );
            updated_state(&fresh, messages, topics, now)
        };
        let kept: RelationshipState = next.copy();
        proof {
            assert(texts(kept.recent_topics@).len() == texts(next.recent_topics@).len());
        }
        if known {
            self.states.set(i, kept);
        } else {
            self.states.push(kept);
        }
        proof {
            assert(self.states@[i as int] == kept);
            assert(self.holds(tenant_id@, agent_entity_id, user_entity_id, kept));
            assert forall|t: Seq<char>, a: i64, u: i64, s: RelationshipState|
                !(t == tenant_id@ && a == agent_entity_id && u == user_entity_id) implies (
            #[trigger] self.holds(t, a, u, s) <==> start.holds(t, a, u, s)) by {
                if self.holds(t, a, u, s) {
                    let k = choose|k: int| 0 <= k < self.states@.len() && self.states@[k] == s;
                    assert(start.states@[k] == s);
                }
                if start.holds(t, a, u, s) {
                    let k = choose|k: int| 0 <= k < start.states@.len() && start.states@[k] == s;
                    assert(self.states@[k] == s);
                }
            }
        }
        next
    }

    /// Apply a batch of messages as of now; see
    /// [`RelationshipStore::apply_messages_at`].
    pub fn apply_messages(
        &mut self,
        tenant_id: &str,
        agent_entity_id: i64,
        user_entity_id: i64,
        messages: &Vec<Message>,
        topics: &Vec<String>,
    ) -> (next: RelationshipState)
        requires
            old(self).wf(),
        ensures
            final(self).wf(),
            next.wf(),
            next.is_of(tenant_id@, agent_entity_id, user_entity_id),
            old(self).knows(tenant_id@, agent_entity_id, user_entity_id) ==> exists|
                before: RelationshipState,
            |
                #![trigger old(self).holds(tenant_id@, agent_entity_id, user_entity_id, before)]
                old(self).holds(tenant_id@, agent_entity_id, user_entity_id, before) && follows(
                    next,
                    before.intimacy as int,
                    messages@,
                    texts(topics@),
                ),
            !old(self).knows(tenant_id@, agent_entity_id, user_entity_id) ==> follows(
                next,
                0,
                messages@,
                texts(topics@),
            ),
            exists|kept: RelationshipState|
                #![trigger final(self).holds(tenant_id@, agent_entity_id, user_entity_id, kept)]
                final(self).holds(tenant_id@, agent_entity_id, user_entity_id, kept)
                    && same_snapshot(kept, next),
            forall|t: Seq<char>, a: i64, u: i64, s: RelationshipState|
                !(t == tenant_id@ && a == agent_entity_id && u == user_entity_id) ==> (
                #[trigger] final(self).holds(t, a, u, s) <==> old(self).holds(t, a, u, s)),
    {
        self.apply_messages_at(
            tenant_id,
            agent_entity_id,
            user_entity_id,
            messages,
            topics,
            unix_seconds(),
        )
    }
}

/// Two snapshots say the same.
pub open spec fn same_snapshot(a: RelationshipState, b: RelationshipState) -> bool {
    &&& a.intimacy == b.intimacy
    &&& a.stage == b.stage
    &&& a.emotion_trend == b.emotion_trend
    &&& texts(a.recent_topics@) == texts(b.recent_topics@)
    &&& a.updated_at == b.updated_at
}

/// A pair has one snapshot: what is read of it is what was written.
pub proof fn law_one_snapshot_per_pair(
    store: RelationshipStore,
    tenant_id: Seq<char>,
    agent: i64,
    user: i64,
    a: RelationshipState,
    b: RelationshipState,
)
    requires
        store.wf(),
        store.holds(tenant_id, agent, user, a),
        store.holds(tenant_id, agent, user, b),
    ensures
        a == b,
{
    let i = choose|i: int| 0 <= i < store.states@.len() && store.states@[i] == a;
    let j = choose|j: int| 0 <= j < store.states@.len() && store.states@[j] == b;
    if i < j {
        assert(!store.states@[i].is_of(
            store.states@[j].tenant_id@,
            store.states@[j].agent_entity_id,
            store.states@[j].user_entity_id,
        ));
    } else if j < i {
        assert(!store.states@[j].is_of(
            store.states@[i].tenant_id@,
            store.states@[i].agent_entity_id,
            store.states@[i].user_entity_id,
        ));
    }
}

/// More intimacy never means an earlier stage.
pub proof fn law_stages_rise_with_intimacy(a: int, b: int)
    requires
        a <= b,
    ensures
        RelationshipStage::of(a) is Partner ==> RelationshipStage::of(b) is Partner,
        RelationshipStage::of(a) is Companion ==> RelationshipStage::of(b) is Companion
            || RelationshipStage::of(b) is Partner,
        RelationshipStage::of(b) is Stranger ==> RelationshipStage::of(a) is Stranger,
{
}

/// The message moves no relationship: it shows no emotion, or it is neither the
/// user's nor the assistant's.
pub open spec fn is_neutral(m: Message) -> bool {
    ||| m.role@ != "user"@ && m.role@ != "assistant"@
    ||| !has_any(m.content@, positive_words()) && !has_any(m.content@, negative_words())
}

/// A batch in which neither the user nor the assistant shows emotion changes
/// neither intimacy nor stage, and the trend is stable.
pub proof fn law_neutral_messages_change_nothing(
    next: RelationshipState,
    before: RelationshipState,
    messages: Seq<Message>,
    topics: Seq<Seq<char>>,
)
    requires
        before.wf(),
        follows(next, before.intimacy as int, messages, topics),
        forall|i: int| 0 <= i < messages.len() ==> is_neutral(#[trigger] messages[i]),
    ensures
        next.intimacy == before.intimacy,
        next.stage == before.stage,
        next.emotion_trend is Stable,
{
    lemma_neutral_delta(messages);
}

/// Messages without emotion add up to nothing.
proof fn lemma_neutral_delta(v: Seq<Message>)
    requires
        forall|i: int| 0 <= i < v.len() ==> is_neutral(#[trigger] v[i]),
    ensures
        batch_delta(v) == 0,
    decreases v.len(),
{
    if v.len() > 0 {
        let front = v.drop_last();
        assert forall|i: int| 0 <= i < front.len() implies is_neutral(#[trigger] front[i]) by {
            assert(front[i] == v[i]);
        }
        lemma_neutral_delta(front);
        assert(v.last() == v[v.len() - 1]);
    }
}

/// The message is the user's or the assistant's.
pub open spec fn is_of_the_two(m: Message) -> bool {
    m.role@ == "user"@ || m.role@ == "assistant"@
}

/// One of the words of positive emotion stands in what is said.
pub open spec fn shows_positive(m: Message) -> bool {
    exists|i: int, at: int|
        #![trigger occurs_at(m.content@, positive_words()[i], at)]
        0 <= i < positive_words().len() && occurs_at(m.content@, positive_words()[i], at)
}

/// One of the words of negative emotion stands in what is said.
pub open spec fn shows_negative(m: Message) -> bool {
    exists|i: int, at: int|
        #![trigger occurs_at(m.content@, negative_words()[i], at)]
        0 <= i < negative_words().len() && occurs_at(m.content@, negative_words()[i], at)
}

/// A message shows an emotion when a word of it stands in what is said.
proof fn lemma_shows(m: Message)
    ensures
        shows_positive(m) == has_any(m.content@, positive_words()),
        shows_negative(m) == has_any(m.content@, negative_words()),
{
    let p = positive_words();
    let n = negative_words();
    if shows_positive(m) {
        let (i, at) = choose|i: int, at: int|
            #![trigger occurs_at(m.content@, p[i], at)]
            0 <= i < p.len() && occurs_at(m.content@, p[i], at);
        assert(has_part(m.content@, p[i]));
    }
    if has_any(m.content@, p) {
        let i = choose|i: int| 0 <= i < p.len() && has_part(m.content@, #[trigger] p[i]);
        let at = choose|at: int| occurs_at(m.content@, p[i], at);
        assert(occurs_at(m.content@, positive_words()[i], at));
    }
    if shows_negative(m) {
        let (i, at) = choose|i: int, at: int|
            #![trigger occurs_at(m.content@, n[i], at)]
            0 <= i < n.len() && occurs_at(m.content@, n[i], at);
        assert(has_part(m.content@, n[i]));
    }
    if has_any(m.content@, n) {
        let i = choose|i: int| 0 <= i < n.len() && has_part(m.content@, #[trigger] n[i]);
        let at = choose|at: int| occurs_at(m.content@, n[i], at);
        assert(occurs_at(m.content@, negative_words()[i], at));
    }
}

/// No word of emotion is both positive and negative, or empty.
pub proof fn law_words_of_emotion_differ(i: int, j: int)
    requires
        0 <= i < positive_words().len(),
        0 <= j < negative_words().len(),
    ensures
        positive_words()[i].len() > 0,
        negative_words()[j].len() > 0,
        positive_words()[i] != negative_words()[j],
{
    reveal_strlit("开心");
    reveal_strlit("高兴");
    reveal_strlit("好开心");
    reveal_strlit("快乐");
    reveal_strlit("温暖");
    reveal_strlit("信任");
    reveal_strlit("喜欢");
    reveal_strlit("爱");
    reveal_strlit("感谢");
    reveal_strlit("谢谢");
    reveal_strlit("幸福");
    reveal_strlit("安心");
    reveal_strlit("欣慰");
    reveal_strlit("期待");
    reveal_strlit("依赖");
    reveal_strlit("难过");
    reveal_strlit("伤心");
    reveal_strlit("生气");
    reveal_strlit("讨厌");
    reveal_strlit("害怕");
    reveal_strlit("烦");
    reveal_strlit("压力");
    reveal_strlit("委屈");
    reveal_strlit("失望");
    reveal_strlit("痛苦");
    reveal_strlit("焦虑");
    reveal_strlit("愤怒");
    reveal_strlit("孤独");
    reveal_strlit("疲惫");
    reveal_strlit("心累");
    reveal_strlit("崩溃");
    assert(positive_words()[i][0] != negative_words()[j][0]);
}

/// The change that a message makes has the sign of its emotion, whichever of
/// the two speaks: joy brings them closer and anger drives them apart; a
/// message that shows both, or none, leaves them where they are.
proof fn lemma_sign_of_a_message(m: Message)
    ensures
        is_of_the_two(m) && shows_positive(m) && !shows_negative(m) ==> message_delta(m) > 0,
        is_of_the_two(m) && shows_negative(m) && !shows_positive(m) ==> message_delta(m) < 0,
        !is_of_the_two(m) || shows_negative(m) == shows_positive(m) ==> message_delta(m) == 0,
        m.role@ == "user"@ ==> -2 <= message_delta(m) <= 2 && message_delta(m) % 2 == 0,
        m.role@ == "assistant"@ ==> -1 <= message_delta(m) <= 1,
{
    lemma_shows(m);
    reveal_strlit("user");
    reveal_strlit("assistant");
    assert("user"@.len() != "assistant"@.len());
}

/// Anger drives apart: a batch in which every message is one of the two's,
/// shows negative emotion and no positive one never raises intimacy, and lowers
/// it, by at least one hundredth per message as far as there is any left. The
/// trend is then declining, and the stage no later than before.
pub proof fn law_anger_drives_apart(
    next: RelationshipState,
    before: RelationshipState,
    messages: Seq<Message>,
    topics: Seq<Seq<char>>,
)
    requires
        before.wf(),
        follows(next, before.intimacy as int, messages, topics),
        messages.len() > 0,
        forall|i: int|
            0 <= i < messages.len() ==> is_of_the_two(#[trigger] messages[i]) && shows_negative(
                messages[i],
            ) && !shows_positive(messages[i]),
    ensures
        next.intimacy == 0 || next.intimacy <= before.intimacy - messages.len(),
        next.intimacy <= before.intimacy,
        before.intimacy > 0 ==> next.intimacy < before.intimacy && next.emotion_trend is Declining,
        before.intimacy == 0 ==> next.intimacy == 0 && next.emotion_trend is Stable,
{
    lemma_batch_of_one_sign(messages, -1);
}

/// Joy brings closer: a batch in which every message is one of the two's, shows
/// positive emotion and no negative one never lowers intimacy, and raises it,
/// by at least one hundredth per message up to the highest. The trend is then
/// rising.
pub proof fn law_joy_brings_closer(
    next: RelationshipState,
    before: RelationshipState,
    messages: Seq<Message>,
    topics: Seq<Seq<char>>,
)
    requires
        before.wf(),
        follows(next, before.intimacy as int, messages, topics),
        messages.len() > 0,
        forall|i: int|
            0 <= i < messages.len() ==> is_of_the_two(#[trigger] messages[i]) && shows_positive(
                messages[i],
            ) && !shows_negative(messages[i]),
    ensures
        next.intimacy == 100 || next.intimacy >= before.intimacy + messages.len(),
        next.intimacy >= before.intimacy,
        before.intimacy < 100 ==> next.intimacy > before.intimacy && next.emotion_trend is Rising,
        before.intimacy == 100 ==> next.intimacy == 100 && next.emotion_trend is Stable,
{
    lemma_batch_of_one_sign(messages, 1);
}

/// Messages of one emotion add up to a change of its sign.
proof fn lemma_batch_of_one_sign(v: Seq<Message>, sign: int)
    requires
        sign == 1 || sign == -1,
        forall|i: int|
            0 <= i < v.len() ==> is_of_the_two(#[trigger] v[i]) && shows_positive(v[i]) == (sign
                == 1) && shows_negative(v[i]) == (sign == -1),
    ensures
        sign == 1 ==> batch_delta(v) >= v.len(),
        sign == -1 ==> batch_delta(v) <= -v.len(),
    decreases v.len(),
{
    if v.len() > 0 {
        let front = v.drop_last();
        assert forall|i: int| 0 <= i < front.len() implies is_of_the_two(#[trigger] front[i])
            && shows_positive(front[i]) == (sign == 1) && shows_negative(front[i]) == (sign
            == -1) by {
            assert(front[i] == v[i]);
        }
        lemma_batch_of_one_sign(front, sign);
        assert(v.last() == v[v.len() - 1]);
        lemma_sign_of_a_message(v.last());
    }
}

/// What the user says weighs twice what the assistant says: the same words, of
/// one emotion, move intimacy by two hundredths from the user and by one from
/// the assistant, up for a positive emotion and down for a negative one, as
/// long as the range is not left.
pub proof fn law_user_weighs_double(
    by_user: RelationshipState,
    by_assistant: RelationshipState,
    before: RelationshipState,
    said_by_user: Message,
    said_by_assistant: Message,
    topics: Seq<Seq<char>>,
)
    requires
        2 <= before.intimacy <= 98,
        said_by_user.role@ == "user"@,
        said_by_assistant.role@ == "assistant"@,
        said_by_user.content@ == said_by_assistant.content@,
        follows(by_user, before.intimacy as int, seq![said_by_user], topics),
        follows(by_assistant, before.intimacy as int, seq![said_by_assistant], topics),
    ensures
        by_user.intimacy - before.intimacy == 2 * (by_assistant.intimacy - before.intimacy),
        shows_positive(said_by_user) && !shows_negative(said_by_user) ==> by_user.intimacy
            == before.intimacy + 2 && by_assistant.intimacy == before.intimacy + 1,
        shows_negative(said_by_user) && !shows_positive(said_by_user) ==> by_user.intimacy
            == before.intimacy - 2 && by_assistant.intimacy == before.intimacy - 1,
        shows_negative(said_by_user) == shows_positive(said_by_user) ==> by_user.intimacy
            == before.intimacy,
{
    lemma_shows(said_by_user);
    lemma_shows(said_by_assistant);
    lemma_sign_of_a_message(said_by_user);
    lemma_sign_of_a_message(said_by_assistant);
    lemma_one_message(said_by_user);
    lemma_one_message(said_by_assistant);
}

/// A batch of one message does what the message does.
proof fn lemma_one_message(m: Message)
    ensures
        batch_delta(seq![m]) == message_delta(m),
{
    assert(seq![m].drop_last() =~= Seq::empty());
    assert(batch_delta(Seq::<Message>::empty()) == 0);
}

/// A batch after another.
proof fn lemma_batches_add(a: Seq<Message>, b: Seq<Message>)
    ensures
        batch_delta(a + b) == batch_delta(a) + batch_delta(b),
    decreases b.len(),
{
    if b.len() == 0 {
        assert(a + b =~= a);
    } else {
        assert((a + b).drop_last() =~= a + b.drop_last());
        assert((a + b).last() == b.last());
        lemma_batches_add(a, b.drop_last());
    }
}

/// It does not matter how messages are split into batches: one batch after the
/// other leaves the two where both at once do, as long as no batch comes to the
/// end of the range.
pub proof fn law_batches_add_up(
    middle: RelationshipState,
    after: RelationshipState,
    at_once: RelationshipState,
    before: RelationshipState,
    first: Seq<Message>,
    second: Seq<Message>,
    topics: Seq<Seq<char>>,
)
    requires
        before.wf(),
        follows(middle, before.intimacy as int, first, topics),
        follows(after, middle.intimacy as int, second, topics),
        follows(at_once, before.intimacy as int, first + second, topics),
        0 < middle.intimacy < 100,
    ensures
        after.intimacy == at_once.intimacy,
        after.stage == at_once.stage,
{
    lemma_batches_add(first, second);
}

/// The snapshot tells its own story: intimacy stays from 0 to 100, the trend is
/// the direction in which it moved, the stage the one of the new intimacy, from
/// stranger below 20 over acquaintance and companion to partner from 80, and the
/// topics are the first ten, in order.
pub proof fn law_snapshot_tells_the_change(
    next: RelationshipState,
    before: RelationshipState,
    messages: Seq<Message>,
    topics: Seq<Seq<char>>,
)
    requires
        before.wf(),
        follows(next, before.intimacy as int, messages, topics),
    ensures
        0 <= next.intimacy <= 100,
        next.emotion_trend is Rising <==> next.intimacy > before.intimacy,
        next.emotion_trend is Declining <==> next.intimacy < before.intimacy,
        next.stage is Stranger <==> next.intimacy < 20,
        next.stage is Acquaintance <==> 20 <= next.intimacy < 50,
        next.stage is Companion <==> 50 <= next.intimacy < 80,
        next.stage is Partner <==> next.intimacy >= 80,
        next.recent_topics@.len() == (if topics.len() <= 10 {
            topics.len()
        } else {
            10
        }),
        forall|i: int|
            0 <= i < next.recent_topics@.len() ==> (#[trigger] next.recent_topics@[i])@
                == topics[i],
{
    assert(texts(next.recent_topics@).len() == next.recent_topics@.len());
    assert forall|i: int| 0 <= i < next.recent_topics@.len() implies (
    #[trigger] next.recent_topics@[i])@ == topics[i] by {
        assert(texts(next.recent_topics@)[i] == next.recent_topics@[i]@);
    }
}

/// A snapshot is of one pair under one tenant only.
pub proof fn law_snapshots_are_of_one_pair(
    s: RelationshipState,
    tenant_a: Seq<char>,
    agent_a: i64,
    user_a: i64,
    tenant_b: Seq<char>,
    agent_b: i64,
    user_b: i64,
)
    requires
        s.is_of(tenant_a, agent_a, user_a),
        s.is_of(tenant_b, agent_b, user_b),
    ensures
        tenant_a == tenant_b,
        agent_a == agent_b,
        user_a == user_b,
{
}

} // verus!
