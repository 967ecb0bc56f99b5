//! The context block that is put in front of a model: what is known, what was
//! decided, where the session stands, and what was said last.
use vstd::prelude::*;

use crate::order::{as_ints, lemma_sorted_indices, sort_indices, sorted_indices, SortKey};
use crate::text::{
    cat, cat3, decimal, decimal_text, first_chars, join, joined, take_chars, texts,
};
use crate::types::{CompiledConversation, Decision, Memory, Message, ReasoningStep, SessionState};

verus! {

/// How many memories are shown.
pub const MAX_KNOWLEDGE: usize = 5;

/// How many decisions are shown.
pub const MAX_DECISIONS: usize = 3;

/// How many of the last messages are shown.
pub const MAX_RECENT: usize = 3;

/// How many characters of a message are shown.
pub const MAX_MESSAGE_CHARS: usize = 200;

/// Keys that sort by descending rank.
pub open spec fn descending(ranks: Seq<i64>) -> Seq<SortKey> {
    Seq::new(
        ranks.len(),
        |i: int| SortKey { major: (-(ranks[i] as int)) as i128, middle: 0, minor: 0 },
    )
}

/// The indices by descending rank; equal ranks keep the order they have.
pub open spec fn by_importance(ranks: Seq<i64>) -> Seq<int> {
    sorted_indices(descending(ranks))
}

/// The ranks of memories.
pub open spec fn memory_ranks(v: Seq<Memory>) -> Seq<i64> {
    Seq::new(v.len(), |i: int| v[i].importance.rank)
}

/// The ranks of decisions.
pub open spec fn decision_ranks(v: Seq<Decision>) -> Seq<i64> {
    Seq::new(v.len(), |i: int| v[i].importance.rank)
}

/// The smaller of two lengths.
pub open spec fn at_most(n: nat, cap: nat) -> nat {
    if n <= cap {
        n
    } else {
        cap
    }
}

/// A memory in one line: its importance, and its summary if it has one.
pub open spec fn memory_line(m: Memory) -> Seq<char> {
    "- ["@ + decimal(m.importance.percent as nat) + "%] "@ + (if m.summary@.len() == 0 {
        m.content@
    } else {
        m.summary@
    })
}

/// The section of the most important memories; nothing without any.
pub open spec fn knowledge_section(v: Seq<Memory>) -> Seq<Seq<char>> {
    if v.len() == 0 {
        Seq::empty()
    } else {
        seq!["## Knowledge"@] + Seq::new(
            at_most(v.len(), MAX_KNOWLEDGE as nat),
            |i: int| memory_line(v[by_importance(memory_ranks(v))[i]]),
        ) + seq![Seq::<char>::empty()]
    }
}

/// A decision in one line.
pub open spec fn decision_line(d: Decision) -> Seq<char> {
    "- "@ + d.decision@ + " ("@ + d.module@ + ")"@
}

/// The section of the most important decisions; nothing without any.
pub open spec fn decision_section(v: Seq<Decision>) -> Seq<Seq<char>> {
    if v.len() == 0 {
        Seq::empty()
    } else {
        seq!["## Decisions"@] + Seq::new(
            at_most(v.len(), MAX_DECISIONS as nat),
            |i: int| decision_line(v[by_importance(decision_ranks(v))[i]]),
        ) + seq![Seq::<char>::empty()]
    }
}

/// One line, if its content is not empty.
pub open spec fn line_unless(empty: bool, line: Seq<char>) -> Seq<Seq<char>> {
    if empty {
        Seq::empty()
    } else {
        seq![line]
    }
}

/// A reasoning step: what triggered it, the tool and how it went, and the
/// reasoning if there is one.
pub open spec fn step_lines(s: ReasoningStep) -> Seq<Seq<char>> {
    seq![
        "- Trigger: "@ + s.trigger@,
        "  Tool: "@ + s.tool_name@ + "("@ + s.tool_args@ + ")"@,
        "  Status: "@ + s.status@,
    ] + line_unless(s.reasoning@.len() == 0, "  → "@ + s.reasoning@)
}

/// The lines of all reasoning steps.
pub open spec fn chain_lines(v: Seq<ReasoningStep>) -> Seq<Seq<char>>
    decreases v.len(),
{
    if v.len() == 0 {
        Seq::empty()
    } else {
        chain_lines(v.drop_last()) + step_lines(v.last())
    }
}

/// The section of the reasoning chain; nothing without one.
pub open spec fn chain_section(v: Seq<ReasoningStep>) -> Seq<Seq<char>> {
    if v.len() == 0 {
        Seq::empty()
    } else {
        seq!["## Reasoning Chain"@] + chain_lines(v) + seq![Seq::<char>::empty()]
    }
}

/// The section on the session, which is always there.
pub open spec fn session_section(s: SessionState) -> Seq<Seq<char>> {
    seq!["## Session State"@] + line_unless(
        s.current_goal@.len() == 0,
        "- Goal: "@ + s.current_goal@,
    ) + line_unless(s.current_module@.len() == 0, "- Module: "@ + s.current_module@) + line_unless(
        s.current_files@.len() == 0,
        "- Files: "@ + joined(texts(s.current_files@), ", "@),
    ) + line_unless(
        s.open_problems@.len() == 0,
        "- Problems: "@ + joined(texts(s.open_problems@), "; "@),
    ) + chain_section(s.reasoning_chain@)
}

/// A message in one line: the speaker and the beginning of the content, with
/// an ellipsis exactly when something was cut off.
pub open spec fn message_line(m: Message) -> Seq<char> {
    m.role@ + ": "@ + first_chars(m.content@, MAX_MESSAGE_CHARS as nat) + (if m.content@.len()
        > MAX_MESSAGE_CHARS {
        "…"@
    } else {
        ""@
    })
}

/// The section of the last messages, oldest first; nothing without any.
pub open spec fn recent_section(v: Seq<Message>) -> Seq<Seq<char>> {
    if v.len() == 0 {
        Seq::empty()
    } else {
        let n = at_most(v.len(), MAX_RECENT as nat);
        seq!["## Recent"@] + Seq::new(n, |i: int| message_line(v[v.len() - n + i]))
    }
}

/// The whole context block.
pub open spec fn prompt_text(recent: Seq<Message>, c: CompiledConversation) -> Seq<char> {
    joined(
        knowledge_section(c.knowledge@) + decision_section(c.decisions@) + session_section(
            c.session,
        ) + recent_section(recent),
        "\n"@,
    )
}

/// Add a line.
fn push_line(parts: &mut Vec<String>, line: String)
    ensures
        texts(final(parts)@) == texts(old(parts)@).push(line@),
{
    let ghost before = parts@;
    parts.push(line);
    assert(texts(parts@) =~= texts(before).push(line@));
}

/// The keys that sort by descending rank.
fn descending_keys(ranks: &Vec<i64>) -> (keys: Vec<SortKey>)
    ensures
        keys@ == descending(ranks@),
{
    let mut keys: Vec<SortKey> = Vec::new();
    let mut i: usize = 0;
    while i < ranks.len()
        invariant
            i <= ranks@.len(),
            keys@ == descending(ranks@).subrange(0, i as int),
        decreases ranks.len() - i,
    {
        keys.push(SortKey { major: -(ranks[i] as i128), middle: 0, minor: 0 });
        assert(keys@ =~= descending(ranks@).subrange(0, i + 1));
        i = i + 1;
    }
    assert(keys@ =~= descending(ranks@));
    keys
}

/// Add the section of the most important memories.
fn push_knowledge(parts: &mut Vec<String>, v: &Vec<Memory>)
    ensures
        texts(final(parts)@) == texts(old(parts)@) + knowledge_section(v@),
{
    let ghost start = texts(parts@);
    if v.len() == 0 {
        assert(start + knowledge_section(v@) =~= start);
        return;
    }
    let mut ranks: Vec<i64> = Vec::new();
    let mut i: usize = 0;
    while i < v.len()
        invariant
            i <= v@.len(),
            ranks@ == memory_ranks(v@).subrange(0, i as int),
        decreases v.len() - i,
    {
        ranks.push(v[i].importance.rank);
        assert(ranks@ =~= memory_ranks(v@).subrange(0, i + 1));
        i = i + 1;
    }
    assert(ranks@ =~= memory_ranks(v@));
    let keys: Vec<SortKey> = descending_keys(&ranks);
    let order: Vec<usize> = sort_indices(&keys);
    push_line(parts, "## Knowledge".to_owned());
    let ghost lines = knowledge_section(v@);
    let mut k: usize = 0;
    assert(texts(parts@) =~= start + lines.subrange(0, 1));
    while k < order.len() && k < MAX_KNOWLEDGE
        invariant
            k <= order@.len() == v@.len(),
            k <= MAX_KNOWLEDGE,
            v@.len() > 0,
            lines == knowledge_section(v@),
            as_ints(order@) == by_importance(memory_ranks(v@)),
            forall|p: int| 0 <= p < order@.len() ==> (#[trigger] order@[p]) < v@.len(),
            texts(parts@) == start + lines.subrange(0, k + 1),
        decreases order.len() - k,
    {
        assert(by_importance(memory_ranks(v@))[k as int] == order@[k as int]);
        let m: &Memory = &v[order[k]];
        let percent: String = decimal_text(m.importance.percent as u64);
        let head: String = cat3("- [", percent.as_str(), "%] ");
        let line: String = if m.summary.as_str().is_empty() {
            cat(head.as_str(), m.content.as_str())
        } else {
            cat(head.as_str(), m.summary.as_str())
        };
        assert(line@ == memory_line(*m));
        push_line(parts, line);
        assert(lines[k + 1] == memory_line(*m));
        assert(texts(parts@) =~= start + lines.subrange(0, k + 2));
        k = k + 1;
    }
    push_line(parts, String::new());
    assert(texts(parts@) =~= start + lines);
}

/// Add the section of the most important decisions.
fn push_decisions(parts: &mut Vec<String>, v: &Vec<Decision>)
    ensures
        texts(final(parts)@) == texts(old(parts)@) + decision_section(v@),
{
    let ghost start = texts(parts@);
    if v.len() == 0 {
        assert(start + decision_section(v@) =~= start);
        return;
    }
    let mut ranks: Vec<i64> = Vec::new();
    let mut i: usize = 0;
    while i < v.len()
        invariant
            i <= v@.len(),
            ranks@ == decision_ranks(v@).subrange(0, i as int),
        decreases v.len() - i,
    {
        ranks.push(v[i].importance.rank);
        assert(ranks@ =~= decision_ranks(v@).subrange(0, i + 1));
        i = i + 1;
    }
    assert(ranks@ =~= decision_ranks(v@));
    let keys: Vec<SortKey> = descending_keys(&ranks);
    let order: Vec<usize> = sort_indices(&keys);
    push_line(parts, "## Decisions".to_owned());
    let ghost lines = decision_section(v@);
    let mut k: usize = 0;
    assert(texts(parts@) =~= start + lines.subrange(0, 1));
    while k < order.len() && k < MAX_DECISIONS
        invariant
            k <= order@.len() == v@.len(),
            k <= MAX_DECISIONS,
            v@.len() > 0,
            lines == decision_section(v@),
            as_ints(order@) == by_importance(decision_ranks(v@)),
            forall|p: int| 0 <= p < order@.len() ==> (#[trigger] order@[p]) < v@.len(),
            texts(parts@) == start + lines.subrange(0, k + 1),
        decreases order.len() - k,
    {
        assert(by_importance(decision_ranks(v@))[k as int] == order@[k as int]);
        let d: &Decision = &v[order[k]];
        let head: String = cat3("- ", d.decision.as_str(), " (");
        let line: String = cat3(head.as_str(), d.module.as_str(), ")");
        assert(line@ == decision_line(*d));
        push_line(parts, line);
        assert(lines[k + 1] == decision_line(*d));
        assert(texts(parts@) =~= start + lines.subrange(0, k + 2));
        k = k + 1;
    }
    push_line(parts, String::new());
    assert(texts(parts@) =~= start + lines);
}

/// Add the lines of a reasoning step.
fn push_step(parts: &mut Vec<String>, s: &ReasoningStep)
    ensures
        texts(final(parts)@) == texts(old(parts)@) + step_lines(*s),
{
    let ghost start = texts(parts@);
    push_line(parts, cat("- Trigger: ", s.trigger.as_str()));
    let head: String = cat3("  Tool: ", s.tool_name.as_str(), "(");
    push_line(parts, cat3(head.as_str(), s.tool_args.as_str(), ")"));
    push_line(parts, cat("  Status: ", s.status.as_str()));
    if !s.reasoning.as_str().is_empty() {
        push_line(parts, cat("  → ", s.reasoning.as_str()));
    }
    assert(texts(parts@) =~= start + step_lines(*s));
}

/// Add the section of the reasoning chain.
fn push_chain(parts: &mut Vec<String>, v: &Vec<ReasoningStep>)
    ensures
        texts(final(parts)@) == texts(old(parts)@) + chain_section(v@),
{
    let ghost start = texts(parts@);
    if v.len() == 0 {
        assert(start + chain_section(v@) =~= start);
        return;
    }
    push_line(parts, "## Reasoning Chain".to_owned());
    let ghost head = start.push("## Reasoning Chain"@);
    let mut i: usize = 0;
    assert(texts(parts@) =~= head + chain_lines(v@.subrange(0, 0)));
    while i < v.len()
        invariant
            i <= v@.len(),
            texts(parts@) == head + chain_lines(v@.subrange(0, i as int)),
        decreases v.len() - i,
    {
        push_step(parts, &v[i]);
        assert(v@.subrange(0, i + 1).drop_last() == v@.subrange(0, i as int));
        assert(texts(parts@) =~= head + chain_lines(v@.subrange(0, i + 1)));
        i = i + 1;
    }
    assert(v@.subrange(0, v@.len() as int) == v@);
    push_line(parts, String::new());
    assert(texts(parts@) =~= start + chain_section(v@));
}

/// Add the section on the session.
fn push_session(parts: &mut Vec<String>, s: &SessionState)
    ensures
        texts(final(parts)@) == texts(old(parts)@) + session_section(*s),
{
    let ghost start = texts(parts@);
    push_line(parts, "## Session State".to_owned());
    if !s.current_goal.as_str().is_empty() {
        push_line(parts, cat("- Goal: ", s.current_goal.as_str()));
    }
    if !s.current_module.as_str().is_empty() {
        push_line(parts, cat("- Module: ", s.current_module.as_str()));
    }
    if s.current_files.len() > 0 {
        let files: String = join(&s.current_files, ", ");
        push_line(parts, cat("- Files: ", files.as_str()));
    }
    if s.open_problems.len() > 0 {
        let problems: String = join(&s.open_problems, "; ");
        push_line(parts, cat("- Problems: ", problems.as_str()));
    }
    push_chain(parts, &s.reasoning_chain);
    assert(texts(parts@) =~= start + session_section(*s));
}

/// Add the section of the last messages.
fn push_recent(parts: &mut Vec<String>, v: &Vec<Message>)
    ensures
        texts(final(parts)@) == texts(old(parts)@) + recent_section(v@),
{
    let ghost start = texts(parts@);
    if v.len() == 0 {
        assert(start + recent_section(v@) =~= start);
        return;
    }
    push_line(parts, "## Recent".to_owned());
    let ghost lines = recent_section(v@);
    let n: usize = if v.len() <= MAX_RECENT {
        v.len()
    } else {
        MAX_RECENT
    };
    let mut k: usize = 0;
    assert(texts(parts@) =~= start + lines.subrange(0, 1));
    while k < n
        invariant
            k <= n <= v@.len(),
            n == at_most(v@.len(), MAX_RECENT as nat),
            v@.len() > 0,
            lines == recent_section(v@),
            texts(parts@) == start + lines.subrange(0, k + 1),
        decreases n - k,
    {
        let m: &Message = &v[v.len() - n + k];
        let shown: String = take_chars(m.content.as_str(), MAX_MESSAGE_CHARS);
        let head: String = cat3(m.role.as_str(), ": ", shown.as_str());
        let line: String = if m.content.as_str().unicode_len() > MAX_MESSAGE_CHARS {
            cat(head.as_str(), "…")
        } else {
            cat(head.as_str(), "")
        };
        assert(line@ == message_line(*m));
        push_line(parts, line);
        assert(lines[k + 1] == message_line(*m));
        assert(texts(parts@) =~= start + lines.subrange(0, k + 2));
        k = k + 1;
    }
    assert(texts(parts@) =~= start + lines);
}

/// Builds context blocks.
#[derive(Debug)]
pub struct PromptBuilder;

impl PromptBuilder {
    /// The context block for a compiled conversation and its last messages.
    pub fn build(&self, recent_messages: &Vec<Message>, compiled: &CompiledConversation) -> (p:
        String)
        ensures
            p@ == prompt_text(recent_messages@, *compiled),
    {
        let mut parts: Vec<String> = Vec::new();
        assert(texts(parts@) =~= Seq::empty());
        push_knowledge(&mut parts, &compiled.knowledge);
        push_decisions(&mut parts, &compiled.decisions);
        push_session(&mut parts, &compiled.session);
        push_recent(&mut parts, recent_messages);
        assert(texts(parts@) =~= knowledge_section(compiled.knowledge@) + decision_section(
            compiled.decisions@,
        ) + session_section(compiled.session) + recent_section(recent_messages@));
        join(&parts, "\n")
    }
}

/// What is shown outranks what is not: a memory on the list ranks at least as
/// high as every memory further down, and equally ranked memories keep their
/// order.
pub proof fn law_most_important_first(v: Seq<Memory>, a: int, b: int)
    requires
        0 <= a < b < v.len(),
    ensures
        ({
            let first = by_importance(memory_ranks(v))[a];
            let second = by_importance(memory_ranks(v))[b];
            &&& 0 <= first < v.len()
            &&& 0 <= second < v.len()
            &&& v[first].importance.rank >= v[second].importance.rank
            &&& v[first].importance.rank == v[second].importance.rank ==> first <= second
        }),
{
    let keys = descending(memory_ranks(v));
    lemma_sorted_indices(keys);
    let first = by_importance(memory_ranks(v))[a];
    let second = by_importance(memory_ranks(v))[b];
    assert(crate::order::by_key(keys)(first, second));
}

/// Two lists of lines, joined, stand one behind the other.
proof fn lemma_joined_parts(a: Seq<Seq<char>>, b: Seq<Seq<char>>, sep: Seq<char>)
    requires
        a.len() > 0,
        b.len() > 0,
    ensures
        joined(a + b, sep) == joined(a, sep) + sep + joined(b, sep),
    decreases b.len(),
{
    let all = a + b;
    assert(all.last() == b.last());
    if b.len() == 1 {
        assert(all.drop_last() =~= a);
    } else {
        assert(all.drop_last() =~= a + b.drop_last());
        lemma_joined_parts(a, b.drop_last(), sep);
        assert(joined(all, sep) =~= joined(a, sep) + sep + joined(b, sep));
    }
}

/// The lines of the context block in front of the last messages.
spec fn lines_before_recent(c: CompiledConversation) -> Seq<Seq<char>> {
    knowledge_section(c.knowledge@) + decision_section(c.decisions@) + session_section(c.session)
}

/// The context block with one more line for a message.
proof fn lemma_recent_grows(recent: Seq<Message>, m: Message, c: CompiledConversation)
    requires
        recent.len() < 3,
    ensures
        recent.len() == 0 ==> prompt_text(recent.push(m), c) == prompt_text(recent, c) + "\n"@
            + "## Recent"@ + "\n"@ + message_line(m),
        recent.len() > 0 ==> prompt_text(recent.push(m), c) == prompt_text(recent, c) + "\n"@
            + message_line(m),
{
    let more = recent.push(m);
    let front = lines_before_recent(c);
    assert(session_section(c.session).len() > 0);
    assert(front.len() > 0);
    let line = message_line(m);
    if recent.len() == 0 {
        assert(recent_section(more) =~= seq!["## Recent"@, line]);
        assert(front + recent_section(recent) =~= front);
        let two = front.push("## Recent"@);
        assert(front + recent_section(more) =~= two.push(line));
        assert(two.push(line).drop_last() =~= two);
        assert(two.drop_last() =~= front);
        assert(joined(two, "\n"@) == joined(front, "\n"@) + "\n"@ + "## Recent"@);
        assert(joined(two.push(line), "\n"@) == joined(two, "\n"@) + "\n"@ + line);
        assert(prompt_text(more, c) =~= prompt_text(recent, c) + "\n"@ + "## Recent"@ + "\n"@
            + line);
    } else {
        assert(recent_section(more) =~= recent_section(recent).push(line));
        let lines = front + recent_section(recent);
        assert(front + recent_section(more) =~= lines.push(line));
        assert(lines.push(line).drop_last() =~= lines);
    }
}

/// What was said last stands last: a new message puts its line, the speaker
/// and what was said, cut after two hundred characters, at the end of the
/// block. The first message opens the section; up to three messages stay, and
/// of more only the two before the new one.
pub proof fn law_a_new_message_comes_last(recent: Seq<Message>, m: Message, c: CompiledConversation)
    ensures
        ({
            let line = m.role@ + ": "@ + (if m.content@.len() <= 200 {
                m.content@
            } else {
                m.content@.subrange(0, 200) + "…"@
            });
            let block = prompt_text(recent.push(m), c);
            let n = recent.len();
            &&& block.len() > line.len()
            &&& block.subrange(block.len() - line.len(), block.len() as int) == line
            &&& n == 0 ==> block == prompt_text(recent, c) + "\n"@ + "## Recent"@ + "\n"@ + line
            &&& 0 < n < 3 ==> block == prompt_text(recent, c) + "\n"@ + line
            &&& n >= 3 ==> block == prompt_text(
                seq![recent[n - 2], recent[n - 1], m],
                c,
            )
        }),
{
    let n = recent.len();
    let line = m.role@ + ": "@ + (if m.content@.len() <= 200 {
        m.content@
    } else {
        m.content@.subrange(0, 200) + "…"@
    });
    reveal_strlit("");
    reveal_strlit("\n");
    assert(message_line(m) =~= line);
    let block = prompt_text(recent.push(m), c);
    if n < 3 {
        lemma_recent_grows(recent, m, c);
        assert(block.subrange(block.len() - line.len(), block.len() as int) =~= line);
    } else {
        let two = seq![recent[n - 2], recent[n - 1]];
        let three = seq![recent[n - 2], recent[n - 1], m];
        assert(three =~= two.push(m));
        assert(recent_section(recent.push(m)) =~= recent_section(three));
        lemma_recent_grows(two, m, c);
        assert(block.subrange(block.len() - line.len(), block.len() as int) =~= line);
    }
}

/// Without messages there is no section of them: the block ends with where the
/// session stands.
pub proof fn law_no_messages_no_section(c: CompiledConversation)
    requires
        c.knowledge@.len() == 0,
        c.decisions@.len() == 0,
        c.session.is_blank(),
    ensures
        prompt_text(Seq::empty(), c) == "## Session State"@,
{
    assert(lines_before_recent(c) + recent_section(Seq::empty()) =~= seq!["## Session State"@]);
}

/// `shown` picks the `cap` highest ranks, highest first; of equal ranks the
/// earlier one comes first.
pub open spec fn picks_highest(shown: Seq<int>, ranks: Seq<i64>, cap: nat) -> bool {
    &&& shown.len() == (if ranks.len() <= cap {
        ranks.len()
    } else {
        cap
    })
    &&& forall|a: int| 0 <= a < shown.len() ==> 0 <= #[trigger] shown[a] < ranks.len()
    &&& forall|a: int, b: int|
        0 <= a < b < shown.len() ==> outranks(ranks, #[trigger] shown[a], #[trigger] shown[b])
    &&& forall|a: int, k: int|
        0 <= a < shown.len() && 0 <= k < ranks.len() && !shown.contains(k) ==> #[trigger] outranks(
            ranks,
            shown[a],
            k,
        )
}

/// The first index has the higher rank, or the same and comes first.
pub open spec fn outranks(ranks: Seq<i64>, i: int, k: int) -> bool {
    ranks[i] > ranks[k] || (ranks[i] == ranks[k] && i < k)
}

/// The first of the indices by importance are the highest ranks.
proof fn lemma_picks_highest(ranks: Seq<i64>, cap: nat)
    ensures
        picks_highest(
            by_importance(ranks).subrange(0, at_most(ranks.len(), cap) as int),
            ranks,
            cap,
        ),
{
    let keys = descending(ranks);
    lemma_sorted_indices(keys);
    crate::order::lemma_sorted_indices_distinct(keys);
    let all = by_importance(ranks);
    let n = at_most(ranks.len(), cap) as int;
    let shown = all.subrange(0, n);
    assert forall|a: int, b: int| 0 <= a < b < all.len() implies outranks(
        ranks,
        #[trigger] all[a],
        #[trigger] all[b],
    ) by {
        assert(crate::order::by_key(keys)(all[a], all[b]));
        assert(all[a] != all[b]);
    }
    assert forall|a: int, k: int|
        0 <= a < shown.len() && 0 <= k < ranks.len() && !shown.contains(k) implies #[trigger] outranks(
        ranks,
        shown[a],
        k,
    ) by {
        assert(all.contains(k));
        let b = choose|b: int| 0 <= b < all.len() && all[b] == k;
        if b < n {
            assert(shown[b] == k);
        }
        assert(outranks(ranks, all[a], all[b]));
    }
}

/// The five most important memories stand at the top, most important first,
/// each with its importance in percent and its summary, or what it says where
/// it has none. The rest of the block is the block without memories.
pub proof fn law_most_important_memories_are_shown(
    recent: Seq<Message>,
    c: CompiledConversation,
    rest: CompiledConversation,
) -> (shown: Seq<int>)
    requires
        c.knowledge@.len() > 0,
        rest.knowledge@.len() == 0,
        rest.decisions@ == c.decisions@,
        rest.session == c.session,
    ensures
        picks_highest(
            shown,
            Seq::new(c.knowledge@.len(), |i: int| c.knowledge@[i].importance.rank),
            5,
        ),
        prompt_text(recent, c) == "## Knowledge"@ + "\n"@ + joined(
            Seq::new(
                shown.len(),
                |i: int|
                    {
                        let m = c.knowledge@[shown[i]];
                        "- ["@ + decimal(m.importance.percent as nat) + "%] "@ + (
                        if m.summary@.len() > 0 {
                            m.summary@
                        } else {
                            m.content@
                        })
                    },
            ),
            "\n"@,
        ) + "\n"@ + "\n"@ + prompt_text(recent, rest),
{
    let v = c.knowledge@;
    let ranks = memory_ranks(v);
    let shown = by_importance(ranks).subrange(0, at_most(v.len(), 5) as int);
    lemma_sorted_indices(descending(ranks));
    lemma_picks_highest(ranks, 5);
    assert(Seq::new(v.len(), |i: int| v[i].importance.rank) =~= ranks);
    let lines = Seq::new(
        shown.len(),
        |i: int|
            {
                let m = v[shown[i]];
                "- ["@ + decimal(m.importance.percent as nat) + "%] "@ + (if m.summary@.len() > 0 {
                    m.summary@
                } else {
                    m.content@
                })
            },
    );
    let title = seq!["## Knowledge"@];
    let gap = seq![Seq::<char>::empty()];
    let tail = decision_section(c.decisions@) + session_section(c.session) + recent_section(recent);
    assert(knowledge_section(v) =~= title + lines + gap);
    assert(knowledge_section(v) + decision_section(c.decisions@) + session_section(c.session)
        + recent_section(recent) =~= title + (lines + (gap + tail)));
    assert(knowledge_section(rest.knowledge@) + decision_section(rest.decisions@)
        + session_section(rest.session) + recent_section(recent) =~= tail);
    assert(session_section(c.session).len() > 0);
    lemma_joined_parts(gap, tail, "\n"@);
    lemma_joined_parts(lines, gap + tail, "\n"@);
    lemma_joined_parts(title, lines + (gap + tail), "\n"@);
    assert(prompt_text(recent, c) =~= "## Knowledge"@ + "\n"@ + joined(lines, "\n"@) + "\n"@
        + "\n"@ + prompt_text(recent, rest));
    assert forall|i: int| 0 <= i < lines.len() implies lines[i] == ({
        let m = c.knowledge@[shown[i]];
        "- ["@ + decimal(m.importance.percent as nat) + "%] "@ + (if m.summary@.len() > 0 {
            m.summary@
        } else {
            m.content@
        })
    }) by {}
    shown
}

/// The three most important decisions stand behind the memories, most important
/// first, each with its module. The rest of the block is the block without
/// decisions.
pub proof fn law_most_important_decisions_are_shown(
    recent: Seq<Message>,
    c: CompiledConversation,
    rest: CompiledConversation,
) -> (shown: Seq<int>)
    requires
        c.knowledge@.len() == 0,
        c.decisions@.len() > 0,
        rest.knowledge@.len() == 0,
        rest.decisions@.len() == 0,
        rest.session == c.session,
    ensures
        picks_highest(
            shown,
            Seq::new(c.decisions@.len(), |i: int| c.decisions@[i].importance.rank),
            3,
        ),
        prompt_text(recent, c) == "## Decisions"@ + "\n"@ + joined(
            Seq::new(
                shown.len(),
                |i: int|
                    "- "@ + c.decisions@[shown[i]].decision@ + " ("@
                        + c.decisions@[shown[i]].module@ + ")"@,
            ),
            "\n"@,
        ) + "\n"@ + "\n"@ + prompt_text(recent, rest),
{
    let v = c.decisions@;
    let ranks = decision_ranks(v);
    let shown = by_importance(ranks).subrange(0, at_most(v.len(), 3) as int);
    lemma_sorted_indices(descending(ranks));
    lemma_picks_highest(ranks, 3);
    assert(Seq::new(v.len(), |i: int| v[i].importance.rank) =~= ranks);
    let lines = Seq::new(
        shown.len(),
        |i: int|
            "- "@ + c.decisions@[shown[i]].decision@ + " ("@ + c.decisions@[shown[i]].module@
                + ")"@,
    );
    let title = seq!["## Decisions"@];
    let gap = seq![Seq::<char>::empty()];
    let tail = session_section(c.session) + recent_section(recent);
    assert(decision_section(v) =~= title + lines + gap);
    assert(knowledge_section(c.knowledge@) + decision_section(v) + session_section(c.session)
        + recent_section(recent) =~= title + (lines + (gap + tail)));
    assert(knowledge_section(rest.knowledge@) + decision_section(rest.decisions@)
        + session_section(rest.session) + recent_section(recent) =~= tail);
    assert(session_section(c.session).len() > 0);
    lemma_joined_parts(gap, tail, "\n"@);
    lemma_joined_parts(lines, gap + tail, "\n"@);
    lemma_joined_parts(title, lines + (gap + tail), "\n"@);
    assert(prompt_text(recent, c) =~= "## Decisions"@ + "\n"@ + joined(lines, "\n"@) + "\n"@
        + "\n"@ + prompt_text(recent, rest));
    shown
}

/// What is known of the session is said, each on a line of its own and only
/// where there is something to say: the goal, the module, the files, the open
/// problems.
pub proof fn law_session_is_told(c: CompiledConversation)
    requires
        c.knowledge@.len() == 0,
        c.decisions@.len() == 0,
        c.session.reasoning_chain@.len() == 0,
    ensures
        prompt_text(Seq::empty(), c) == "## Session State"@ + (if c.session.current_goal@.len()
            > 0 {
            "\n"@ + ("- Goal: "@ + c.session.current_goal@)
        } else {
            Seq::empty()
        }) + (if c.session.current_module@.len() > 0 {
            "\n"@ + ("- Module: "@ + c.session.current_module@)
        } else {
            Seq::empty()
        }) + (if c.session.current_files@.len() > 0 {
            "\n"@ + ("- Files: "@ + joined(texts(c.session.current_files@), ", "@))
        } else {
            Seq::empty()
        }) + (if c.session.open_problems@.len() > 0 {
            "\n"@ + ("- Problems: "@ + joined(texts(c.session.open_problems@), "; "@))
        } else {
            Seq::empty()
        }),
{
    let s = c.session;
    let nl = "\n"@;
    let l0 = seq!["## Session State"@];
    let l1 = l0 + line_unless(s.current_goal@.len() == 0, "- Goal: "@ + s.current_goal@);
    let l2 = l1 + line_unless(s.current_module@.len() == 0, "- Module: "@ + s.current_module@);
    let l3 = l2 + line_unless(
        s.current_files@.len() == 0,
        "- Files: "@ + joined(texts(s.current_files@), ", "@),
    );
    let l4 = l3 + line_unless(
        s.open_problems@.len() == 0,
        "- Problems: "@ + joined(texts(s.open_problems@), "; "@),
    );
    lemma_line_unless(l0, s.current_goal@.len() == 0, "- Goal: "@ + s.current_goal@);
    lemma_line_unless(l1, s.current_module@.len() == 0, "- Module: "@ + s.current_module@);
    lemma_line_unless(
        l2,
        s.current_files@.len() == 0,
        "- Files: "@ + joined(texts(s.current_files@), ", "@),
    );
    lemma_line_unless(
        l3,
        s.open_problems@.len() == 0,
        "- Problems: "@ + joined(texts(s.open_problems@), "; "@),
    );
    assert(lines_before_recent(c) + recent_section(Seq::empty()) =~= l4);
    assert(joined(l0, nl) == "## Session State"@);
    assert(prompt_text(Seq::empty(), c) == joined(l4, nl));
}

/// A line that may be left out adds itself or nothing.
proof fn lemma_line_unless(lines: Seq<Seq<char>>, empty: bool, line: Seq<char>)
    requires
        lines.len() > 0,
    ensures
        joined(lines + line_unless(empty, line), "\n"@) == joined(lines, "\n"@) + (if empty {
            Seq::empty()
        } else {
            "\n"@ + line
        }),
{
    if empty {
        assert(lines + line_unless(empty, line) =~= lines);
        assert(joined(lines, "\n"@) + Seq::<char>::empty() =~= joined(lines, "\n"@));
    } else {
        lemma_joined_parts(lines, seq![line], "\n"@);
        assert(lines + line_unless(empty, line) =~= lines + seq![line]);
        assert(joined(lines, "\n"@) + "\n"@ + line =~= joined(lines, "\n"@) + ("\n"@ + line));
    }
}

/// A step of reasoning is told in lines of its own, behind the steps before it:
/// what triggered it, the tool with its arguments, how it went, and the
/// reasoning where there is one.
pub proof fn law_one_more_step_is_told(
    c: CompiledConversation,
    d: CompiledConversation,
    step: ReasoningStep,
)
    requires
        d.knowledge@ == c.knowledge@,
        d.decisions@ == c.decisions@,
        d.session.current_goal == c.session.current_goal,
        d.session.current_module == c.session.current_module,
        d.session.current_files == c.session.current_files,
        d.session.open_problems == c.session.open_problems,
        d.session.reasoning_chain@ == c.session.reasoning_chain@.push(step),
    ensures
        prompt_text(Seq::empty(), d) == prompt_text(Seq::empty(), c) + (
        if c.session.reasoning_chain@.len() == 0 {
            "\n"@ + "## Reasoning Chain"@ + "\n"@
        } else {
            Seq::empty()
        }) + joined(
            seq![
                "- Trigger: "@ + step.trigger@,
                "  Tool: "@ + step.tool_name@ + "("@ + step.tool_args@ + ")"@,
                "  Status: "@ + step.status@,
            ] + (if step.reasoning@.len() > 0 {
                seq!["  → "@ + step.reasoning@]
            } else {
                Seq::empty()
            }),
            "\n"@,
        ) + "\n"@,
{
    let nl = "\n"@;
    let v = c.session.reasoning_chain@;
    let told = seq![
        "- Trigger: "@ + step.trigger@,
        "  Tool: "@ + step.tool_name@ + "("@ + step.tool_args@ + ")"@,
        "  Status: "@ + step.status@,
    ] + (if step.reasoning@.len() > 0 {
        seq!["  → "@ + step.reasoning@]
    } else {
        Seq::empty()
    });
    assert(told =~= step_lines(step));
    assert(v.push(step).drop_last() =~= v);
    assert(chain_lines(v.push(step)) == chain_lines(v) + told);
    lemma_lines_before_chain(c);
    lemma_lines_before_chain(d);
    let front = lines_before_chain(c);
    assert(lines_before_chain(d) == front);
    lemma_chain_grows(front, chain_lines(v), told);
    assert(v.len() == 0 ==> chain_lines(v) =~= Seq::empty());
    assert(v.len() > 0 ==> chain_lines(v).len() > 0);
}

/// The lines of the context block in front of the reasoning chain.
spec fn lines_before_chain(c: CompiledConversation) -> Seq<Seq<char>> {
    let s = c.session;
    knowledge_section(c.knowledge@) + decision_section(c.decisions@) + (seq!["## Session State"@]
        + line_unless(s.current_goal@.len() == 0, "- Goal: "@ + s.current_goal@) + line_unless(
        s.current_module@.len() == 0,
        "- Module: "@ + s.current_module@,
    ) + line_unless(
        s.current_files@.len() == 0,
        "- Files: "@ + joined(texts(s.current_files@), ", "@),
    ) + line_unless(
        s.open_problems@.len() == 0,
        "- Problems: "@ + joined(texts(s.open_problems@), "; "@),
    ))
}

/// Without messages the block ends with the reasoning chain.
proof fn lemma_lines_before_chain(c: CompiledConversation)
    ensures
        lines_before_chain(c).len() > 0,
        prompt_text(Seq::empty(), c) == joined(
            lines_before_chain(c) + chain_section(c.session.reasoning_chain@),
            "\n"@,
        ),
{
    assert(lines_before_recent(c) + recent_section(Seq::empty()) =~= lines_before_chain(c)
        + chain_section(c.session.reasoning_chain@));
}

/// The text of a chain with one more step.
proof fn lemma_chain_grows(front: Seq<Seq<char>>, steps: Seq<Seq<char>>, told: Seq<Seq<char>>)
    requires
        front.len() > 0,
        told.len() > 0,
    ensures
        ({
            let nl = "\n"@;
            let title = seq!["## Reasoning Chain"@];
            let gap = seq![Seq::<char>::empty()];
            let after = joined(front + (title + (steps + told) + gap), nl);
            if steps.len() == 0 {
                after == joined(front, nl) + (nl + "## Reasoning Chain"@ + nl) + joined(told, nl)
                    + nl
            } else {
                after == joined(front + (title + steps + gap), nl) + Seq::empty() + joined(told, nl)
                    + nl
            }
        }),
{
    let nl = "\n"@;
    let gap = seq![Seq::<char>::empty()];
    let title = seq!["## Reasoning Chain"@];
    let after = front + (title + (steps + told) + gap);
    assert(joined(gap, nl) == Seq::<char>::empty());
    assert(joined(title, nl) == "## Reasoning Chain"@);
    lemma_joined_parts(told, gap, nl);
    if steps.len() == 0 {
        assert(after =~= front + (title + (told + gap)));
        lemma_joined_parts(title, told + gap, nl);
        lemma_joined_parts(front, title + (told + gap), nl);
        assert(joined(after, nl) =~= joined(front, nl) + (nl + "## Reasoning Chain"@ + nl)
            + joined(told, nl) + nl);
    } else {
        let head = front + title + steps;
        let before = front + (title + steps + gap);
        assert(before =~= head + gap);
        assert(after =~= head + (told + gap));
        lemma_joined_parts(head, gap, nl);
        lemma_joined_parts(head, told + gap, nl);
        assert(joined(after, nl) =~= joined(before, nl) + Seq::empty() + joined(told, nl) + nl);
    }
}

} // verus!
