//! How a person became who they are: the accumulated facts in order of time,
//! with the origin, the turning points and the present.
//!
//! Nothing is dropped or merged; a change of stance keeps both facts.
use vstd::prelude::*;

use crate::cognition::{fact_views, Fact, FactType, FactView};
use crate::error::Error;
use crate::json::JsonView;
use crate::order::{
    as_ints, by_key, key_lt, lemma_sorted_indices, lemma_sorted_indices_distinct, sort_indices,
    sorted_indices, SortKey,
};
use crate::persona::check::{is_persona, is_persona_fact, tagged_as_persona};
use crate::persona::reconciler::{extract_negated, negation};
use crate::text::{cat, cat3, decimal, decimal_text};

verus! {

/// A gap in time that counts as a turning point is longer than this.
pub const LARGE_GAP_THRESHOLD: i64 = 1_000_000;

/// The kind of a turning point.
#[derive(Debug, Clone, Copy, PartialEq, Eq, Structural)]
pub enum MilestoneType {
    /// The opposite stance to the last one on the same facet.
    StanceFlip,
    /// The first fact of its facet.
    NewTheme,
    /// A long time after the fact before.
    LargeGap,
}

impl MilestoneType {
    /// The name of the kind.
    pub open spec fn name(self) -> Seq<char> {
        match self {
            MilestoneType::StanceFlip => "stance_flip"@,
            MilestoneType::NewTheme => "new_theme"@,
            MilestoneType::LargeGap => "large_gap"@,
        }
    }

    /// The name of the kind.
    pub fn as_str(self) -> (s: &'static str)
        ensures
            s@ == self.name(),
    {
        match self {
            MilestoneType::StanceFlip => "stance_flip",
            MilestoneType::NewTheme => "new_theme",
            MilestoneType::LargeGap => "large_gap",
        }
    }
}

/// A turning point.
#[derive(Debug)]
pub struct Milestone {
    /// The fact at which it shows.
    pub fact: Fact,
    pub milestone_type: MilestoneType,
    /// What changed, in words.
    pub note: String,
}

/// The value of a turning point.
pub struct MilestoneView {
    pub fact: FactView,
    pub milestone_type: MilestoneType,
    pub note: Seq<char>,
}

impl View for Milestone {
    type V = MilestoneView;

    open spec fn view(&self) -> MilestoneView {
        MilestoneView {
            fact: self.fact@,
            milestone_type: self.milestone_type,
            note: self.note@,
        }
    }
}

/// The values of a list of turning points.
pub open spec fn milestone_views(v: Seq<Milestone>) -> Seq<MilestoneView> {
    Seq::new(v.len(), |i: int| v[i]@)
}

/// A person's evolution.
#[derive(Debug)]
pub struct EvolutionTimeline {
    /// The origin.
    pub start: Option<Fact>,
    /// The turning points, in order of time.
    pub milestones: Vec<Milestone>,
    /// The present.
    pub current: Option<Fact>,
    /// All facts, in order of time.
    pub trajectory: Vec<Fact>,
}

/// The key by which facts are ordered: time, then when they were stored, then
/// their id.
pub open spec fn time_key(f: FactView) -> SortKey {
    SortKey {
        major: f.time as i128,
        middle: f.created_at as i128,
        minor: match f.id {
            Some(id) => id as i128,
            None => 0,
        },
    }
}

/// The keys of a list of facts.
pub open spec fn time_keys(v: Seq<FactView>) -> Seq<SortKey> {
    Seq::new(v.len(), |i: int| time_key(v[i]))
}

/// The facts in order of time; facts of equal key keep their order.
pub open spec fn chronological(v: Seq<FactView>) -> Seq<FactView> {
    Seq::new(v.len(), |i: int| v[sorted_indices(time_keys(v))[i]])
}

/// The first fact for which `p` holds.
pub open spec fn first_where(v: Seq<FactView>, p: spec_fn(FactView) -> bool) -> Option<FactView>
    decreases v.len(),
{
    if v.len() == 0 {
        None
    } else {
        match first_where(v.drop_last(), p) {
            Some(f) => Some(f),
            None => if p(v.last()) {
                Some(v.last())
            } else {
                None
            },
        }
    }
}

/// The last fact for which `p` holds.
pub open spec fn last_where(v: Seq<FactView>, p: spec_fn(FactView) -> bool) -> Option<FactView>
    decreases v.len(),
{
    if v.len() == 0 {
        None
    } else if p(v.last()) {
        Some(v.last())
    } else {
        last_where(v.drop_last(), p)
    }
}

/// The origin: the first fact of identity, else the first persona fact, else
/// the first fact.
pub open spec fn origin(v: Seq<FactView>) -> Option<FactView> {
    match first_where(v, |f: FactView| f.fact_type is Identity) {
        Some(f) => Some(f),
        None => match first_where(v, |f: FactView| is_persona(f)) {
            Some(f) => Some(f),
            None => if v.len() > 0 {
                Some(v[0])
            } else {
                None
            },
        },
    }
}

/// The present: the last persona fact, else the last fact.
pub open spec fn present(v: Seq<FactView>) -> Option<FactView> {
    match last_where(v, |f: FactView| is_persona(f)) {
        Some(f) => Some(f),
        None => if v.len() > 0 {
            Some(v.last())
        } else {
            None
        },
    }
}

/// The last stance on a facet among these facts.
pub open spec fn last_stance(v: Seq<FactView>, t: FactType) -> Option<bool>
    decreases v.len(),
{
    if v.len() == 0 {
        None
    } else if v.last().fact_type == t && negation(v.last()) is Some {
        negation(v.last())
    } else {
        last_stance(v.drop_last(), t)
    }
}

/// A fact of this facet is among these.
pub open spec fn has_theme(v: Seq<FactView>, t: FactType) -> bool
    decreases v.len(),
{
    v.len() > 0 && (v.last().fact_type == t || has_theme(v.drop_last(), t))
}

/// A truth value in words.
pub open spec fn bool_text(b: bool) -> Seq<char> {
    if b {
        "true"@
    } else {
        "false"@
    }
}

/// The note on a change of stance.
pub open spec fn flip_note(t: FactType, before: bool, now: bool) -> Seq<char> {
    "stance flip: "@ + t.name() + " went from negated="@ + bool_text(before) + " to negated="@
        + bool_text(now)
}

/// The change of stance that a fact makes after these, if any.
pub open spec fn flip_milestone(before: Seq<FactView>, f: FactView) -> Seq<MilestoneView> {
    match (negation(f), last_stance(before, f.fact_type)) {
        (Some(now), Some(was)) => if was != now {
            seq![
                MilestoneView {
                    fact: f,
                    milestone_type: MilestoneType::StanceFlip,
                    note: flip_note(f.fact_type, was, now),
                },
            ]
        } else {
            Seq::empty()
        },
        _ => Seq::empty(),
    }
}

/// The new theme that a fact opens after these, if any.
pub open spec fn theme_milestone(before: Seq<FactView>, f: FactView) -> Seq<MilestoneView> {
    if has_theme(before, f.fact_type) {
        Seq::empty()
    } else {
        seq![
            MilestoneView {
                fact: f,
                milestone_type: MilestoneType::NewTheme,
                note: "new theme: "@ + f.fact_type.name(),
            },
        ]
    }
}

/// The long gap that lies between the last of these and a fact, if any.
pub open spec fn gap_milestone(before: Seq<FactView>, f: FactView) -> Seq<MilestoneView> {
    if before.len() > 0 && f.time - before.last().time > LARGE_GAP_THRESHOLD {
        seq![
            MilestoneView {
                fact: f,
                milestone_type: MilestoneType::LargeGap,
                note: "large time gap: "@ + decimal((f.time - before.last().time) as nat)
                    + " units since the previous fact"@,
            },
        ]
    } else {
        Seq::empty()
    }
}

/// The turning points of facts in order of time.
pub open spec fn turning_points(v: Seq<FactView>) -> Seq<MilestoneView>
    decreases v.len(),
{
    if v.len() == 0 {
        Seq::empty()
    } else {
        let before = v.drop_last();
        turning_points(before) + flip_milestone(before, v.last()) + theme_milestone(
            before,
            v.last(),
        ) + gap_milestone(before, v.last())
    }
}

/// The view of an optional fact.
pub open spec fn opt_fact(o: Option<Fact>) -> Option<FactView> {
    match o {
        Some(f) => Some(f@),
        None => None,
    }
}

/// The timeline is that of the facts.
pub open spec fn timeline_of(t: EvolutionTimeline, facts: Seq<FactView>) -> bool {
    let ordered = chronological(facts);
    &&& fact_views(t.trajectory@) == ordered
    &&& opt_fact(t.start) == origin(ordered)
    &&& opt_fact(t.current) == present(ordered)
    &&& milestone_views(t.milestones@) == turning_points(ordered)
}

/// The origin of facts in order of time.
pub fn find_start(facts: &Vec<Fact>) -> (r: Option<Fact>)
    ensures
        opt_fact(r) == origin(fact_views(facts@)),
{
    let ghost all = fact_views(facts@);
    let ghost p = |f: FactView| f.fact_type is Identity;
    let ghost q = |f: FactView| is_persona(f);
    let mut persona: Option<usize> = None;
    let mut i: usize = 0;
    while i < facts.len()
        invariant
            i <= facts@.len(),
            all == fact_views(facts@),
            p == (|f: FactView| f.fact_type is Identity),
            q == (|f: FactView| is_persona(f)),
            first_where(all.subrange(0, i as int), p) is None,
            match persona {
                Some(k) => k < facts@.len() && first_where(all.subrange(0, i as int), q) == Some(
                    all[k as int],
                ),
                None => first_where(all.subrange(0, i as int), q) is None,
            },
        decreases facts.len() - i,
    {
        let ghost now = all.subrange(0, i + 1);
        assert(now.drop_last() == all.subrange(0, i as int));
        assert(now.last() == facts@[i as int]@);
        if facts[i].fact_type == FactType::Identity {
            proof {
                lemma_first_extends(all, i + 1, p);
            }
            return Some(facts[i].copy());
        }
        if persona.is_none() && is_persona_fact(&facts[i]) {
            persona = Some(i);
        }
        i = i + 1;
    }
    assert(all.subrange(0, all.len() as int) == all);
    match persona {
        Some(k) => Some(facts[k].copy()),
        None => if facts.len() > 0 {
            Some(facts[0].copy())
        } else {
            None
        },
    }
}

/// What is first among the first facts is first among all.
proof fn lemma_first_extends(v: Seq<FactView>, n: int, p: spec_fn(FactView) -> bool)
    requires
        0 <= n <= v.len(),
        first_where(v.subrange(0, n), p) is Some,
    ensures
        first_where(v, p) == first_where(v.subrange(0, n), p),
    decreases v.len() - n,
{
    if n == v.len() {
        assert(v.subrange(0, n) == v);
    } else {
        assert(v.subrange(0, n + 1).drop_last() == v.subrange(0, n));
        lemma_first_extends(v, n + 1, p);
    }
}

/// The present of facts in order of time.
pub fn find_current(facts: &Vec<Fact>) -> (r: Option<Fact>)
    ensures
        opt_fact(r) == present(fact_views(facts@)),
{
    let ghost all = fact_views(facts@);
    let ghost q = |f: FactView| is_persona(f);
    let mut i: usize = facts.len();
    assert(all.subrange(0, all.len() as int) == all);
    while i > 0
        invariant
            i <= facts@.len(),
            all == fact_views(facts@),
            q == (|f: FactView| is_persona(f)),
            last_where(all, q) == last_where(all.subrange(0, i as int), q),
        decreases i,
    {
        let ghost now = all.subrange(0, i as int);
        assert(now.drop_last() == all.subrange(0, i - 1));
        assert(now.last() == facts@[i - 1]@);
        if is_persona_fact(&facts[i - 1]) {
            return Some(facts[i - 1].copy());
        }
        i = i - 1;
    }
    if facts.len() > 0 {
        assert(all.last() == facts@[facts@.len() - 1]@);
        Some(facts[facts.len() - 1].copy())
    } else {
        None
    }
}

/// The last stance on a facet among the first `n` facts.
fn stance_before(facts: &Vec<Fact>, n: usize, t: FactType) -> (r: Option<bool>)
    requires
        n <= facts@.len(),
    ensures
        r == last_stance(fact_views(facts@).subrange(0, n as int), t),
{
    let ghost all = fact_views(facts@);
    let mut i: usize = n;
    while i > 0
        invariant
            i <= n <= facts@.len(),
            all == fact_views(facts@),
            last_stance(all.subrange(0, n as int), t) == last_stance(
                all.subrange(0, i as int),
                t,
            ),
        decreases i,
    {
        let ghost now = all.subrange(0, i as int);
        assert(now.drop_last() == all.subrange(0, i - 1));
        assert(now.last() == facts@[i - 1]@);
        if facts[i - 1].fact_type == t {
            let stance: Option<bool> = extract_negated(&facts[i - 1]);
            if stance.is_some() {
                return stance;
            }
        }
        i = i - 1;
    }
    None
}

/// Whether a fact of a facet is among the first `n`.
fn theme_before(facts: &Vec<Fact>, n: usize, t: FactType) -> (r: bool)
    requires
        n <= facts@.len(),
    ensures
        r == has_theme(fact_views(facts@).subrange(0, n as int), t),
{
    let ghost all = fact_views(facts@);
    let mut i: usize = n;
    while i > 0
        invariant
            i <= n <= facts@.len(),
            all == fact_views(facts@),
            has_theme(all.subrange(0, n as int), t) == has_theme(all.subrange(0, i as int), t),
        decreases i,
    {
        let ghost now = all.subrange(0, i as int);
        assert(now.drop_last() == all.subrange(0, i - 1));
        assert(now.last() == facts@[i - 1]@);
        if facts[i - 1].fact_type == t {
            return true;
        }
        i = i - 1;
    }
    false
}

/// A truth value in words.
fn bool_word(b: bool) -> (s: &'static str)
    ensures
        s@ == bool_text(b),
{
    if b {
        "true"
    } else {
        "false"
    }
}

/// Add a turning point.
fn push_milestone(v: &mut Vec<Milestone>, fact: &Fact, kind: MilestoneType, note: String)
    ensures
        milestone_views(final(v)@) == milestone_views(old(v)@) + seq![
            MilestoneView { fact: fact@, milestone_type: kind, note: note@ },
        ],
{
    let ghost before = milestone_views(v@);
    v.push(Milestone { fact: fact.copy(), milestone_type: kind, note });
    assert(milestone_views(v@) =~= before + seq![
        MilestoneView { fact: fact@, milestone_type: kind, note: note@ },
    ]);
}

/// The turning points of facts in order of time.
pub fn find_milestones(facts: &Vec<Fact>) -> (v: Vec<Milestone>)
    ensures
        milestone_views(v@) == turning_points(fact_views(facts@)),
{
    let mut v: Vec<Milestone> = Vec::new();
    let ghost all = fact_views(facts@);
    let mut i: usize = 0;
    assert(milestone_views(v@) =~= turning_points(all.subrange(0, 0)));
    while i < facts.len()
        invariant
            i <= facts@.len(),
            all == fact_views(facts@),
            milestone_views(v@) == turning_points(all.subrange(0, i as int)),
        decreases facts.len() - i,
    {
        let fact: &Fact = &facts[i];
        let ghost before = all.subrange(0, i as int);
        let ghost now = all.subrange(0, i + 1);
        let ghost start = milestone_views(v@);
        assert(now.drop_last() == before);
        assert(now.last() == fact@);
        let stance: Option<bool> = extract_negated(fact);
        let was: Option<bool> = stance_before(facts, i, fact.fact_type);
        match (stance, was) {
            (Some(is_now), Some(earlier)) => {
                if earlier != is_now {
                    let head: String = cat3(
                        "stance flip: ",
                        fact.fact_type.label(),
                        " went from negated=",
                    );
                    let mid: String = cat3(head.as_str(), bool_word(earlier), " to negated=");
                    let note: String = cat(mid.as_str(), bool_word(is_now));
                    push_milestone(&mut v, fact, MilestoneType::StanceFlip, note);
                }
            },
            _ => {},
        }
        assert(milestone_views(v@) =~= start + flip_milestone(before, fact@));
        if !theme_before(facts, i, fact.fact_type) {
            let note: String = cat("new theme: ", fact.fact_type.label());
            push_milestone(&mut v, fact, MilestoneType::NewTheme, note);
        }
        assert(milestone_views(v@) =~= start + flip_milestone(before, fact@) + theme_milestone(
            before,
            fact@,
        ));
        if i > 0 {
            let prev: &Fact = &facts[i - 1];
            assert(before.last() == prev@);
            let gap: i128 = fact.time as i128 - prev.time as i128;
            if gap > LARGE_GAP_THRESHOLD as i128 {
                let digits: String = decimal_text(gap as u64);
                let note: String = cat3(
                    "large time gap: ",
                    digits.as_str(),
                    " units since the previous fact",
                );
                push_milestone(&mut v, fact, MilestoneType::LargeGap, note);
            }
        }
        assert(milestone_views(v@) =~= turning_points(now));
        i = i + 1;
    }
    assert(all.subrange(0, all.len() as int) == all);
    v
}

/// The timeline of accumulated facts.
pub fn build_evolution_timeline(facts: &Vec<Fact>) -> (t: EvolutionTimeline)
    ensures
        timeline_of(t, fact_views(facts@)),
{
    let ghost all = fact_views(facts@);
    let mut keys: Vec<SortKey> = Vec::new();
    let mut i: usize = 0;
    while i < facts.len()
        invariant
            i <= facts@.len(),
            all == fact_views(facts@),
            keys@ == time_keys(all).subrange(0, i as int),
        decreases facts.len() - i,
    {
        let f: &Fact = &facts[i];
        assert(all[i as int] == f@);
        let minor: i128 = match f.id {
            Some(id) => id as i128,
            None => 0,
        };
        keys.push(SortKey { major: f.time as i128, middle: f.created_at as i128, minor });
        assert(keys@ =~= time_keys(all).subrange(0, i + 1));
        i = i + 1;
    }
    assert(keys@ =~= time_keys(all));
    let order: Vec<usize> = sort_indices(&keys);
    let ghost p = sorted_indices(time_keys(all));
    let mut trajectory: Vec<Fact> = Vec::new();
    let mut k: usize = 0;
    while k < order.len()
        invariant
            k <= order@.len() == facts@.len(),
            all == fact_views(facts@),
            as_ints(order@) == p,
            p == sorted_indices(time_keys(all)),
            forall|q: int| 0 <= q < order@.len() ==> (#[trigger] order@[q]) < facts@.len(),
            fact_views(trajectory@) == chronological(all).subrange(0, k as int),
        decreases order.len() - k,
    {
        let ghost before = fact_views(trajectory@);
        assert(p[k as int] == order@[k as int]);
        trajectory.push(facts[order[k]].copy());
        assert(fact_views(trajectory@) =~= before.push(chronological(all)[k as int]));
        assert(fact_views(trajectory@) =~= chronological(all).subrange(0, k + 1));
        k = k + 1;
    }
    assert(fact_views(trajectory@) =~= chronological(all));
    EvolutionTimeline {
        start: find_start(&trajectory),
        milestones: find_milestones(&trajectory),
        current: find_current(&trajectory),
        trajectory,
    }
}

/// Where facts are kept.
pub trait FactStore {
    /// The facts of an entity.
    fn get_facts(&self, entity_id: i64) -> Result<Vec<Fact>, Error>;
}

/// The timeline of an entity, from the facts that the store has of it. When
/// the store fails, so does this.
pub fn build_timeline_for_entity<S: FactStore>(store: &S, entity_id: i64) -> (r: Result<
    EvolutionTimeline,
    Error,
>)
    ensures
        match r {
            Ok(t) => exists|facts: Vec<Fact>| #[trigger]
                call_ensures(S::get_facts, (store, entity_id), Ok(facts)) && timeline_of(
                    t,
                    fact_views(facts@),
                ),
            Err(e) => call_ensures(S::get_facts, (store, entity_id), Err(e)),
        },
{
    match store.get_facts(entity_id) {
        Ok(facts) => Ok(build_evolution_timeline(&facts)),
        Err(e) => Err(e),
    }
}

/// Facts only accumulate: the trajectory holds every fact exactly once.
pub proof fn law_trajectory_keeps_every_fact(v: Seq<FactView>)
    ensures
        chronological(v).len() == v.len(),
        forall|i: int|
            0 <= i < v.len() ==> #[trigger] sorted_indices(time_keys(v)).contains(i),
        forall|a: int, b: int|
            0 <= a < b < v.len() ==> #[trigger] sorted_indices(time_keys(v))[a]
                != #[trigger] sorted_indices(time_keys(v))[b],
        forall|a: int|
            0 <= a < v.len() ==> 0 <= #[trigger] sorted_indices(time_keys(v))[a] < v.len(),
{
    lemma_sorted_indices(time_keys(v));
    lemma_sorted_indices_distinct(time_keys(v));
}

/// The id that orders facts of the same times; a fact without one comes as 0.
pub open spec fn id_key(f: FactView) -> int {
    match f.id {
        Some(id) => id as int,
        None => 0,
    }
}

/// The trajectory is in order of time; facts of the same time are in order of
/// when they were stored, then of their ids, and then as they were handed over.
pub proof fn law_trajectory_is_ordered(v: Seq<FactView>, a: int, b: int)
    requires
        0 <= a < b < v.len(),
    ensures
        ({
            let x = chronological(v)[a];
            let y = chronological(v)[b];
            &&& x.time <= y.time
            &&& x.time == y.time ==> x.created_at <= y.created_at
            &&& x.time == y.time && x.created_at == y.created_at ==> id_key(x) <= id_key(y)
            &&& time_key(x) == time_key(y) ==> sorted_indices(time_keys(v))[a]
                < sorted_indices(time_keys(v))[b]
        }),
{
    let keys = time_keys(v);
    lemma_sorted_indices(keys);
    lemma_sorted_indices_distinct(keys);
    let p = sorted_indices(keys);
    assert(by_key(keys)(p[a], p[b]));
    assert(p[a] != p[b]);
}

/// No two facts have the same key.
pub open spec fn keys_differ(v: Seq<FactView>) -> bool {
    forall|i: int, j: int|
        0 <= i < j < v.len() ==> time_key(#[trigger] v[i]) != time_key(#[trigger] v[j])
}

/// The keys rise.
pub open spec fn keys_rise(v: Seq<FactView>) -> bool {
    forall|i: int, j: int|
        0 <= i < j < v.len() ==> key_lt(time_key(#[trigger] v[i]), time_key(#[trigger] v[j]))
}

/// Where the keys differ, those of the trajectory rise, and it holds the facts.
proof fn lemma_chronological(v: Seq<FactView>)
    requires
        keys_differ(v),
    ensures
        keys_rise(chronological(v)),
        forall|f: FactView| #[trigger] chronological(v).contains(f) <==> v.contains(f),
{
    let keys = time_keys(v);
    let p = sorted_indices(keys);
    let x = chronological(v);
    lemma_sorted_indices(keys);
    lemma_sorted_indices_distinct(keys);
    assert forall|i: int, j: int| 0 <= i < j < x.len() implies key_lt(
        time_key(#[trigger] x[i]),
        time_key(#[trigger] x[j]),
    ) by {
        assert(by_key(keys)(p[i], p[j]));
        assert(p[i] != p[j]);
        if p[i] < p[j] {
            assert(time_key(v[p[i]]) != time_key(v[p[j]]));
        } else {
            assert(time_key(v[p[j]]) != time_key(v[p[i]]));
        }
    }
    assert forall|f: FactView| #[trigger] x.contains(f) <==> v.contains(f) by {
        if x.contains(f) {
            let i = choose|i: int| 0 <= i < x.len() && x[i] == f;
            assert(v[p[i]] == f);
        }
        if v.contains(f) {
            let k = choose|k: int| 0 <= k < v.len() && v[k] == f;
            assert(p.contains(k));
            let i = choose|i: int| 0 <= i < p.len() && p[i] == k;
            assert(x[i] == f);
        }
    }
}

/// Facts with rising keys are determined by which facts they are.
proof fn lemma_rising_facts_agree(x: Seq<FactView>, y: Seq<FactView>)
    requires
        keys_rise(x),
        keys_rise(y),
        forall|f: FactView| #[trigger] x.contains(f) <==> y.contains(f),
    ensures
        x == y,
    decreases x.len(),
{
    if x.len() == 0 {
        if y.len() > 0 {
            assert(y.contains(y[0]));
            assert(x.contains(y[0]));
        }
        assert(x =~= y);
    } else {
        assert(x.contains(x[x.len() - 1]));
        assert(y.contains(x.last()));
        let j = choose|j: int| 0 <= j < y.len() && y[j] == x.last();
        assert(y.contains(y[y.len() - 1]));
        assert(x.contains(y.last()));
        let i = choose|i: int| 0 <= i < x.len() && x[i] == y.last();
        if j < y.len() - 1 {
            assert(key_lt(time_key(y[j]), time_key(y[y.len() - 1])));
            if i < x.len() - 1 {
                assert(key_lt(time_key(x[i]), time_key(x[x.len() - 1])));
            }
        }
        assert(x.last() == y.last());
        let x0 = x.drop_last();
        let y0 = y.drop_last();
        assert forall|f: FactView| #[trigger] x0.contains(f) <==> y0.contains(f) by {
            if x0.contains(f) {
                let k = choose|k: int| 0 <= k < x0.len() && x0[k] == f;
                assert(x[k] == f);
                assert(key_lt(time_key(x[k]), time_key(x[x.len() - 1])));
                assert(x.contains(f));
                let m = choose|m: int| 0 <= m < y.len() && y[m] == f;
                assert(y0[m] == f);
            }
            if y0.contains(f) {
                let k = choose|k: int| 0 <= k < y0.len() && y0[k] == f;
                assert(y[k] == f);
                assert(key_lt(time_key(y[k]), time_key(y[y.len() - 1])));
                assert(y.contains(f));
                assert(x.contains(f));
                let m = choose|m: int| 0 <= m < x.len() && x[m] == f;
                assert(x0[m] == f);
            }
        }
        assert(keys_rise(x0)) by {
            assert forall|a: int, b: int| 0 <= a < b < x0.len() implies key_lt(
                time_key(#[trigger] x0[a]),
                time_key(#[trigger] x0[b]),
            ) by {
                assert(x0[a] == x[a] && x0[b] == x[b]);
            }
        }
        assert(keys_rise(y0)) by {
            assert forall|a: int, b: int| 0 <= a < b < y0.len() implies key_lt(
                time_key(#[trigger] y0[a]),
                time_key(#[trigger] y0[b]),
            ) by {
                assert(y0[a] == y[a] && y0[b] == y[b]);
            }
        }
        lemma_rising_facts_agree(x0, y0);
        assert(x =~= x0.push(x.last()));
        assert(y =~= y0.push(y.last()));
    }
}

/// The order in which the facts are handed over does not matter where their
/// keys differ: the timeline of a rearrangement of the facts is the timeline of
/// the facts, in trajectory, origin, present and milestones.
pub proof fn law_input_order_does_not_matter(facts: Seq<FactView>, rearranged: Seq<FactView>)
    requires
        facts.to_multiset() == rearranged.to_multiset(),
        keys_differ(facts),
    ensures
        chronological(rearranged) == chronological(facts),
        origin(chronological(rearranged)) == origin(chronological(facts)),
        present(chronological(rearranged)) == present(chronological(facts)),
        turning_points(chronological(rearranged)) == turning_points(chronological(facts)),
{
    let v = facts;
    let q = rearranged;
    v.to_multiset_ensures();
    q.to_multiset_ensures();
    assert forall|f: FactView| #[trigger] v.contains(f) <==> q.contains(f) by {
        assert(v.to_multiset().count(f) == q.to_multiset().count(f));
    }
    assert(v.no_duplicates());
    v.lemma_multiset_has_no_duplicates();
    q.lemma_multiset_has_no_duplicates_conv();
    assert(keys_differ(q)) by {
        assert forall|i: int, j: int| 0 <= i < j < q.len() implies time_key(#[trigger] q[i])
            != time_key(#[trigger] q[j]) by {
            assert(q[i] != q[j]);
            assert(q.contains(q[i]) && q.contains(q[j]));
            assert(v.contains(q[i]) && v.contains(q[j]));
            let k = choose|k: int| 0 <= k < v.len() && v[k] == q[i];
            let m = choose|m: int| 0 <= m < v.len() && v[m] == q[j];
            if k < m {
                assert(time_key(v[k]) != time_key(v[m]));
            } else {
                assert(time_key(v[m]) != time_key(v[k]));
            }
        }
    }
    lemma_chronological(v);
    lemma_chronological(q);
    assert forall|f: FactView| #[trigger] chronological(q).contains(f) <==> chronological(
        v,
    ).contains(f) by {
        assert(v.contains(f) <==> q.contains(f));
    }
    lemma_rising_facts_agree(chronological(q), chronological(v));
}

/// The origin and the present are facts of the trajectory, and there is one of
/// each as soon as there is a fact.
pub proof fn law_origin_and_present_are_facts(v: Seq<FactView>)
    ensures
        origin(v) matches Some(f) ==> v.contains(f),
        present(v) matches Some(f) ==> v.contains(f),
        v.len() > 0 ==> origin(v) is Some && present(v) is Some,
{
    lemma_where_contained(v, |f: FactView| f.fact_type is Identity);
    lemma_where_contained(v, |f: FactView| is_persona(f));
    if v.len() > 0 {
        assert(v.contains(v[0]));
        assert(v.contains(v.last()));
    }
}

/// The turning points that the fact at `i` brings.
pub open spec fn turning_points_at(v: Seq<FactView>, i: int) -> Seq<MilestoneView> {
    let before = v.subrange(0, i);
    flip_milestone(before, v[i]) + theme_milestone(before, v[i]) + gap_milestone(before, v[i])
}

/// The milestones are the turning points of all the facts and no others: no
/// change of stance, no new theme and no long gap goes unnoticed.
pub proof fn law_every_turn_is_a_milestone(v: Seq<FactView>, m: MilestoneView)
    ensures
        turning_points(v).contains(m) <==> exists|i: int|
            0 <= i < v.len() && (#[trigger] turning_points_at(v, i)).contains(m),
    decreases v.len(),
{
    if v.len() == 0 {
        assert(turning_points(v) =~= Seq::empty());
    } else {
        let before = v.drop_last();
        let n = before.len() as int;
        law_every_turn_is_a_milestone(before, m);
        assert(v.subrange(0, n) =~= before);
        let earlier = turning_points(before);
        let added = turning_points_at(v, n);
        assert(turning_points(v) =~= earlier + added);
        assert forall|i: int| 0 <= i < n implies #[trigger] turning_points_at(v, i)
            == turning_points_at(before, i) by {
            assert(v.subrange(0, i) =~= before.subrange(0, i));
        }
        if turning_points(v).contains(m) {
            let k = choose|k: int| 0 <= k < turning_points(v).len() && turning_points(v)[k] == m;
            if k < earlier.len() {
                assert(earlier[k] == m);
                let i = choose|i: int|
                    0 <= i < before.len() && (#[trigger] turning_points_at(before, i)).contains(m);
                assert(turning_points_at(v, i).contains(m));
            } else {
                assert(added[k - earlier.len()] == m);
                assert(turning_points_at(v, n).contains(m));
            }
        }
        if exists|i: int| 0 <= i < v.len() && (#[trigger] turning_points_at(v, i)).contains(m) {
            let i = choose|i: int|
                0 <= i < v.len() && (#[trigger] turning_points_at(v, i)).contains(m);
            if i < n {
                assert(turning_points_at(before, i).contains(m));
                let k = choose|k: int| 0 <= k < earlier.len() && earlier[k] == m;
                assert(turning_points(v)[k] == m);
            } else {
                let k = choose|k: int| 0 <= k < added.len() && added[k] == m;
                assert(turning_points(v)[earlier.len() + k] == m);
            }
        }
    }
}

/// What is found among facts is one of them.
pub proof fn lemma_where_contained(v: Seq<FactView>, p: spec_fn(FactView) -> bool)
    ensures
        first_where(v, p) matches Some(f) ==> v.contains(f) && p(f),
        last_where(v, p) matches Some(f) ==> v.contains(f) && p(f),
    decreases v.len(),
{
    if v.len() > 0 {
        let front = v.drop_last();
        lemma_where_contained(front, p);
        assert forall|f: FactView| front.contains(f) implies v.contains(f) by {
            let k = choose|k: int| 0 <= k < front.len() && front[k] == f;
            assert(v[k] == f);
        }
        assert(v.contains(v.last()));
    }
}

/// The fact takes this stance: its payload says whether it is negated.
pub open spec fn takes_stance(f: FactView, negated: bool) -> bool {
    f.payload.get("negated"@) == Some(JsonView::Bool(negated))
}

/// The fact at `j` turns around the stance that the fact at `i` took: both are
/// of one facet, they take opposite stances, and no fact of that facet takes one
/// between them.
pub open spec fn turns_around(v: Seq<FactView>, i: int, j: int) -> bool {
    &&& 0 <= i < j < v.len()
    &&& v[i].fact_type == v[j].fact_type
    &&& (takes_stance(v[i], false) && takes_stance(v[j], true)) || (takes_stance(v[i], true)
        && takes_stance(v[j], false))
    &&& forall|k: int|
        i < k < j && (#[trigger] v[k]).fact_type == v[j].fact_type ==> !takes_stance(v[k], true)
            && !takes_stance(v[k], false)
}

/// The last stance on a facet is the one that the last fact of the facet with a
/// stance takes.
proof fn lemma_last_stance(v: Seq<FactView>, t: FactType) -> (i: int)
    ensures
        last_stance(v, t) matches Some(b) ==> {
            &&& 0 <= i < v.len()
            &&& v[i].fact_type == t
            &&& takes_stance(v[i], b)
            &&& forall|k: int|
                i < k < v.len() && (#[trigger] v[k]).fact_type == t ==> !takes_stance(v[k], true)
                    && !takes_stance(v[k], false)
        },
        last_stance(v, t) is None ==> forall|k: int|
            0 <= k < v.len() && (#[trigger] v[k]).fact_type == t ==> !takes_stance(v[k], true)
                && !takes_stance(v[k], false),
    decreases v.len(),
{
    if v.len() == 0 {
        0
    } else if negation(v.last()) is Some && v.last().fact_type == t {
        v.len() - 1
    } else {
        let front = v.drop_last();
        let i = lemma_last_stance(front, t);
        assert forall|k: int| 0 <= k < v.len() - 1 implies v[k] == #[trigger] front[k] by {}
        assert forall|k: int|
            0 <= k < v.len() && (#[trigger] v[k]).fact_type == t && (last_stance(v, t) is None || i
                < k) implies !takes_stance(v[k], true) && !takes_stance(v[k], false) by {
            if k < v.len() - 1 {
                assert(front[k] == v[k]);
            }
        }
        i
    }
}

/// A theme is there when a fact of the facet is.
proof fn lemma_has_theme(v: Seq<FactView>, t: FactType)
    ensures
        has_theme(v, t) <==> exists|i: int| 0 <= i < v.len() && (#[trigger] v[i]).fact_type == t,
    decreases v.len(),
{
    if v.len() > 0 {
        let front = v.drop_last();
        lemma_has_theme(front, t);
        if has_theme(front, t) {
            let i = choose|i: int| 0 <= i < front.len() && (#[trigger] front[i]).fact_type == t;
            assert(v[i].fact_type == t);
        }
        if v.last().fact_type == t {
            assert(v[v.len() - 1].fact_type == t);
        }
        if exists|i: int| 0 <= i < v.len() && (#[trigger] v[i]).fact_type == t {
            let i = choose|i: int| 0 <= i < v.len() && (#[trigger] v[i]).fact_type == t;
            if i < front.len() {
                assert(front[i].fact_type == t);
            }
        }
    }
}

/// A fact flips a stance exactly when it turns one around.
proof fn lemma_flip(before: Seq<FactView>, f: FactView)
    ensures
        flip_milestone(before, f).len() == (if exists|i: int|
            #[trigger] turns_around(before.push(f), i, before.len() as int) {
            1nat
        } else {
            0
        }),
        forall|i: int|
            #![trigger turns_around(before.push(f), i, before.len() as int)]
            turns_around(before.push(f), i, before.len() as int) ==> flip_milestone(before, f)
                == seq![
                MilestoneView {
                    fact: f,
                    milestone_type: MilestoneType::StanceFlip,
                    note: "stance flip: "@ + f.fact_type.name() + (if takes_stance(f, true) {
                        " went from negated="@ + "false"@ + " to negated="@ + "true"@
                    } else {
                        " went from negated="@ + "true"@ + " to negated="@ + "false"@
                    }),
                },
            ],
{
    let t = f.fact_type;
    let n = before.len() as int;
    let all = before.push(f);
    let last = lemma_last_stance(before, t);
    assert forall|k: int| 0 <= k < n implies all[k] == #[trigger] before[k] by {}
    if flip_milestone(before, f).len() > 0 {
        assert(turns_around(all, last, n)) by {
            assert forall|k: int|
                last < k < n && (#[trigger] all[k]).fact_type == all[n].fact_type implies
                !takes_stance(all[k], true) && !takes_stance(all[k], false) by {
                assert(before[k] == all[k]);
            }
        }
    }
    assert forall|i: int|
        #![trigger turns_around(all, i, n)]
        turns_around(all, i, n) implies flip_milestone(before, f) == seq![
        MilestoneView {
            fact: f,
            milestone_type: MilestoneType::StanceFlip,
            note: "stance flip: "@ + f.fact_type.name() + (if takes_stance(f, true) {
                " went from negated="@ + "false"@ + " to negated="@ + "true"@
            } else {
                " went from negated="@ + "true"@ + " to negated="@ + "false"@
            }),
        },
    ] by {
        assert(before[i] == all[i]);
        assert(last_stance(before, t) is Some);
        assert(before[last] == all[last]);
        if last < i {
            assert(before[i].fact_type == t);
        } else if i < last {
            assert(all[last].fact_type == t);
        }
        assert(last == i);
        assert(flip_note(t, false, true) =~= "stance flip: "@ + t.name() + (
        " went from negated="@ + "false"@ + " to negated="@ + "true"@));
        assert(flip_note(t, true, false) =~= "stance flip: "@ + t.name() + (
        " went from negated="@ + "true"@ + " to negated="@ + "false"@));
    }
}

/// One more fact, the latest, leaves the turning points before it as they are
/// and brings its own, in this order and at most one of each kind: a stance
/// flip exactly when it turns around the last stance that was taken on its
/// facet, a new theme exactly when no fact of its facet came before, and a large
/// gap exactly when more than a million units lie between it and the fact
/// before.
pub proof fn law_one_more_fact(v: Seq<FactView>, f: FactView)
    ensures
        ({
            let n = v.len() as int;
            let all = v.push(f);
            let flip = exists|i: int| #[trigger] turns_around(all, i, n);
            let theme = !exists|i: int| 0 <= i < n && (#[trigger] v[i]).fact_type == f.fact_type;
            let gap = n > 0 && f.time - v[n - 1].time > 1_000_000;
            turning_points(all) == turning_points(v) + (if flip {
                seq![
                    MilestoneView {
                        fact: f,
                        milestone_type: MilestoneType::StanceFlip,
                        note: "stance flip: "@ + f.fact_type.name() + (if takes_stance(f, true) {
                            " went from negated="@ + "false"@ + " to negated="@ + "true"@
                        } else {
                            " went from negated="@ + "true"@ + " to negated="@ + "false"@
                        }),
                    },
                ]
            } else {
                Seq::empty()
            }) + (if theme {
                seq![
                    MilestoneView {
                        fact: f,
                        milestone_type: MilestoneType::NewTheme,
                        note: "new theme: "@ + f.fact_type.name(),
                    },
                ]
            } else {
                Seq::empty()
            }) + (if gap {
                seq![
                    MilestoneView {
                        fact: f,
                        milestone_type: MilestoneType::LargeGap,
                        note: "large time gap: "@ + decimal((f.time - v[n - 1].time) as nat)
                            + " units since the previous fact"@,
                    },
                ]
            } else {
                Seq::empty()
            })
        }),
{
    let n = v.len() as int;
    let all = v.push(f);
    assert(all.drop_last() =~= v);
    lemma_flip(v, f);
    lemma_has_theme(v, f.fact_type);
    if exists|i: int| #[trigger] turns_around(all, i, n) {
        let i = choose|i: int| #[trigger] turns_around(all, i, n);
        assert(turns_around(v.push(f), i, v.len() as int));
    } else {
        assert(flip_milestone(v, f) =~= Seq::empty());
    }
}

/// A change of stance is told, and nothing else is told as one: the timeline has
/// a stance flip at a fact exactly when an earlier fact of the same facet took
/// the opposite stance and none of that facet took one in between. The first
/// fact of a facet is never a flip.
pub proof fn law_stance_flips_are_told(t: EvolutionTimeline, facts: Seq<FactView>)
    requires
        timeline_of(t, facts),
    ensures
        forall|k: int|
            0 <= k < t.milestones@.len() && (
            #[trigger] t.milestones@[k]).milestone_type is StanceFlip ==> exists|i: int, j: int|
                #[trigger] turns_around(fact_views(t.trajectory@), i, j) && t.trajectory@[j]@
                    == t.milestones@[k].fact@,
        forall|i: int, j: int| #[trigger]
            turns_around(fact_views(t.trajectory@), i, j) ==> exists|k: int|
                0 <= k < t.milestones@.len() && (
                #[trigger] t.milestones@[k]).milestone_type is StanceFlip
                    && t.milestones@[k].fact@ == t.trajectory@[j]@,
{
    let x = fact_views(t.trajectory@);
    let ms = milestone_views(t.milestones@);
    assert forall|k: int|
        0 <= k < t.milestones@.len() && (
        #[trigger] t.milestones@[k]).milestone_type is StanceFlip implies exists|i: int, j: int|
            #[trigger] turns_around(x, i, j) && t.trajectory@[j]@ == t.milestones@[k].fact@ by {
        let m = ms[k];
        assert(turning_points(x).contains(m));
        law_every_turn_is_a_milestone(x, m);
        let j = choose|j: int|
            0 <= j < x.len() && (#[trigger] turning_points_at(x, j)).contains(m);
        let before = x.subrange(0, j);
        lemma_flip(before, x[j]);
        let a = flip_milestone(before, x[j]);
        let b = theme_milestone(before, x[j]);
        let c = gap_milestone(before, x[j]);
        let q = choose|q: int| 0 <= q < (a + b + c).len() && (a + b + c)[q] == m;
        if q >= a.len() {
            if q < a.len() + b.len() {
                assert((a + b + c)[q] == b[q - a.len()]);
            } else {
                assert((a + b + c)[q] == c[q - a.len() - b.len()]);
            }
        }
        assert(a[q] == m);
        let i = choose|i: int| #[trigger]
            turns_around(before.push(x[j]), i, before.len() as int);
        lemma_turns_around_prefix(x, i, j);
        assert(turns_around(x, i, j));
    }
    assert forall|i: int, j: int| #[trigger] turns_around(x, i, j) implies exists|k: int|
        0 <= k < t.milestones@.len() && (#[trigger] t.milestones@[k]).milestone_type is StanceFlip
            && t.milestones@[k].fact@ == t.trajectory@[j]@ by {
        let before = x.subrange(0, j);
        lemma_turns_around_prefix(x, i, j);
        lemma_flip(before, x[j]);
        assert(turns_around(before.push(x[j]), i, before.len() as int));
        let m = flip_milestone(before, x[j])[0];
        assert(turning_points_at(x, j)[0] == m);
        assert(turning_points_at(x, j).contains(m));
        law_every_turn_is_a_milestone(x, m);
        let k = choose|k: int| 0 <= k < turning_points(x).len() && turning_points(x)[k] == m;
        assert(ms[k] == t.milestones@[k]@);
    }
}

/// Whether a fact turns a stance around depends on no later fact.
proof fn lemma_turns_around_prefix(x: Seq<FactView>, i: int, j: int)
    requires
        0 <= j < x.len(),
    ensures
        turns_around(x, i, j) <==> turns_around(
            x.subrange(0, j).push(x[j]),
            i,
            x.subrange(0, j).len() as int,
        ),
{
    let p = x.subrange(0, j).push(x[j]);
    assert forall|k: int| 0 <= k <= j implies #[trigger] p[k] == x[k] by {}
    if turns_around(x, i, j) {
        assert forall|k: int|
            i < k < j && (#[trigger] p[k]).fact_type == p[j].fact_type implies !takes_stance(
            p[k],
            true,
        ) && !takes_stance(p[k], false) by {
            assert(x[k] == p[k]);
        }
    }
    if turns_around(p, i, j) {
        assert forall|k: int|
            i < k < j && (#[trigger] x[k]).fact_type == x[j].fact_type implies !takes_stance(
            x[k],
            true,
        ) && !takes_stance(x[k], false) by {
            assert(x[k] == p[k]);
        }
    }
}

/// The first and the last fact with a property are where they are said to be.
proof fn lemma_where_is(v: Seq<FactView>, p: spec_fn(FactView) -> bool)
    ensures
        first_where(v, p) is None <==> forall|i: int| 0 <= i < v.len() ==> !p(#[trigger] v[i]),
        first_where(v, p) matches Some(f) ==> exists|i: int|
            0 <= i < v.len() && #[trigger] v[i] == f && p(f) && forall|k: int|
                0 <= k < i ==> !p(#[trigger] v[k]),
        last_where(v, p) is None <==> forall|i: int| 0 <= i < v.len() ==> !p(#[trigger] v[i]),
        last_where(v, p) matches Some(f) ==> exists|i: int|
            0 <= i < v.len() && #[trigger] v[i] == f && p(f) && forall|k: int|
                i < k < v.len() ==> !p(#[trigger] v[k]),
    decreases v.len(),
{
    if v.len() > 0 {
        let front = v.drop_last();
        let n = front.len() as int;
        lemma_where_is(front, p);
        assert forall|i: int| 0 <= i < n implies #[trigger] v[i] == front[i] by {}
        assert forall|i: int| 0 <= i < n implies #[trigger] front[i] == v[i] by {}
        match first_where(front, p) {
            Some(f) => {
                let i = choose|i: int|
                    0 <= i < front.len() && #[trigger] front[i] == f && p(f) && forall|k: int|
                        0 <= k < i ==> !p(#[trigger] front[k]);
                assert(v[i] == f);
                assert forall|k: int| 0 <= k < i implies !p(#[trigger] v[k]) by {
                    assert(front[k] == v[k]);
                }
            },
            None => {
                assert(v[n] == v.last());
                assert forall|k: int| 0 <= k < n implies !p(#[trigger] v[k]) by {
                    assert(front[k] == v[k]);
                }
            },
        }
        if p(v.last()) {
            assert(v[n] == v.last());
        } else {
            match last_where(front, p) {
                Some(f) => {
                    let i = choose|i: int|
                        0 <= i < front.len() && #[trigger] front[i] == f && p(f) && forall|k: int|
                            i < k < front.len() ==> !p(#[trigger] front[k]);
                    assert(v[i] == f);
                    assert forall|k: int| i < k < v.len() implies !p(#[trigger] v[k]) by {
                        if k < n {
                            assert(front[k] == v[k]);
                        }
                    }
                },
                None => {
                    assert forall|k: int| 0 <= k < v.len() implies !p(#[trigger] v[k]) by {
                        if k < n {
                            assert(front[k] == v[k]);
                        }
                    }
                },
            }
        }
    }
}

/// The timeline begins with who the person is: its origin is the earliest fact
/// of identity; without any it is the earliest persona fact, and without these
/// the earliest fact of all.
pub proof fn law_origin_is_the_earliest(t: EvolutionTimeline, facts: Seq<FactView>)
    requires
        timeline_of(t, facts),
        facts.len() > 0,
    ensures
        ({
            let x = fact_views(t.trajectory@);
            exists|i: int|
                {
                    &&& 0 <= i < x.len()
                    &&& opt_fact(t.start) == Some(#[trigger] x[i])
                    &&& if exists|k: int| 0 <= k < x.len() && (#[trigger] x[k]).fact_type
                        == FactType::Identity {
                        x[i].fact_type == FactType::Identity && forall|k: int|
                            0 <= k < i ==> (#[trigger] x[k]).fact_type != FactType::Identity
                    } else if exists|k: int|
                        0 <= k < x.len() && tagged_as_persona(#[trigger] x[k]) {
                        tagged_as_persona(x[i]) && forall|k: int|
                            0 <= k < i ==> !tagged_as_persona(#[trigger] x[k])
                    } else {
                        i == 0
                    }
                }
        }),
{
    let x = fact_views(t.trajectory@);
    let p = |f: FactView| f.fact_type is Identity;
    let q = |f: FactView| is_persona(f);
    lemma_where_is(x, p);
    lemma_where_is(x, q);
    assert(x.len() == facts.len());
    assert forall|k: int| 0 <= k < x.len() implies p(#[trigger] x[k]) == (x[k].fact_type
        == FactType::Identity) && q(x[k]) == tagged_as_persona(x[k]) by {}
    match first_where(x, p) {
        Some(f) => {
            let i = choose|i: int|
                0 <= i < x.len() && #[trigger] x[i] == f && p(f) && forall|k: int|
                    0 <= k < i ==> !p(#[trigger] x[k]);
            assert(opt_fact(t.start) == Some(x[i]));
        },
        None => match first_where(x, q) {
            Some(f) => {
                let i = choose|i: int|
                    0 <= i < x.len() && #[trigger] x[i] == f && q(f) && forall|k: int|
                        0 <= k < i ==> !q(#[trigger] x[k]);
                assert(opt_fact(t.start) == Some(x[i]));
            },
            None => {
                assert(opt_fact(t.start) == Some(x[0]));
            },
        },
    }
}

/// The timeline ends where the person stands: its present is the latest persona
/// fact, and without any the latest fact of all.
pub proof fn law_present_is_the_latest(t: EvolutionTimeline, facts: Seq<FactView>)
    requires
        timeline_of(t, facts),
        facts.len() > 0,
    ensures
        ({
            let x = fact_views(t.trajectory@);
            exists|i: int|
                {
                    &&& 0 <= i < x.len()
                    &&& opt_fact(t.current) == Some(#[trigger] x[i])
                    &&& if exists|k: int| 0 <= k < x.len() && tagged_as_persona(#[trigger] x[k]) {
                        tagged_as_persona(x[i]) && forall|k: int|
                            i < k < x.len() ==> !tagged_as_persona(#[trigger] x[k])
                    } else {
                        i == x.len() - 1
                    }
                }
        }),
{
    let x = fact_views(t.trajectory@);
    let q = |f: FactView| is_persona(f);
    lemma_where_is(x, q);
    assert(x.len() == facts.len());
    assert forall|k: int| 0 <= k < x.len() implies q(#[trigger] x[k]) == tagged_as_persona(
        x[k],
    ) by {}
    match last_where(x, q) {
        Some(f) => {
            let i = choose|i: int|
                0 <= i < x.len() && #[trigger] x[i] == f && q(f) && forall|k: int|
                    i < k < x.len() ==> !q(#[trigger] x[k]);
            assert(opt_fact(t.current) == Some(x[i]));
        },
        None => {
            assert(opt_fact(t.current) == Some(x[x.len() - 1]));
        },
    }
}

/// Nothing is lost and nothing is added: the trajectory is a rearrangement of
/// the facts, in order of time, then of when they were stored, then of their ids.
pub proof fn law_trajectory_rearranges_the_facts(t: EvolutionTimeline, facts: Seq<FactView>)
    requires
        timeline_of(t, facts),
    ensures
        fact_views(t.trajectory@).to_multiset() == facts.to_multiset(),
        forall|a: int, b: int|
            0 <= a < b < t.trajectory@.len() ==> {
                let x = (#[trigger] t.trajectory@[a])@;
                let y = (#[trigger] t.trajectory@[b])@;
                ||| x.time < y.time
                ||| x.time == y.time && x.created_at < y.created_at
                ||| x.time == y.time && x.created_at == y.created_at && id_key(x) <= id_key(y)
            },
{
    let keys = time_keys(facts);
    let p = sorted_indices(keys);
    let all = crate::order::indices(facts.len());
    lemma_sorted_indices(keys);
    let at = |i: int| facts[i];
    assert(p.map_values(at) =~= chronological(facts));
    assert(all.map_values(at) =~= facts);
    lemma_map_keeps_multiset(p, all, at);
    assert forall|a: int, b: int| 0 <= a < b < t.trajectory@.len() implies {
        let x = (#[trigger] t.trajectory@[a])@;
        let y = (#[trigger] t.trajectory@[b])@;
        ||| x.time < y.time
        ||| x.time == y.time && x.created_at < y.created_at
        ||| x.time == y.time && x.created_at == y.created_at && id_key(x) <= id_key(y)
    } by {
        assert(fact_views(t.trajectory@)[a] == t.trajectory@[a]@);
        assert(fact_views(t.trajectory@)[b] == t.trajectory@[b]@);
        law_trajectory_is_ordered(facts, a, b);
    }
}

/// Rearranged indices name rearranged values.
proof fn lemma_map_keeps_multiset(
    a: Seq<int>,
    b: Seq<int>,
    f: spec_fn(int) -> FactView,
)
    requires
        a.to_multiset() == b.to_multiset(),
    ensures
        a.map_values(f).to_multiset() == b.map_values(f).to_multiset(),
    decreases a.len(),
{
    a.to_multiset_ensures();
    b.to_multiset_ensures();
    a.map_values(f).to_multiset_ensures();
    b.map_values(f).to_multiset_ensures();
    if a.len() == 0 {
        assert(b.len() == 0);
        assert(a.map_values(f) =~= b.map_values(f));
    } else {
        let x = a.last();
        assert(a.contains(a[a.len() - 1]));
        assert(b.to_multiset().count(x) > 0);
        assert(b.contains(x));
        let k = choose|k: int| 0 <= k < b.len() && b[k] == x;
        let c = b.remove(k);
        let front = a.drop_last();
        assert(a =~= front.push(x));
        vstd::seq_lib::to_multiset_build(front, x);
        vstd::seq_lib::to_multiset_remove(b, k);
        assert(front.to_multiset() =~= c.to_multiset());
        lemma_map_keeps_multiset(front, c, f);
        assert(a.map_values(f) =~= front.map_values(f).push(f(x)));
        vstd::seq_lib::to_multiset_build(front.map_values(f), f(x));
        assert(b.map_values(f).remove(k) =~= c.map_values(f));
        vstd::seq_lib::to_multiset_remove(b.map_values(f), k);
        assert(b.map_values(f)[k] == f(x));
        assert(b.map_values(f).contains(f(x)));
        assert(a.map_values(f).to_multiset() =~= b.map_values(f).to_multiset());
    }
}

/// The kinds of turning points have different names.
pub proof fn law_turning_points_have_different_names(a: MilestoneType, b: MilestoneType)
    ensures
        a.name() == b.name() ==> a == b,
{
    reveal_strlit("stance_flip");
    reveal_strlit("new_theme");
    reveal_strlit("large_gap");
    assert("large_gap"@[0] == 'l');
    assert("new_theme"@[0] == 'n');
    assert("stance_flip"@.len() == 11
        && "new_theme"@.len() == 9
        && "large_gap"@.len() == 9);
}

} // verus!
