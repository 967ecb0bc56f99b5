//! Personality traits read off evidence passages by keyword.
//!
//! Confidence is counted in hundredths.
use vstd::prelude::*;

use crate::knowledge::Evidence;
use crate::observation_compiler::lemma_encode_concat;
use crate::order::{as_ints, by_key, lemma_sorted_indices, lemma_sorted_indices_distinct, sort_indices, sorted_indices, SortKey};
use crate::text::{
    byte_len, contains, first_chars, has_part, len_in_bytes, occurs_at, same_text, take_chars,
};

verus! {

/// How many characters of a passage are kept as evidence.
pub const MAX_SNIPPET_CHARS: usize = 80;

/// A trait with its confidence and the passage that supports it.
#[derive(Debug)]
pub struct Trait {
    /// Name of the trait.
    pub name: String,
    /// Confidence in hundredths.
    pub confidence: u32,
    /// The beginning of a passage that shows the trait.
    pub evidence: String,
}

/// The traits of an entity.
#[derive(Debug)]
pub struct PersonalityProfile {
    pub entity: String,
    /// By descending confidence.
    pub traits: Vec<Trait>,
    /// Free text; empty.
    pub summary: String,
}

/// A keyword that shows a trait, with the confidence it gives.
pub struct PatternView {
    pub keyword: Seq<char>,
    pub name: Seq<char>,
    pub weight: int,
}

/// A row of the table.
pub open spec fn pattern(keyword: Seq<char>, name: Seq<char>, weight: int) -> PatternView {
    PatternView { keyword, name, weight }
}

/// The keywords and the traits they show.
pub open spec fn trait_patterns() -> Seq<PatternView> {
    seq![
        pattern("心重"@, "sensitive"@, 85),
        pattern("多心"@, "suspicious"@, 80),
        pattern("善妒"@, "jealous"@, 85),
        pattern("爱哭"@, "tearful"@, 80),
        pattern("哭"@, "emotional"@, 50),
        pattern("笑"@, "cheerful"@, 30),
        pattern("葬花"@, "melancholic"@, 90),
        pattern("焚稿"@, "despairing"@, 95),
        pattern("焚稿断痴情"@, "despairing"@, 95),
        pattern("断痴情"@, "despairing"@, 90),
        pattern("俏语"@, "witty"@, 85),
        pattern("谑娇音"@, "playful"@, 80),
        pattern("诗"@, "poetic"@, 60),
        pattern("吟诗"@, "poetic"@, 70),
        pattern("多愁"@, "melancholic"@, 85),
        pattern("善感"@, "sensitive"@, 80),
        pattern("多病"@, "frail"@, 75),
        pattern("体弱"@, "frail"@, 70),
        pattern("咳嗽"@, "frail"@, 50),
        pattern("嗽疾"@, "frail"@, 70),
        pattern("孤傲"@, "proud"@, 85),
        pattern("清高"@, "proud"@, 80),
        pattern("聪明"@, "intelligent"@, 85),
        pattern("聪慧"@, "intelligent"@, 85),
        pattern("才华"@, "talented"@, 75),
        pattern("才情"@, "talented"@, 80),
        pattern("温柔"@, "gentle"@, 70),
        pattern("刚烈"@, "fierce"@, 85),
        pattern("宽厚"@, "generous"@, 70),
        pattern("仁慈"@, "kind"@, 70),
        pattern("多疑"@, "suspicious"@, 75),
        pattern("性急"@, "impatient"@, 70),
        pattern("急躁"@, "impatient"@, 70),
        pattern("勇猛"@, "brave"@, 70),
        pattern("奸雄"@, "cunning"@, 80),
        pattern("枭雄"@, "ambitious"@, 75),
        pattern("狡诈"@, "deceitful"@, 80),
    ]
}

/// A keyword that shows a trait.
struct TraitPattern {
    keyword: &'static str,
    name: &'static str,
    weight: u32,
}

/// The values of a list of patterns.
spec fn pattern_views(v: Seq<TraitPattern>) -> Seq<PatternView> {
    Seq::new(v.len(), |i: int| pattern(v[i].keyword@, v[i].name@, v[i].weight as int))
}

/// The table of keywords.
fn pattern_table() -> (v: Vec<TraitPattern>)
    ensures
        pattern_views(v@) == trait_patterns(),
{
    let v: Vec<TraitPattern> = vec![
        TraitPattern { keyword: "心重", name: "sensitive", weight: 85 },
        TraitPattern { keyword: "多心", name: "suspicious", weight: 80 },
        TraitPattern { keyword: "善妒", name: "jealous", weight: 85 },
        TraitPattern { keyword: "爱哭", name: "tearful", weight: 80 },
        TraitPattern { keyword: "哭", name: "emotional", weight: 50 },
        TraitPattern { keyword: "笑", name: "cheerful", weight: 30 },
        TraitPattern { keyword: "葬花", name: "melancholic", weight: 90 },
        TraitPattern { keyword: "焚稿", name: "despairing", weight: 95 },
        TraitPattern { keyword: "焚稿断痴情", name: "despairing", weight: 95 },
        TraitPattern { keyword: "断痴情", name: "despairing", weight: 90 },
        TraitPattern { keyword: "俏语", name: "witty", weight: 85 },
        TraitPattern { keyword: "谑娇音", name: "playful", weight: 80 },
        TraitPattern { keyword: "诗", name: "poetic", weight: 60 },
        TraitPattern { keyword: "吟诗", name: "poetic", weight: 70 },
        TraitPattern { keyword: "多愁", name: "melancholic", weight: 85 },
        TraitPattern { keyword: "善感", name: "sensitive", weight: 80 },
        TraitPattern { keyword: "多病", name: "frail", weight: 75 },
        TraitPattern { keyword: "体弱", name: "frail", weight: 70 },
        TraitPattern { keyword: "咳嗽", name: "frail", weight: 50 },
        TraitPattern { keyword: "嗽疾", name: "frail", weight: 70 },
        TraitPattern { keyword: "孤傲", name: "proud", weight: 85 },
        TraitPattern { keyword: "清高", name: "proud", weight: 80 },
        TraitPattern { keyword: "聪明", name: "intelligent", weight: 85 },
        TraitPattern { keyword: "聪慧", name: "intelligent", weight: 85 },
        TraitPattern { keyword: "才华", name: "talented", weight: 75 },
        TraitPattern { keyword: "才情", name: "talented", weight: 80 },
        TraitPattern { keyword: "温柔", name: "gentle", weight: 70 },
        TraitPattern { keyword: "刚烈", name: "fierce", weight: 85 },
        TraitPattern { keyword: "宽厚", name: "generous", weight: 70 },
        TraitPattern { keyword: "仁慈", name: "kind", weight: 70 },
        TraitPattern { keyword: "多疑", name: "suspicious", weight: 75 },
        TraitPattern { keyword: "性急", name: "impatient", weight: 70 },
        TraitPattern { keyword: "急躁", name: "impatient", weight: 70 },
        TraitPattern { keyword: "勇猛", name: "brave", weight: 70 },
        TraitPattern { keyword: "奸雄", name: "cunning", weight: 80 },
        TraitPattern { keyword: "枭雄", name: "ambitious", weight: 75 },
        TraitPattern { keyword: "狡诈", name: "deceitful", weight: 80 },
    ];
    assert(pattern_views(v@) =~= trait_patterns());
    v
}

/// The pattern at index `k` shows trait `name` in `text`.
pub open spec fn shows(text: Seq<char>, name: Seq<char>, k: int) -> bool {
    trait_patterns()[k].name == name && has_part(text, trait_patterns()[k].keyword)
}

/// One of the first `k` patterns shows trait `name` in `text`.
pub open spec fn shown_in(text: Seq<char>, name: Seq<char>, k: int) -> bool
    decreases k,
{
    k > 0 && (shown_in(text, name, k - 1) || shows(text, name, k - 1))
}

/// The larger of two numbers.
pub open spec fn larger(a: int, b: int) -> int {
    if a >= b {
        a
    } else {
        b
    }
}

/// The largest weight with which one of the first `k` patterns shows the
/// trait in `text`.
pub open spec fn weight_in(text: Seq<char>, name: Seq<char>, k: int) -> int
    decreases k,
{
    if k <= 0 {
        0
    } else if shows(text, name, k - 1) {
        larger(weight_in(text, name, k - 1), trait_patterns()[k - 1].weight)
    } else {
        weight_in(text, name, k - 1)
    }
}

/// The passage kept after the first `k` patterns were looked for in `text`,
/// when `kept` was kept before: a shorter passage replaces a longer one, and
/// its beginning is kept.
pub open spec fn kept_in(text: Seq<char>, name: Seq<char>, k: int, kept: Seq<char>) -> Seq<char>
    decreases k,
{
    if k <= 0 {
        kept
    } else {
        let before = kept_in(text, name, k - 1, kept);
        if shows(text, name, k - 1) && (before.len() == 0 || byte_len(text) < byte_len(before)) {
            first_chars(text, MAX_SNIPPET_CHARS as nat)
        } else {
            before
        }
    }
}

/// One of the passages shows the trait.
pub open spec fn shown(passages: Seq<Seq<char>>, name: Seq<char>) -> bool
    decreases passages.len(),
{
    passages.len() > 0 && (shown(passages.drop_last(), name) || shown_in(
        passages.last(),
        name,
        trait_patterns().len() as int,
    ))
}

/// The confidence in the trait: the largest weight among the patterns that
/// show it.
pub open spec fn confidence_of(passages: Seq<Seq<char>>, name: Seq<char>) -> int
    decreases passages.len(),
{
    if passages.len() == 0 {
        0
    } else {
        larger(
            confidence_of(passages.drop_last(), name),
            weight_in(passages.last(), name, trait_patterns().len() as int),
        )
    }
}

/// The passage kept for the trait.
pub open spec fn evidence_of(passages: Seq<Seq<char>>, name: Seq<char>) -> Seq<char>
    decreases passages.len(),
{
    if passages.len() == 0 {
        Seq::empty()
    } else {
        kept_in(
            passages.last(),
            name,
            trait_patterns().len() as int,
            evidence_of(passages.drop_last(), name),
        )
    }
}

/// The contents of evidence passages.
pub open spec fn contents(v: Seq<Evidence>) -> Seq<Seq<char>> {
    Seq::new(v.len(), |i: int| v[i].content@)
}

/// The traits are those that the passages show, each once, with its
/// confidence and evidence.
pub open spec fn traits_of(traits: Seq<Trait>, passages: Seq<Seq<char>>) -> bool {
    &&& forall|i: int|
        0 <= i < traits.len() ==> {
            let t = #[trigger] traits[i];
            &&& shown(passages, t.name@)
            &&& t.confidence == confidence_of(passages, t.name@)
            &&& t.evidence@ == evidence_of(passages, t.name@)
        }
    &&& forall|name: Seq<char>| #[trigger] shown(passages, name) ==> has_trait(traits, name)
    &&& distinct_names(traits)
}

/// A trait of this name is in the list.
pub open spec fn has_trait(traits: Seq<Trait>, name: Seq<char>) -> bool {
    exists|i: int| 0 <= i < traits.len() && (#[trigger] traits[i]).name@ == name
}

/// No name occurs twice.
pub open spec fn distinct_names(traits: Seq<Trait>) -> bool {
    forall|i: int, j: int|
        0 <= i < j < traits.len() ==> (#[trigger] traits[i]).name@ != (#[trigger] traits[j]).name@
}

/// The state of the scan: the passages done, and the first `k` patterns on
/// the next.
spec fn scanned(traits: Seq<Trait>, done: Seq<Seq<char>>, text: Seq<char>, k: int) -> bool {
    &&& forall|i: int| 0 <= i < traits.len() ==> #[trigger] entry_ok(traits[i], done, text, k)
    &&& forall|name: Seq<char>| #[trigger] so_far(done, text, name, k) ==> has_trait(traits, name)
    &&& distinct_names(traits)
}

/// The trait is shown by the passages done, or by one of the first `k`
/// patterns in the next.
spec fn so_far(done: Seq<Seq<char>>, text: Seq<char>, name: Seq<char>, k: int) -> bool {
    shown(done, name) || shown_in(text, name, k)
}

/// A trait as it stands during the scan.
spec fn entry_ok(t: Trait, done: Seq<Seq<char>>, text: Seq<char>, k: int) -> bool {
    &&& so_far(done, text, t.name@, k)
    &&& t.confidence == larger(confidence_of(done, t.name@), weight_in(text, t.name@, k))
    &&& t.evidence@ == kept_in(text, t.name@, k, evidence_of(done, t.name@))
}

/// What is not shown has neither confidence nor evidence.
proof fn lemma_unshown(done: Seq<Seq<char>>, name: Seq<char>)
    requires
        !shown(done, name),
    ensures
        confidence_of(done, name) == 0,
        evidence_of(done, name).len() == 0,
    decreases done.len(),
{
    if done.len() > 0 {
        lemma_unshown(done.drop_last(), name);
        lemma_unshown_in(
            done.last(),
            name,
            trait_patterns().len() as int,
            evidence_of(done.drop_last(), name),
        );
    }
}

/// A passage that does not show a trait changes nothing about it.
proof fn lemma_unshown_in(text: Seq<char>, name: Seq<char>, k: int, kept: Seq<char>)
    requires
        !shown_in(text, name, k),
        0 <= k,
    ensures
        weight_in(text, name, k) == 0,
        kept_in(text, name, k, kept) == kept,
    decreases k,
{
    if k > 0 {
        lemma_unshown_in(text, name, k - 1, kept);
    }
}

/// Weights are positive.
proof fn lemma_weights(k: int)
    requires
        0 <= k < trait_patterns().len(),
    ensures
        0 < trait_patterns()[k].weight <= 100,
{
}

/// Note that the pattern at index `k` shows its trait in `text`.
fn note_trait(
    traits: &mut Vec<Trait>,
    p: &TraitPattern,
    text: &str,
    done: Ghost<Seq<Seq<char>>>,
    k: Ghost<int>,
)
    requires
        0 <= k@ < trait_patterns().len(),
        pattern(p.keyword@, p.name@, p.weight as int) == trait_patterns()[k@],
        has_part(text@, p.keyword@),
        scanned(old(traits)@, done@, text@, k@),
    ensures
        scanned(final(traits)@, done@, text@, k@ + 1),
{
    let ghost before = traits@;
    let ghost name = p.name@;
    assert(shows(text@, name, k@));
    let mut i: usize = 0;
    while i < traits.len()
        invariant
            i <= traits@.len(),
            traits@ == before,
            name == p.name@,
            forall|j: int| 0 <= j < i ==> (#[trigger] before[j]).name@ != name,
        ensures
            i < traits@.len() ==> traits@[i as int].name@ == name,
        decreases traits.len() - i,
    {
        if same_text(traits[i].name.as_str(), p.name) {
            break;
        }
        i = i + 1;
    }
    if i < traits.len() {
        proof {
            assert(entry_ok(before[i as int], done@, text@, k@));
            lemma_weights(k@);
        }
        let confidence: u32 = if traits[i].confidence >= p.weight {
            traits[i].confidence
        } else {
            p.weight
        };
        let replace: bool = traits[i].evidence.as_str().is_empty() || len_in_bytes(text)
            < len_in_bytes(traits[i].evidence.as_str());
        let evidence: String = if replace {
            take_chars(text, MAX_SNIPPET_CHARS)
        } else {
            traits[i].evidence.clone()
        };
        let new_trait = Trait { name: traits[i].name.clone(), confidence, evidence };
        traits.set(i, new_trait);
        proof {
            let after = traits@;
            assert(after[i as int].name@ == name);
            assert(entry_ok(after[i as int], done@, text@, k@ + 1));
            assert forall|j: int| 0 <= j < after.len() implies #[trigger] entry_ok(
                after[j],
                done@,
                text@,
                k@ + 1,
            ) by {
                if j != i {
                    assert(after[j] == before[j]);
                    assert(entry_ok(before[j], done@, text@, k@));
                    if j < i {
                        assert(before[j].name@ != before[i as int].name@);
                    } else {
                        assert(before[i as int].name@ != before[j].name@);
                    }
                }
            }
            assert forall|n: Seq<char>| #[trigger] so_far(done@, text@, n, k@ + 1) implies has_trait(
                after,
                n,
            ) by {
                if n == name {
                    assert(after[i as int].name@ == n);
                } else {
                    assert(has_trait(before, n)) by {
                        assert(so_far(done@, text@, n, k@));
                    }
                    let j = choose|j: int|
                        0 <= j < before.len() && (#[trigger] before[j]).name@ == n;
                    assert(after[j].name@ == n);
                }
            }
            assert forall|a: int, b: int| 0 <= a < b < after.len() implies (
            #[trigger] after[a]).name@ != (#[trigger] after[b]).name@ by {
                assert(before[a].name@ != before[b].name@);
                assert(after[a].name@ == before[a].name@);
                assert(after[b].name@ == before[b].name@);
            }
        }
    } else {
        proof {
            if so_far(done@, text@, name, k@) {
                assert(has_trait(before, name));
            }
            lemma_unshown(done@, name);
            lemma_unshown_in(text@, name, k@, evidence_of(done@, name));
            lemma_weights(k@);
        }
        traits.push(
            Trait {
                name: p.name.to_owned(),
                confidence: p.weight,
                evidence: take_chars(text, MAX_SNIPPET_CHARS),
            },
        );
        proof {
            let after = traits@;
            assert(entry_ok(after[i as int], done@, text@, k@ + 1));
            assert forall|j: int| 0 <= j < after.len() implies #[trigger] entry_ok(
                after[j],
                done@,
                text@,
                k@ + 1,
            ) by {
                if j < before.len() {
                    assert(after[j] == before[j]);
                    assert(entry_ok(before[j], done@, text@, k@));
                    assert(before[j].name@ != name);
                }
            }
            assert forall|n: Seq<char>| #[trigger] so_far(done@, text@, n, k@ + 1) implies has_trait(
                after,
                n,
            ) by {
                if n == name {
                    assert(after[i as int].name@ == n);
                } else {
                    assert(has_trait(before, n)) by {
                        assert(so_far(done@, text@, n, k@));
                    }
                    let j = choose|j: int|
                        0 <= j < before.len() && (#[trigger] before[j]).name@ == n;
                    assert(after[j].name@ == n);
                }
            }
            assert forall|a: int, b: int| 0 <= a < b < after.len() implies (
            #[trigger] after[a]).name@ != (#[trigger] after[b]).name@ by {
                if b < before.len() {
                    assert(before[a].name@ != before[b].name@);
                } else {
                    assert(after[a] == before[a]);
                }
            }
        }
    }
}

/// Scan one passage for all patterns.
fn scan_passage(traits: &mut Vec<Trait>, table: &Vec<TraitPattern>, text: &str, done: Ghost<
    Seq<Seq<char>>,
>)
    requires
        pattern_views(table@) == trait_patterns(),
        scanned(old(traits)@, done@, text@, 0),
    ensures
        scanned(final(traits)@, done@, text@, trait_patterns().len() as int),
{
    let mut k: usize = 0;
    assert(table@.len() == trait_patterns().len());
    while k < table.len()
        invariant
            k <= table@.len() == trait_patterns().len(),
            pattern_views(table@) == trait_patterns(),
            scanned(traits@, done@, text@, k as int),
        decreases table.len() - k,
    {
        assert(trait_patterns()[k as int] == pattern_views(table@)[k as int]);
        if contains(text, table[k].keyword) {
            note_trait(traits, &table[k], text, done, Ghost(k as int));
        } else {
            proof {
                assert forall|n: Seq<char>| #[trigger] so_far(done@, text@, n, k + 1) implies has_trait(
                    traits@,
                    n,
                ) by {
                    assert(so_far(done@, text@, n, k as int));
                }
                assert forall|i: int| 0 <= i < traits@.len() implies #[trigger] entry_ok(
                    traits@[i],
                    done@,
                    text@,
                    k + 1,
                ) by {
                    assert(entry_ok(traits@[i], done@, text@, k as int));
                }
            }
        }
        k = k + 1;
    }
}

/// The personality profile that the passages show, the most certain traits
/// first.
pub fn extract_profile(entity: &str, evidence: &Vec<Evidence>) -> (p: PersonalityProfile)
    ensures
        p.entity@ == entity@,
        p.summary@.len() == 0,
        traits_of(p.traits@, contents(evidence@)),
        forall|i: int, j: int|
            0 <= i < j < p.traits@.len() ==> (#[trigger] p.traits@[i]).confidence >= (
            #[trigger] p.traits@[j]).confidence,
{
    let table: Vec<TraitPattern> = pattern_table();
    let mut found: Vec<Trait> = Vec::new();
    let ghost all = contents(evidence@);
    let mut i: usize = 0;
    while i < evidence.len()
        invariant
            i <= evidence@.len(),
            all == contents(evidence@),
            pattern_views(table@) == trait_patterns(),
            traits_of(found@, all.subrange(0, i as int)),
        decreases evidence.len() - i,
    {
        let text: &str = evidence[i].content.as_str();
        let ghost done = all.subrange(0, i as int);
        proof {
            assert forall|k: int| 0 <= k < found@.len() implies #[trigger] entry_ok(
                found@[k],
                done,
                text@,
                0,
            ) by {
                lemma_confidence_not_negative(done, found@[k].name@);
            }
        }
        scan_passage(&mut found, &table, text, Ghost(done));
        proof {
            let next = all.subrange(0, i + 1);
            assert(next.drop_last() == done);
            assert(next.last() == text@);
            assert forall|k: int| 0 <= k < found@.len() implies {
                let t = #[trigger] found@[k];
                &&& shown(next, t.name@)
                &&& t.confidence == confidence_of(next, t.name@)
                &&& t.evidence@ == evidence_of(next, t.name@)
            } by {
                assert(entry_ok(found@[k], done, text@, trait_patterns().len() as int));
            }
            assert forall|name: Seq<char>| #[trigger] shown(next, name) implies has_trait(
                found@,
                name,
            ) by {
                assert(so_far(done, text@, name, trait_patterns().len() as int));
            }
        }
        i = i + 1;
    }
    assert(all.subrange(0, all.len() as int) == all);
    let traits: Vec<Trait> = most_certain_first(&found);
    proof {
        assert forall|name: Seq<char>| #[trigger] shown(all, name) implies has_trait(
            traits@,
            name,
        ) by {
            assert(has_trait(found@, name));
        }
        assert forall|k: int| 0 <= k < traits@.len() implies {
            let t = #[trigger] traits@[k];
            &&& shown(all, t.name@)
            &&& t.confidence == confidence_of(all, t.name@)
            &&& t.evidence@ == evidence_of(all, t.name@)
        } by {
            assert(is_copy_of_one(traits@[k], found@));
            let j = choose|j: int| 0 <= j < found@.len() && copy_of(traits@[k], #[trigger] found@[j]);
        }
    }
    PersonalityProfile { entity: entity.to_owned(), traits, summary: String::new() }
}

/// Confidence is never negative.
proof fn lemma_confidence_not_negative(done: Seq<Seq<char>>, name: Seq<char>)
    ensures
        0 <= confidence_of(done, name),
    decreases done.len(),
{
    if done.len() > 0 {
        lemma_confidence_not_negative(done.drop_last(), name);
    }
}

/// Two traits say the same.
spec fn copy_of(a: Trait, b: Trait) -> bool {
    a.name@ == b.name@ && a.confidence == b.confidence && a.evidence@ == b.evidence@
}

/// The trait says the same as one of the list.
spec fn is_copy_of_one(t: Trait, v: Seq<Trait>) -> bool {
    exists|j: int| 0 <= j < v.len() && copy_of(t, #[trigger] v[j])
}

/// The same traits by descending confidence.
fn most_certain_first(found: &Vec<Trait>) -> (v: Vec<Trait>)
    requires
        distinct_names(found@),
    ensures
        forall|i: int| 0 <= i < v@.len() ==> #[trigger] is_copy_of_one(v@[i], found@),
        forall|name: Seq<char>| #[trigger] has_trait(found@, name) ==> has_trait(v@, name),
        distinct_names(v@),
        forall|i: int, j: int|
            0 <= i < j < v@.len() ==> (#[trigger] v@[i]).confidence >= (
            #[trigger] v@[j]).confidence,
{
    let mut keys: Vec<SortKey> = Vec::new();
    let mut i: usize = 0;
    while i < found.len()
        invariant
            i <= found@.len(),
            keys@.len() == i,
            forall|k: int|
                0 <= k < i ==> (#[trigger] keys@[k]) == (SortKey {
                    major: (-(found@[k].confidence as int)) as i128,
                    middle: 0,
                    minor: 0,
                }),
        decreases found.len() - i,
    {
        keys.push(SortKey { major: -(found[i].confidence as i128), middle: 0, minor: 0 });
        i = i + 1;
    }
    let order: Vec<usize> = sort_indices(&keys);
    let ghost p = sorted_indices(keys@);
    proof {
        lemma_sorted_indices(keys@);
        lemma_sorted_indices_distinct(keys@);
    }
    let mut v: Vec<Trait> = Vec::new();
    let mut k: usize = 0;
    while k < order.len()
        invariant
            k <= order@.len() == found@.len(),
            as_ints(order@) == p,
            forall|q: int| 0 <= q < order@.len() ==> (#[trigger] order@[q]) < found@.len(),
            v@.len() == k,
            forall|q: int| 0 <= q < k ==> copy_of(#[trigger] v@[q], found@[p[q]]),
        decreases order.len() - k,
    {
        assert(p[k as int] == order@[k as int]);
        let t: &Trait = &found[order[k]];
        v.push(
            Trait {
                name: t.name.clone(),
                confidence: t.confidence,
                evidence: t.evidence.clone(),
            },
        );
        k = k + 1;
    }
    proof {
        assert forall|i: int| 0 <= i < v@.len() implies #[trigger] is_copy_of_one(
            v@[i],
            found@,
        ) by {
            assert(0 <= p[i] < keys@.len());
            assert(copy_of(v@[i], found@[p[i]]));
        }
        assert forall|name: Seq<char>| #[trigger] has_trait(found@, name) implies has_trait(
            v@,
            name,
        ) by {
            let j = choose|j: int| 0 <= j < found@.len() && (#[trigger] found@[j]).name@ == name;
            assert(p.contains(j));
            let q = choose|q: int| 0 <= q < p.len() && p[q] == j;
            assert(copy_of(v@[q], found@[p[q]]));
        }
        assert forall|a: int, b: int| 0 <= a < b < v@.len() implies (#[trigger] v@[a]).name@ != (
        #[trigger] v@[b]).name@ by {
            assert(copy_of(v@[a], found@[p[a]]));
            assert(copy_of(v@[b], found@[p[b]]));
            assert(p[a] != p[b]);
            assert(0 <= p[a] < keys@.len());
            assert(0 <= p[b] < keys@.len());
            if p[a] < p[b] {
                assert(found@[p[a]].name@ != found@[p[b]].name@);
            } else {
                assert(found@[p[b]].name@ != found@[p[a]].name@);
            }
        }
        assert forall|a: int, b: int| 0 <= a < b < v@.len() implies (
        #[trigger] v@[a]).confidence >= (#[trigger] v@[b]).confidence by {
            assert(copy_of(v@[a], found@[p[a]]));
            assert(copy_of(v@[b], found@[p[b]]));
            assert(by_key(keys@)(p[a], p[b]));
            assert(0 <= p[a] < keys@.len());
            assert(0 <= p[b] < keys@.len());
        }
    }
    v
}

/// The pattern at index `k` stands in the text, for the trait.
pub open spec fn gives_away(text: Seq<char>, name: Seq<char>, k: int) -> bool {
    &&& 0 <= k < trait_patterns().len()
    &&& trait_patterns()[k].name == name
    &&& exists|at: int| #[trigger] occurs_at(text, trait_patterns()[k].keyword, at)
}

/// What one text says of a trait.
proof fn lemma_in_text(text: Seq<char>, name: Seq<char>, n: int) -> (k: int)
    requires
        0 <= n <= trait_patterns().len(),
    ensures
        shown_in(text, name, n) <==> exists|j: int| j < n && #[trigger] gives_away(text, name, j),
        shown_in(text, name, n) ==> k < n && gives_away(text, name, k) && weight_in(text, name, n)
            == trait_patterns()[k].weight,
        !shown_in(text, name, n) ==> weight_in(text, name, n) == 0,
        forall|j: int| j < n && #[trigger] gives_away(text, name, j) ==> trait_patterns()[j].weight
            <= weight_in(text, name, n),
    decreases n,
{
    if n == 0 {
        0
    } else {
        let before = lemma_in_text(text, name, n - 1);
        lemma_weights(n - 1);
        assert(shows(text, name, n - 1) <==> gives_away(text, name, n - 1)) by {
            if has_part(text, trait_patterns()[n - 1].keyword) {
                let keyword = trait_patterns()[n - 1].keyword;
                let at = choose|at: int| occurs_at(text, keyword, at);
                assert(occurs_at(text, trait_patterns()[n - 1].keyword, at));
            }
        }
        if shown_in(text, name, n - 1) {
            assert(gives_away(text, name, before));
        }
        if shows(text, name, n - 1) && (!shown_in(text, name, n - 1) || trait_patterns()[n
            - 1].weight > weight_in(text, name, n - 1)) {
            n - 1
        } else {
            before
        }
    }
}

/// What the passages say of a trait.
proof fn lemma_in_passages(passages: Seq<Seq<char>>, name: Seq<char>) -> (found: (int, int))
    ensures
        shown(passages, name) <==> exists|p: int, k: int|
            0 <= p < passages.len() && #[trigger] gives_away(passages[p], name, k),
        shown(passages, name) ==> 0 <= found.0 < passages.len() && gives_away(
            passages[found.0],
            name,
            found.1,
        ) && confidence_of(passages, name) == trait_patterns()[found.1].weight,
        !shown(passages, name) ==> confidence_of(passages, name) == 0,
        forall|p: int, k: int|
            0 <= p < passages.len() && #[trigger] gives_away(passages[p], name, k)
                ==> trait_patterns()[k].weight <= confidence_of(passages, name),
    decreases passages.len(),
{
    if passages.len() == 0 {
        (0, 0)
    } else {
        let n = trait_patterns().len() as int;
        let front = passages.drop_last();
        let last = passages.last();
        let before = lemma_in_passages(front, name);
        let here = lemma_in_text(last, name, n);
        lemma_confidence_not_negative(front, name);
        assert forall|p: int| 0 <= p < front.len() implies #[trigger] passages[p] == front[p] by {}
        assert forall|p: int| 0 <= p < front.len() implies #[trigger] front[p] == passages[p] by {}
        assert(passages[passages.len() - 1] == last);
        assert forall|p: int, k: int|
            0 <= p < passages.len() && #[trigger] gives_away(passages[p], name, k) implies
            trait_patterns()[k].weight <= confidence_of(passages, name) by {
            if p < front.len() {
                assert(gives_away(front[p], name, k));
            } else {
                assert(gives_away(last, name, k));
            }
        }
        if shown(passages, name) {
            if shown(front, name) {
                assert(gives_away(passages[before.0], name, before.1));
            }
            if shown_in(last, name, n) {
                assert(gives_away(passages[passages.len() - 1], name, here));
            }
        }
        if exists|p: int, k: int|
            0 <= p < passages.len() && #[trigger] gives_away(passages[p], name, k) {
            let (p, k) = choose|p: int, k: int|
                0 <= p < passages.len() && #[trigger] gives_away(passages[p], name, k);
            if p < front.len() {
                assert(gives_away(front[p], name, k));
            } else {
                assert(gives_away(last, name, k));
            }
        }
        if shown_in(last, name, n) && (!shown(front, name) || weight_in(last, name, n)
            > confidence_of(front, name)) {
            (passages.len() - 1, here)
        } else {
            before
        }
    }
}

/// A profile says what the passages show: a trait is in it exactly when a
/// keyword of it stands in one of the passages, once, and its confidence is the
/// largest weight among these keywords.
pub proof fn law_traits_are_shown_by_passages(
    traits: Seq<Trait>,
    passages: Seq<Seq<char>>,
    name: Seq<char>,
)
    requires
        traits_of(traits, passages),
    ensures
        has_trait(traits, name) <==> exists|p: int, k: int|
            0 <= p < passages.len() && #[trigger] gives_away(passages[p], name, k),
        forall|i: int|
            0 <= i < traits.len() && (#[trigger] traits[i]).name@ == name ==> {
                &&& exists|p: int, k: int|
                    0 <= p < passages.len() && #[trigger] gives_away(passages[p], name, k)
                        && traits[i].confidence == trait_patterns()[k].weight
                &&& forall|p: int, k: int|
                    0 <= p < passages.len() && #[trigger] gives_away(passages[p], name, k)
                        ==> trait_patterns()[k].weight <= traits[i].confidence
                &&& forall|j: int|
                    0 <= j < traits.len() && j != i ==> (#[trigger] traits[j]).name@ != name
            },
{
    let found = lemma_in_passages(passages, name);
    if has_trait(traits, name) {
        let i = choose|i: int| 0 <= i < traits.len() && (#[trigger] traits[i]).name@ == name;
        assert(shown(passages, traits[i].name@));
    }
    assert forall|i: int| 0 <= i < traits.len() && (#[trigger] traits[i]).name@ == name implies {
        &&& exists|p: int, k: int|
            0 <= p < passages.len() && #[trigger] gives_away(passages[p], name, k)
                && traits[i].confidence == trait_patterns()[k].weight
        &&& forall|p: int, k: int|
            0 <= p < passages.len() && #[trigger] gives_away(passages[p], name, k)
                ==> trait_patterns()[k].weight <= traits[i].confidence
        &&& forall|j: int|
            0 <= j < traits.len() && j != i ==> (#[trigger] traits[j]).name@ != name
    } by {
        assert(shown(passages, traits[i].name@));
        assert(gives_away(passages[found.0], name, found.1));
        assert forall|j: int| 0 <= j < traits.len() && j != i implies (#[trigger] traits[j]).name@
            != name by {
            if i < j {
                assert(traits[i].name@ != traits[j].name@);
            } else {
                assert(traits[j].name@ != traits[i].name@);
            }
        }
    }
}

/// The beginning of a text has no more bytes than the text.
proof fn lemma_beginning_is_no_longer(s: Seq<char>, n: nat)
    ensures
        byte_len(first_chars(s, n)) <= byte_len(s),
{
    if s.len() > n {
        let a = s.subrange(0, n as int);
        let b = s.subrange(n as int, s.len() as int);
        assert(s =~= a + b);
        lemma_encode_concat(a, b);
    }
}

/// What is kept after a text.
proof fn lemma_kept(text: Seq<char>, name: Seq<char>, n: int, kept: Seq<char>)
    requires
        0 <= n <= trait_patterns().len(),
        text.len() > 0,
    ensures
        kept_in(text, name, n, kept) == (if shown_in(text, name, n) && (kept.len() == 0 || byte_len(
            text,
        ) < byte_len(kept)) {
            first_chars(text, 80)
        } else {
            kept
        }),
    decreases n,
{
    if n > 0 {
        lemma_kept(text, name, n - 1, kept);
        lemma_beginning_is_no_longer(text, 80);
        assert(first_chars(text, 80).len() > 0);
    }
}

/// The evidence for a trait is the beginning, eighty characters at most, of a
/// passage that shows it: one more passage takes its place exactly when it shows
/// the trait and there is none yet, or it is shorter than what is kept.
pub proof fn law_shorter_passage_becomes_evidence(
    passages: Seq<Seq<char>>,
    text: Seq<char>,
    name: Seq<char>,
)
    requires
        text.len() > 0,
    ensures
        ({
            let before = evidence_of(passages, name);
            let after = evidence_of(passages.push(text), name);
            if (exists|k: int| #[trigger] gives_away(text, name, k)) && (before.len() == 0
                || byte_len(text) < byte_len(before)) {
                after == (if text.len() <= 80 {
                    text
                } else {
                    text.subrange(0, 80)
                })
            } else {
                after == before
            }
        }),
        evidence_of(Seq::empty(), name).len() == 0,
{
    let n = trait_patterns().len() as int;
    assert(passages.push(text).drop_last() =~= passages);
    lemma_kept(text, name, n, evidence_of(passages, name));
    let k = lemma_in_text(text, name, n);
    if exists|k: int| #[trigger] gives_away(text, name, k) {
        let j = choose|j: int| #[trigger] gives_away(text, name, j);
        assert(j < n && gives_away(text, name, j));
    }
}

} // verus!
