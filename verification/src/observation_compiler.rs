//! From sentences to observations, and from observations to facts.
//!
//! A sentence is searched for verbs. Each verb found gives an observation: who
//! stands before it did it to whom stands behind it. A sentence without any is
//! searched for a word of speech instead.
use vstd::prelude::*;
use vstd::utf8::{decode_utf8, encode_utf8};

use aho_corasick::AhoCorasick;

use crate::automaton::{
    are_matches, automaton_builds, automaton_words, build_automaton, find_words, is_match,
    lemma_begins_with, lemma_match_boundary, match_views, word_matches,
};
use crate::cognition::{
    observation_views, opt_mention, Fact, FactType, FactView, Mention, MentionView, Observation,
    ObservationView,
};
use crate::json::{member, object, text, Json, JsonView};
use crate::text::{
    byte_len, chars_of, find_part, has_part, is_punctuation, is_punctuation_char, is_space,
    is_space_char, len_in_bytes, occurs_at, same_text, slice_text, texts, words,
};

verus! {

/// How many characters on either side of a verb are searched for a mention.
pub const MENTION_WINDOW: usize = 64;

/// Sentences of fewer bytes are passed over.
pub const MIN_SENTENCE_BYTES: usize = 3;

/// White space and ASCII punctuation, which are no part of a mention.
pub open spec fn is_edge(c: char) -> bool {
    is_space(c) || is_punctuation(c)
}

/// What is left of `s` without edge characters at its start.
pub open spec fn bare_start(s: Seq<char>) -> Seq<char>
    decreases s.len(),
{
    if s.len() > 0 && is_edge(s[0]) {
        bare_start(s.subrange(1, s.len() as int))
    } else {
        s
    }
}

/// What is left of `s` without edge characters at its end.
pub open spec fn bare_end(s: Seq<char>) -> Seq<char>
    decreases s.len(),
{
    if s.len() > 0 && is_edge(s[s.len() - 1]) {
        bare_end(s.subrange(0, s.len() - 1))
    } else {
        s
    }
}

/// `s` without edge characters on either side.
pub open spec fn bare(s: Seq<char>) -> Seq<char> {
    bare_end(bare_start(s))
}

/// The characters `v[from..to]` without edge characters on either side.
fn bare_text(v: &Vec<char>, from: usize, to: usize) -> (s: String)
    requires
        from <= to <= v@.len(),
    ensures
        s@ == bare(v@.subrange(from as int, to as int)),
{
    let ghost whole = v@.subrange(from as int, to as int);
    let mut a: usize = from;
    while a < to && (is_space_char(v[a]) || is_punctuation_char(v[a]))
        invariant
            from <= a <= to <= v@.len(),
            bare_start(whole) == bare_start(v@.subrange(a as int, to as int)),
        decreases to - a,
    {
        assert(v@.subrange(a as int, to as int).subrange(1, to - a) == v@.subrange(
            a + 1,
            to as int,
        ));
        a = a + 1;
    }
    let ghost rest = v@.subrange(a as int, to as int);
    assert(rest.len() > 0 ==> rest[0] == v@[a as int]);
    assert(bare_start(whole) == rest);
    let mut b: usize = to;
    while b > a && (is_space_char(v[b - 1]) || is_punctuation_char(v[b - 1]))
        invariant
            a <= b <= to <= v@.len(),
            bare_end(rest) == bare_end(v@.subrange(a as int, b as int)),
        decreases b,
    {
        assert(v@.subrange(a as int, b as int).subrange(0, b - a - 1) == v@.subrange(
            a as int,
            b - 1,
        ));
        b = b - 1;
    }
    slice_text(v, a, b)
}

/// The candidates for a mention before a verb: the bare forms of the last
/// character, the last two, and so on through the window.
pub open spec fn candidates_before(front: Seq<char>) -> Seq<Seq<char>> {
    let n = if front.len() <= MENTION_WINDOW {
        front.len()
    } else {
        MENTION_WINDOW as nat
    };
    Seq::new(n, |i: int| bare(front.subrange(front.len() - 1 - i, front.len() as int)))
}

/// The candidates for a mention behind a verb: the bare forms of the first
/// character, the first two, and so on through the window.
pub open spec fn candidates_after(back: Seq<char>) -> Seq<Seq<char>> {
    let n = if back.len() <= MENTION_WINDOW {
        back.len()
    } else {
        MENTION_WINDOW as nat
    };
    Seq::new(n, |i: int| bare(back.subrange(0, i + 1)))
}

/// The resolver can be asked about any text.
pub open spec fn askable<F: Fn(&str) -> Option<Mention>>(resolve: F) -> bool {
    forall|c: &str| #[trigger] call_requires(resolve, (c,))
}

/// Asked about `candidate`, the resolver can answer `answer`.
pub open spec fn answers<F: Fn(&str) -> Option<Mention>>(
    resolve: F,
    candidate: Seq<char>,
    answer: Option<MentionView>,
) -> bool {
    exists|c: &str, m: Option<Mention>| #[trigger]
        call_ensures(resolve, (c,), m) && c@ == candidate && opt_mention(m) == answer
}

/// The first candidate that the resolver knows gives the mention; empty
/// candidates are not asked about.
pub open spec fn first_known<F: Fn(&str) -> Option<Mention>>(
    resolve: F,
    candidates: Seq<Seq<char>>,
    found: Option<MentionView>,
) -> bool
    decreases candidates.len(),
{
    if candidates.len() == 0 {
        found is None
    } else {
        let rest = candidates.subrange(1, candidates.len() as int);
        if candidates[0].len() == 0 {
            first_known(resolve, rest, found)
        } else {
            (found is Some && answers(resolve, candidates[0], found)) || (answers(
                resolve,
                candidates[0],
                None,
            ) && first_known(resolve, rest, found))
        }
    }
}

/// Ask about the candidates from index `i` on.
fn first_mention_from<F: Fn(&str) -> Option<Mention>>(
    list: &Vec<String>,
    i: usize,
    resolve: &F,
) -> (r: Option<Mention>)
    requires
        askable(*resolve),
        i <= list@.len(),
    ensures
        first_known(
            *resolve,
            texts(list@).subrange(i as int, list@.len() as int),
            opt_mention(r),
        ),
    decreases list@.len() - i,
{
    let ghost rest = texts(list@).subrange(i as int, list@.len() as int);
    if i >= list.len() {
        return None;
    }
    assert(rest[0] == list@[i as int]@);
    assert(rest.subrange(1, rest.len() as int) == texts(list@).subrange(
        i + 1,
        list@.len() as int,
    ));
    let candidate: &str = list[i].as_str();
    if candidate.is_empty() {
        return first_mention_from(list, i + 1, resolve);
    }
    let answer: Option<Mention> = resolve(candidate);
    assert(answers(*resolve, candidate@, opt_mention(answer)));
    if answer.is_some() {
        return answer;
    }
    first_mention_from(list, i + 1, resolve)
}

/// The nearest mention before a verb, in the text in front of it.
pub fn find_subject<F: Fn(&str) -> Option<Mention>>(front: &str, resolve: &F) -> (r: Option<Mention>)
    requires
        askable(*resolve),
    ensures
        first_known(*resolve, candidates_before(front@), opt_mention(r)),
{
    let v: Vec<char> = chars_of(front);
    let n: usize = if v.len() <= MENTION_WINDOW {
        v.len()
    } else {
        MENTION_WINDOW
    };
    let mut list: Vec<String> = Vec::new();
    let mut i: usize = 0;
    while i < n
        invariant
            i <= n <= v@.len(),
            v@ == front@,
            n == candidates_before(front@).len(),
            texts(list@) == candidates_before(front@).subrange(0, i as int),
        decreases n - i,
    {
        let ghost before = texts(list@);
        list.push(bare_text(&v, v.len() - 1 - i, v.len()));
        assert(texts(list@) =~= before.push(candidates_before(front@)[i as int]));
        assert(texts(list@) =~= candidates_before(front@).subrange(0, i + 1));
        i = i + 1;
    }
    assert(texts(list@) =~= candidates_before(front@));
    assert(texts(list@).subrange(0, list@.len() as int) == texts(list@));
    first_mention_from(&list, 0, resolve)
}

/// The nearest mention behind a verb, in the text that follows it.
pub fn find_object<F: Fn(&str) -> Option<Mention>>(
    chars: &Vec<char>,
    start: usize,
    resolve: &F,
) -> (r: Option<Mention>)
    requires
        askable(*resolve),
        start <= chars@.len(),
    ensures
        first_known(
            *resolve,
            candidates_after(chars@.subrange(start as int, chars@.len() as int)),
            opt_mention(r),
        ),
{
    let ghost back = chars@.subrange(start as int, chars@.len() as int);
    let n: usize = if chars.len() - start <= MENTION_WINDOW {
        chars.len() - start
    } else {
        MENTION_WINDOW
    };
    let mut list: Vec<String> = Vec::new();
    let mut i: usize = 0;
    while i < n
        invariant
            i <= n,
            start + n <= chars.len(),
            back == chars@.subrange(start as int, chars@.len() as int),
            n == candidates_after(back).len(),
            texts(list@) == candidates_after(back).subrange(0, i as int),
        decreases n - i,
    {
        let ghost before = texts(list@);
        list.push(bare_text(chars, start, start + i + 1));
        assert(chars@.subrange(start as int, start + i + 1) == back.subrange(0, i + 1));
        assert(texts(list@) =~= before.push(candidates_after(back)[i as int]));
        assert(texts(list@) =~= candidates_after(back).subrange(0, i + 1));
        i = i + 1;
    }
    assert(texts(list@) =~= candidates_after(back));
    assert(texts(list@).subrange(0, list@.len() as int) == texts(list@));
    first_mention_from(&list, 0, resolve)
}

/// The characters of `s` in front of byte offset `at`.
pub open spec fn front_of(s: Seq<char>, at: int) -> Seq<char> {
    decode_utf8(encode_utf8(s).subrange(0, at))
}

/// The characters of `s` from byte offset `at` on.
pub open spec fn back_of(s: Seq<char>, at: int) -> Seq<char> {
    decode_utf8(encode_utf8(s).subrange(at, encode_utf8(s).len() as int))
}

/// The observation that a verb match in a sentence gives: the verb, the
/// nearest mention in front of it, or nobody, and the nearest behind it.
pub open spec fn verb_observation<F: Fn(&str) -> Option<Mention>>(
    resolve: F,
    verbs: Seq<Seq<char>>,
    sentence: Seq<char>,
    m: (int, int),
    o: ObservationView,
) -> bool {
    let verb = verbs[m.0];
    let rest = back_of(sentence, m.1);
    exists|s: Option<MentionView>, b: Option<MentionView>|
        #![trigger first_known(
            resolve,
            candidates_before(front_of(sentence, m.1)),
            s,
        ), first_known(
            resolve,
            candidates_after(rest.subrange(verb.len() as int, rest.len() as int)),
            b,
        )]
        {
            &&& first_known(resolve, candidates_before(front_of(sentence, m.1)), s)
            &&& first_known(
                resolve,
                candidates_after(rest.subrange(verb.len() as int, rest.len() as int)),
                b,
            )
            &&& o == ObservationView::plain(
                match s {
                    Some(x) => x,
                    None => MentionView::nobody(),
                },
                verb,
                b,
            )
        }
}

/// The first place at which `part` stands in `whole`.
pub open spec fn stands_first_at(whole: Seq<char>, part: Seq<char>, at: int) -> bool {
    occurs_at(whole, part, at) && forall|j: int| 0 <= j < at ==> !occurs_at(whole, part, j)
}

/// What the words of speech give for a sentence: the first of them that
/// stands in it gives an observation if the speaker is known.
pub open spec fn speech_observations<F: Fn(&str) -> Option<Mention>>(
    resolve: F,
    markers: Seq<Seq<char>>,
    sentence: Seq<char>,
    o: Seq<ObservationView>,
) -> bool
    decreases markers.len(),
{
    if markers.len() == 0 {
        o.len() == 0
    } else if !has_part(sentence, markers[0]) {
        speech_observations(resolve, markers.subrange(1, markers.len() as int), sentence, o)
    } else {
        exists|at: int, s: Option<MentionView>|
            #![trigger stands_first_at(sentence, markers[0], at), first_known(
                resolve,
                candidates_before(sentence.subrange(0, at)),
                s,
            )]
            {
                &&& stands_first_at(sentence, markers[0], at)
                &&& first_known(resolve, candidates_before(sentence.subrange(0, at)), s)
                &&& o == (match s {
                    Some(x) => seq![ObservationView::plain(x, markers[0], None)],
                    None => Seq::empty(),
                })
            }
    }
}

/// What a sentence gives, when the verbs were found in it at `matches`: one
/// observation per match, in order, or without any what the words of speech
/// give. Very short sentences give nothing.
pub open spec fn sentence_observations<F: Fn(&str) -> Option<Mention>>(
    resolve: F,
    verbs: Seq<Seq<char>>,
    markers: Seq<Seq<char>>,
    sentence: Seq<char>,
    matches: Seq<(int, int)>,
    o: Seq<ObservationView>,
) -> bool {
    if byte_len(sentence) < MIN_SENTENCE_BYTES {
        o.len() == 0
    } else if matches.len() > 0 {
        &&& o.len() == matches.len()
        &&& forall|i: int|
            0 <= i < o.len() ==> verb_observation(
                resolve,
                verbs,
                sentence,
                matches[i],
                #[trigger] o[i],
            )
    } else {
        speech_observations(resolve, markers, sentence, o)
    }
}

/// What the sentences give, one after the other. In each of them the verbs are
/// taken where they stand, in the order of the text.
pub open spec fn compiled<F: Fn(&str) -> Option<Mention>>(
    resolve: F,
    verbs: Seq<Seq<char>>,
    markers: Seq<Seq<char>>,
    sentences: Seq<Seq<char>>,
    o: Seq<ObservationView>,
) -> bool
    decreases sentences.len(),
{
    if sentences.len() == 0 {
        o.len() == 0
    } else {
        exists|n: int|
            #![trigger o.subrange(0, n)]
            {
                &&& 0 <= n <= o.len()
                &&& compiled(resolve, verbs, markers, sentences.drop_last(), o.subrange(0, n))
                &&& are_matches(
                    verbs,
                    sentences.last(),
                    word_matches(verbs, sentences.last()),
                )
                &&& sentence_observations(
                    resolve,
                    verbs,
                    markers,
                    sentences.last(),
                    word_matches(verbs, sentences.last()),
                    o.subrange(n, o.len() as int),
                )
            }
    }
}

/// The verbs can be looked for in a sentence: it is too short to be looked at,
/// no verb is empty, or it is ASCII. In another one an empty verb would be found
/// inside the characters.
pub open spec fn searchable(verbs: Seq<Seq<char>>, sentence: Seq<char>) -> bool {
    ||| byte_len(sentence) < MIN_SENTENCE_BYTES
    ||| forall|i: int| 0 <= i < verbs.len() ==> (#[trigger] verbs[i]).len() > 0
    ||| vstd::utf8::is_ascii_chars(sentence)
}

/// The observation of one verb match.
fn observe_match<F: Fn(&str) -> Option<Mention>>(
    sentence: &str,
    verb: &str,
    pattern: usize,
    at: usize,
    resolve: &F,
    verbs: Ghost<Seq<Seq<char>>>,
) -> (o: Observation)
    requires
        askable(*resolve),
        is_match(verbs@, sentence@, (pattern as int, at as int)),
        searchable(verbs@, sentence@),
        byte_len(sentence@) >= MIN_SENTENCE_BYTES,
        verbs@[pattern as int] == verb@,
    ensures
        verb_observation(*resolve, verbs@, sentence@, (pattern as int, at as int), o@),
{
    let ghost bytes = encode_utf8(sentence@);
    proof {
        lemma_match_boundary(verb@, sentence@, at as int);
        vstd::utf8::valid_utf8_split(bytes, at as int);
    }
    let (front, back) = sentence.split_at(at);
    proof {
        vstd::utf8::encode_utf8_decode_utf8(front@);
        vstd::utf8::encode_utf8_decode_utf8(back@);
        assert(front@ == front_of(sentence@, at as int));
        assert(back@ == back_of(sentence@, at as int));
        let tail = bytes.subrange(at as int, bytes.len() as int);
        assert(tail.subrange(0, byte_len(verb@) as int) == bytes.subrange(
            at as int,
            at + byte_len(verb@),
        ));
        lemma_begins_with(tail, verb@);
    }
    let chars: Vec<char> = chars_of(back);
    let skip: usize = verb.unicode_len();
    let subject: Option<Mention> = find_subject(front, resolve);
    let target: Option<Mention> = find_object(&chars, skip, resolve);
    let ghost s = opt_mention(subject);
    let ghost b = opt_mention(target);
    let who: Mention = match subject {
        Some(x) => x,
        None => Mention::nobody(),
    };
    let o: Observation = Observation::plain(who, verb, target);
    proof {
        let rest = back_of(sentence@, at as int);
        assert(first_known(*resolve, candidates_before(front_of(sentence@, at as int)), s));
        assert(first_known(
            *resolve,
            candidates_after(rest.subrange(verb@.len() as int, rest.len() as int)),
            b,
        ));
    }
    o
}

/// What the words of speech give for a sentence.
fn observe_speech<F: Fn(&str) -> Option<Mention>>(
    sentence: &str,
    markers: &Vec<String>,
    i: usize,
    resolve: &F,
) -> (r: Vec<Observation>)
    requires
        askable(*resolve),
        i <= markers@.len(),
    ensures
        speech_observations(
            *resolve,
            texts(markers@).subrange(i as int, markers@.len() as int),
            sentence@,
            observation_views(r@),
        ),
    decreases markers@.len() - i,
{
    let ghost rest = texts(markers@).subrange(i as int, markers@.len() as int);
    let mut r: Vec<Observation> = Vec::new();
    if i >= markers.len() {
        assert(observation_views(r@) =~= Seq::empty());
        return r;
    }
    assert(rest[0] == markers@[i as int]@);
    assert(rest.subrange(1, rest.len() as int) == texts(markers@).subrange(
        i + 1,
        markers@.len() as int,
    ));
    let whole: Vec<char> = chars_of(sentence);
    let part: Vec<char> = chars_of(markers[i].as_str());
    match find_part(&whole, &part) {
        None => observe_speech(sentence, markers, i + 1, resolve),
        Some(at) => {
            let front: String = slice_text(&whole, 0, at);
            assert(occurs_at(sentence@, rest[0], at as int));
            assert(stands_first_at(sentence@, rest[0], at as int));
            let speaker: Option<Mention> = find_subject(front.as_str(), resolve);
            let ghost s = opt_mention(speaker);
            assert(first_known(
                *resolve,
                candidates_before(sentence@.subrange(0, at as int)),
                s,
            ));
            match speaker {
                Some(x) => {
                    r.push(Observation::plain(x, markers[i].as_str(), None));
                    assert(observation_views(r@) =~= seq![
                        ObservationView::plain(x@, rest[0], None),
                    ]);
                },
                None => {
                    assert(observation_views(r@) =~= Seq::empty());
                },
            }
            r
        },
    }
}

/// Observe one sentence in which the verbs were found at `matches`.
pub fn observe_sentence<F: Fn(&str) -> Option<Mention>>(
    sentence: &str,
    verbs: &Vec<String>,
    matches: &Vec<(usize, usize)>,
    markers: &Vec<String>,
    resolve: &F,
) -> (r: Vec<Observation>)
    requires
        askable(*resolve),
        searchable(texts(verbs@), sentence@),
        forall|i: int|
            0 <= i < matches@.len() ==> is_match(
                texts(verbs@),
                sentence@,
                #[trigger] match_views(matches@)[i],
            ),
    ensures
        sentence_observations(
            *resolve,
            texts(verbs@),
            texts(markers@),
            sentence@,
            match_views(matches@),
            observation_views(r@),
        ),
{
    let mut r: Vec<Observation> = Vec::new();
    if len_in_bytes(sentence) < MIN_SENTENCE_BYTES {
        assert(observation_views(r@) =~= Seq::empty());
        return r;
    }
    if matches.len() == 0 {
        assert(texts(markers@).subrange(0, markers@.len() as int) == texts(markers@));
        return observe_speech(sentence, markers, 0, resolve);
    }
    let ghost all = texts(verbs@);
    let mut i: usize = 0;
    while i < matches.len()
        invariant
            i <= matches@.len(),
            askable(*resolve),
            all == texts(verbs@),
            searchable(all, sentence@),
            byte_len(sentence@) >= MIN_SENTENCE_BYTES,
            forall|k: int|
                0 <= k < matches@.len() ==> is_match(
                    all,
                    sentence@,
                    #[trigger] match_views(matches@)[k],
                ),
            r@.len() == i,
            forall|k: int|
                0 <= k < i ==> verb_observation(
                    *resolve,
                    all,
                    sentence@,
                    match_views(matches@)[k],
                    (#[trigger] r@[k])@,
                ),
        decreases matches.len() - i,
    {
        let (pattern, at) = matches[i];
        assert(match_views(matches@)[i as int] == (pattern as int, at as int));
        let o: Observation = observe_match(
            sentence,
            verbs[pattern].as_str(),
            pattern,
            at,
            resolve,
            Ghost(all),
        );
        r.push(o);
        i = i + 1;
    }
    proof {
        let o = observation_views(r@);
        assert forall|k: int| 0 <= k < o.len() implies verb_observation(
            *resolve,
            all,
            sentence@,
            match_views(matches@)[k],
            #[trigger] o[k],
        ) by {
            assert(o[k] == r@[k]@);
        }
    }
    r
}

/// Observe the sentences with an automaton that was built for the verbs.
pub fn observe_all<F: Fn(&str) -> Option<Mention>>(
    sentences: &Vec<&str>,
    verbs: &Vec<String>,
    automaton: &AhoCorasick,
    markers: &Vec<String>,
    resolve: &F,
) -> (r: Vec<Observation>)
    requires
        askable(*resolve),
        automaton_words(*automaton) == texts(verbs@),
        forall|i: int|
            0 <= i < sentences@.len() ==> searchable(texts(verbs@), (#[trigger] sentences@[i])@),
    ensures
        compiled(
            *resolve,
            texts(verbs@),
            texts(markers@),
            words(sentences@),
            observation_views(r@),
        ),
{
    let mut r: Vec<Observation> = Vec::new();
    let ghost all = words(sentences@);
    let mut i: usize = 0;
    assert(observation_views(r@) =~= Seq::empty());
    while i < sentences.len()
        invariant
            i <= sentences@.len(),
            askable(*resolve),
            automaton_words(*automaton) == texts(verbs@),
            all == words(sentences@),
            forall|k: int|
                0 <= k < sentences@.len() ==> searchable(
                    texts(verbs@),
                    (#[trigger] sentences@[k])@,
                ),
            compiled(
                *resolve,
                texts(verbs@),
                texts(markers@),
                all.subrange(0, i as int),
                observation_views(r@),
            ),
        decreases sentences.len() - i,
    {
        let sentence: &str = sentences[i];
        let matches: Vec<(usize, usize)> = find_words(automaton, sentence);
        let mut more: Vec<Observation> = observe_sentence(
            sentence,
            verbs,
            &matches,
            markers,
            resolve,
        );
        let ghost before = observation_views(r@);
        let ghost added = observation_views(more@);
        r.append(&mut more);
        proof {
            let after = observation_views(r@);
            let n = before.len() as int;
            assert(after.subrange(0, n) =~= before);
            assert(after.subrange(n, after.len() as int) =~= added);
            let now = all.subrange(0, i + 1);
            assert(now.drop_last() == all.subrange(0, i as int));
            assert(now.last() == sentence@);
        }
        i = i + 1;
    }
    assert(all.subrange(0, all.len() as int) == all);
    r
}

/// Compile sentences into observations. `markers` are the words of speech and
/// `resolve` tells which entity a stretch of text mentions, if any. Without
/// verbs, or when they cannot be compiled into an automaton, there are no
/// observations.
pub fn compile_observations<F: Fn(&str) -> Option<Mention>>(
    sentences: &Vec<&str>,
    verbs: &Vec<String>,
    markers: &Vec<String>,
    resolve: &F,
) -> (r: Vec<Observation>)
    requires
        askable(*resolve),
        forall|i: int|
            0 <= i < sentences@.len() ==> searchable(texts(verbs@), (#[trigger] sentences@[i])@),
    ensures
        if verbs@.len() == 0 || !automaton_builds(texts(verbs@)) {
            r@.len() == 0
        } else {
            compiled(
                *resolve,
                texts(verbs@),
                texts(markers@),
                words(sentences@),
                observation_views(r@),
            )
        },
{
    if verbs.len() == 0 {
        return Vec::new();
    }
    match build_automaton(verbs) {
        Ok(automaton) => observe_all(sentences, verbs, &automaton, markers, resolve),
        Err(_) => Vec::new(),
    }
}

/// An action that a marker file may use, and the type of the facts that its
/// observations give.
#[derive(Debug, Clone, Copy)]
pub struct ObservationAction {
    /// The name of the action.
    pub name: &'static str,
    /// The type of its facts.
    pub fact_type: FactType,
    /// What the action means, in one line.
    pub doc: &'static str,
}

/// The actions that a marker file may use, with the types of their facts.
pub open spec fn action_types() -> Seq<(Seq<char>, FactType)> {
    seq![
        ("喜欢"@, FactType::Preference),
        ("love"@, FactType::Preference),
        ("like"@, FactType::Preference),
        ("prefer"@, FactType::Preference),
        ("dislike"@, FactType::Preference),
        ("hate"@, FactType::Preference),
        ("准备"@, FactType::Goal),
        ("plan"@, FactType::Goal),
        ("want"@, FactType::Goal),
        ("feel"@, FactType::Emotion),
        ("belief"@, FactType::Event),
        ("stuck"@, FactType::Event),
        ("life_event"@, FactType::Event),
    ]
}

/// The names and types of a list of actions.
pub open spec fn action_rows(v: Seq<ObservationAction>) -> Seq<(Seq<char>, FactType)> {
    Seq::new(v.len(), |i: int| (v[i].name@, v[i].fact_type))
}

/// The actions that a marker file may use.
pub fn observation_actions() -> (v: Vec<ObservationAction>)
    ensures
        action_rows(v@) == action_types(),
{
    let v: Vec<ObservationAction> = vec![
        ObservationAction {
            name: "喜欢",
            fact_type: FactType::Preference,
            doc: "preference (positive)",
        },
        ObservationAction {
            name: "love",
            fact_type: FactType::Preference,
            doc: "preference (strong positive; English alias of 喜欢)",
        },
        ObservationAction {
            name: "like",
            fact_type: FactType::Preference,
            doc: "preference (positive; English alias of 喜欢)",
        },
        ObservationAction {
            name: "prefer",
            fact_type: FactType::Preference,
            doc: "preference (alias of 喜欢)",
        },
        ObservationAction {
            name: "dislike",
            fact_type: FactType::Preference,
            doc: "preference (negative)",
        },
        ObservationAction {
            name: "hate",
            fact_type: FactType::Preference,
            doc: "preference (strong negative; alias of dislike)",
        },
        ObservationAction {
            name: "准备",
            fact_type: FactType::Goal,
            doc: "preparing to do something",
        },
        ObservationAction {
            name: "plan",
            fact_type: FactType::Goal,
            doc: "goal / plan",
        },
        ObservationAction {
            name: "want",
            fact_type: FactType::Goal,
            doc: "wish / desire",
        },
        ObservationAction {
            name: "feel",
            fact_type: FactType::Emotion,
            doc: "emotion / body state",
        },
        ObservationAction {
            name: "belief",
            fact_type: FactType::Event,
            doc: "opinion / belief — stored as an Event fact",
        },
        ObservationAction {
            name: "stuck",
            fact_type: FactType::Event,
            doc: "difficulty / blocked — stored as an Event fact",
        },
        ObservationAction {
            name: "life_event",
            fact_type: FactType::Event,
            doc: "major life event (moved / quit / breakup / married)",
        },
    ];
    assert(action_rows(v@) =~= action_types());
    v
}

/// The type of the first row with this name.
pub open spec fn row_type(rows: Seq<(Seq<char>, FactType)>, action: Seq<char>) -> Option<FactType>
    decreases rows.len(),
{
    if rows.len() == 0 {
        None
    } else if rows[0].0 == action {
        Some(rows[0].1)
    } else {
        row_type(rows.subrange(1, rows.len() as int), action)
    }
}

/// The type of the facts that an action gives; none for a name that is not an
/// action.
pub fn action_fact_type(action: &str) -> (r: Option<FactType>)
    ensures
        r == row_type(action_types(), action@),
{
    let v: Vec<ObservationAction> = observation_actions();
    let ghost rows = action_types();
    let mut i: usize = 0;
    assert(rows.subrange(0, rows.len() as int) == rows);
    while i < v.len()
        invariant
            i <= v@.len() == rows.len(),
            rows == action_types(),
            rows == action_rows(v@),
            row_type(rows, action@) == row_type(
                rows.subrange(i as int, rows.len() as int),
                action@,
            ),
        decreases v.len() - i,
    {
        let ghost rest = rows.subrange(i as int, rows.len() as int);
        assert(rest[0] == (v@[i as int].name@, v@[i as int].fact_type));
        if same_text(v[i].name, action) {
            return Some(v[i].fact_type);
        }
        assert(rest.subrange(1, rest.len() as int) == rows.subrange(i + 1, rows.len() as int));
        i = i + 1;
    }
    None
}

/// What a lexeme does beyond its meaning.
#[derive(Debug)]
pub struct LexemeEffect {
    pub effect_type: String,
    pub value: String,
}

/// A dictionary entry for a verb.
#[derive(Debug)]
pub struct Lexeme {
    pub lemma: String,
    pub semantic_class: String,
    pub effects: Vec<LexemeEffect>,
}

/// The type named by the first effect on facts.
pub open spec fn effect_fact_type(effects: Seq<LexemeEffect>) -> Option<FactType>
    decreases effects.len(),
{
    if effects.len() == 0 {
        None
    } else if effects[0].effect_type@ == "fact"@ {
        Some(value_fact_type(effects[0].value@))
    } else {
        effect_fact_type(effects.subrange(1, effects.len() as int))
    }
}

/// The type that an effect's value names.
pub open spec fn value_fact_type(value: Seq<char>) -> FactType {
    if value == "preference"@ {
        FactType::Preference
    } else if value == "goal"@ {
        FactType::Goal
    } else if value == "emotion"@ {
        FactType::Emotion
    } else if value == "knowledge"@ {
        FactType::Interest
    } else if value == "identity"@ || value == "occupation"@ {
        FactType::Identity
    } else {
        FactType::Event
    }
}

/// The type that a semantic class stands for.
pub open spec fn class_fact_type(class: Seq<char>) -> FactType {
    if class == "cognition"@ {
        FactType::Interest
    } else if class == "emotion"@ {
        FactType::Emotion
    } else if class == "intention"@ {
        FactType::Goal
    } else if class == "state"@ {
        FactType::Identity
    } else {
        FactType::Event
    }
}

/// The type of a verb that has no dictionary entry and is not an action.
pub open spec fn corpus_fact_type(verb: Seq<char>) -> FactType {
    if seq!["杀"@, "斩"@, "kill"@, "murder"@, "attack"@].contains(verb) {
        FactType::Event
    } else if seq!["喜欢"@, "love"@, "like"@, "prefer"@, "dislike"@, "hate"@].contains(verb) {
        FactType::Preference
    } else if seq!["想"@, "要"@, "打算"@, "准备"@, "want"@, "plan"@, "prepare"@].contains(verb) {
        FactType::Goal
    } else if seq!["觉得"@, "感觉"@, "feel"@, "stress"@, "tired"@].contains(verb) {
        FactType::Emotion
    } else if seq!["在"@, "是"@, "be"@, "work"@, "live"@].contains(verb) {
        FactType::Occupation
    } else if seq!["有"@, "have"@, "own"@, "belong"@].contains(verb) {
        FactType::Identity
    } else {
        FactType::Event
    }
}

/// The type of the facts that a verb gives. Its dictionary entry decides; for
/// a verb without one the actions do, and only then the corpus table.
pub open spec fn verb_type(verb: Seq<char>, lexeme: Option<Lexeme>) -> FactType {
    match lexeme {
        Some(l) => match effect_fact_type(l.effects@) {
            Some(t) => t,
            None => class_fact_type(l.semantic_class@),
        },
        None => match row_type(action_types(), verb) {
            Some(t) => t,
            None => corpus_fact_type(verb),
        },
    }
}

/// Whether one of the list is the text.
fn is_one_of(s: &str, list: &Vec<&str>) -> (r: bool)
    ensures
        r == words(list@).contains(s@),
{
    let ghost all = words(list@);
    let mut i: usize = 0;
    while i < list.len()
        invariant
            i <= list@.len(),
            all == words(list@),
            forall|k: int| 0 <= k < i ==> #[trigger] all[k] != s@,
        decreases list.len() - i,
    {
        assert(all[i as int] == list@[i as int]@);
        if same_text(list[i], s) {
            return true;
        }
        i = i + 1;
    }
    false
}

/// The type that an effect's value names.
fn effect_value_type(value: &str) -> (t: FactType)
    ensures
        t == value_fact_type(value@),
{
    if same_text(value, "preference") {
        FactType::Preference
    } else if same_text(value, "goal") {
        FactType::Goal
    } else if same_text(value, "emotion") {
        FactType::Emotion
    } else if same_text(value, "knowledge") {
        FactType::Interest
    } else if same_text(value, "identity") || same_text(value, "occupation") {
        FactType::Identity
    } else {
        FactType::Event
    }
}

/// The type of a verb that has no dictionary entry and is not an action.
pub fn legacy_verb_fact_type(verb: &str) -> (t: FactType)
    ensures
        t == corpus_fact_type(verb@),
{
    let event: Vec<&str> = vec!["杀", "斩", "kill", "murder", "attack"];
    assert(words(event@) =~= seq!["杀"@, "斩"@, "kill"@, "murder"@, "attack"@]);
    let preference: Vec<&str> = vec!["喜欢", "love", "like", "prefer", "dislike", "hate"];
    assert(words(preference@) =~= seq![
        "喜欢"@,
        "love"@,
        "like"@,
        "prefer"@,
        "dislike"@,
        "hate"@,
    ]);
    let goal: Vec<&str> = vec!["想", "要", "打算", "准备", "want", "plan", "prepare"];
    assert(words(goal@) =~= seq![
        "想"@,
        "要"@,
        "打算"@,
        "准备"@,
        "want"@,
        "plan"@,
        "prepare"@,
    ]);
    let emotion: Vec<&str> = vec!["觉得", "感觉", "feel", "stress", "tired"];
    assert(words(emotion@) =~= seq!["觉得"@, "感觉"@, "feel"@, "stress"@, "tired"@]);
    let occupation: Vec<&str> = vec!["在", "是", "be", "work", "live"];
    assert(words(occupation@) =~= seq!["在"@, "是"@, "be"@, "work"@, "live"@]);
    let identity: Vec<&str> = vec!["有", "have", "own", "belong"];
    assert(words(identity@) =~= seq!["有"@, "have"@, "own"@, "belong"@]);
    if is_one_of(verb, &event) {
        FactType::Event
    } else if is_one_of(verb, &preference) {
        FactType::Preference
    } else if is_one_of(verb, &goal) {
        FactType::Goal
    } else if is_one_of(verb, &emotion) {
        FactType::Emotion
    } else if is_one_of(verb, &occupation) {
        FactType::Occupation
    } else if is_one_of(verb, &identity) {
        FactType::Identity
    } else {
        FactType::Event
    }
}

/// The type of the facts that a verb with this dictionary entry gives.
pub fn verb_to_fact_type(verb: &str, lexeme: Option<&Lexeme>) -> (t: FactType)
    ensures
        t == verb_type(
            verb@,
            match lexeme {
                Some(l) => Some(*l),
                None => None,
            },
        ),
{
    match lexeme {
        Some(l) => {
            let ghost all = l.effects@;
            let mut i: usize = 0;
            assert(all.subrange(0, all.len() as int) == all);
            while i < l.effects.len()
                invariant
                    i <= l.effects@.len(),
                    lexeme == Some(l),
                    all == l.effects@,
                    effect_fact_type(all) == effect_fact_type(
                        all.subrange(i as int, all.len() as int),
                    ),
                decreases l.effects.len() - i,
            {
                let ghost rest = all.subrange(i as int, all.len() as int);
                assert(rest[0] == all[i as int]);
                if same_text(l.effects[i].effect_type.as_str(), "fact") {
                    return effect_value_type(l.effects[i].value.as_str());
                }
                assert(rest.subrange(1, rest.len() as int) == all.subrange(
                    i + 1,
                    all.len() as int,
                ));
                i = i + 1;
            }
            let class: &str = l.semantic_class.as_str();
            if same_text(class, "cognition") {
                FactType::Interest
            } else if same_text(class, "emotion") {
                FactType::Emotion
            } else if same_text(class, "intention") {
                FactType::Goal
            } else if same_text(class, "state") {
                FactType::Identity
            } else {
                FactType::Event
            }
        },
        None => match action_fact_type(verb) {
            Some(t) => t,
            None => legacy_verb_fact_type(verb),
        },
    }
}

/// The rule that turns an observation into a fact about its subject.
#[derive(Debug)]
pub struct DefaultRule;

/// The fact that an observation gives; none when its subject is unknown.
pub open spec fn rule_facts(o: ObservationView, fact_type: FactType) -> Seq<FactView> {
    match o.subject.entity_id {
        Some(id) => if id == 0 {
            Seq::empty()
        } else {
            seq![
                FactView::fresh(
                    id,
                    fact_type,
                    match o.timestamp {
                        Some(t) => t as i64,
                        None => 0,
                    },
                    0,
                    JsonView::Object(
                        seq![
                            ("action"@, JsonView::Text(o.action)),
                            ("subject"@, JsonView::Text(o.subject.canonical_name)),
                            (
                                "object"@,
                                match o.object {
                                    Some(m) => JsonView::Text(m.canonical_name),
                                    None => JsonView::Null,
                                },
                            ),
                        ],
                    ),
                ),
            ]
        },
        None => Seq::empty(),
    }
}

impl DefaultRule {
    /// The facts that an observation gives, when the dictionary has this entry
    /// for its action.
    pub fn apply(&self, observation: &Observation, lexeme: Option<&Lexeme>) -> (facts: Vec<Fact>)
        ensures
            crate::cognition::fact_views(facts@) == rule_facts(
                observation@,
                verb_type(
                    observation@.action,
                    match lexeme {
                        Some(l) => Some(*l),
                        None => None,
                    },
                ),
            ),
    {
        let fact_type: FactType = verb_to_fact_type(observation.action.as_str(), lexeme);
        let mut facts: Vec<Fact> = Vec::new();
        let id: i64 = match observation.subject.entity_id {
            Some(id) => id,
            None => 0,
        };
        if id == 0 {
            assert(crate::cognition::fact_views(facts@) =~= Seq::empty());
            return facts;
        }
        let target: Json = match &observation.object {
            Some(m) => text(m.canonical_name.as_str()),
            None => Json::Null,
        };
        let payload: Json = object(
            vec![
                member("action", text(observation.action.as_str())),
                member("subject", text(observation.subject.canonical_name.as_str())),
                member("object", target),
            ],
        );
        let time: i64 = match observation.timestamp {
            Some(t) => t as i64,
            None => 0,
        };
        let fact: Fact = Fact::fresh(id, fact_type, time, 0, payload);
        facts.push(fact);
        proof {
            let want = rule_facts(observation@, fact_type);
            assert(payload@->Object_0 =~= want[0].payload->Object_0);
            assert(crate::cognition::fact_views(facts@) =~= want);
        }
        facts
    }
}

/// Actions keep their meaning: a verb that is an action and has no dictionary
/// entry gives facts of the action's type, whatever the corpus table says.
pub proof fn law_actions_decide_before_corpus(verb: Seq<char>)
    requires
        row_type(action_types(), verb) is Some,
    ensures
        Some(verb_type(verb, None)) == row_type(action_types(), verb),
{
}

/// A name that is no action has no type, so that a mistyped one can be told.
pub proof fn law_unknown_actions_are_detected(action: Seq<char>)
    ensures
        row_type(action_types(), action) is None <==> forall|i: int|
            0 <= i < action_types().len() ==> (#[trigger] action_types()[i]).0 != action,
{
    lemma_row_type(action_types(), action);
}

/// A table has a type for exactly the names in it.
proof fn lemma_row_type(rows: Seq<(Seq<char>, FactType)>, action: Seq<char>)
    ensures
        row_type(rows, action) is None <==> forall|i: int|
            0 <= i < rows.len() ==> (#[trigger] rows[i]).0 != action,
    decreases rows.len(),
{
    if rows.len() > 0 {
        let rest = rows.subrange(1, rows.len() as int);
        lemma_row_type(rest, action);
        if rows[0].0 != action && row_type(rows, action) is None {
            assert forall|i: int| 0 <= i < rows.len() implies (#[trigger] rows[i]).0 != action by {
                if i > 0 {
                    assert(rest[i - 1] == rows[i]);
                }
            }
        }
        if forall|i: int| 0 <= i < rows.len() ==> (#[trigger] rows[i]).0 != action {
            assert forall|i: int| 0 <= i < rest.len() implies (#[trigger] rest[i]).0 != action by {
                assert(rest[i] == rows[i + 1]);
            }
        }
    }
}

/// The bare form of a text is a stretch of it: what is cut off on either side
/// is white space and punctuation, and neither end of what is left is.
pub proof fn law_bare_cuts_only_edges(s: Seq<char>) -> (cut: (int, int))
    ensures
        0 <= cut.0 <= cut.1 <= s.len(),
        bare(s) == s.subrange(cut.0, cut.1),
        forall|i: int| 0 <= i < cut.0 ==> is_space(#[trigger] s[i]) || is_punctuation(s[i]),
        forall|i: int|
            cut.1 <= i < s.len() ==> is_space(#[trigger] s[i]) || is_punctuation(s[i]),
        bare(s).len() > 0 ==> !is_space(bare(s)[0]) && !is_punctuation(bare(s)[0]) && !is_space(
            bare(s).last(),
        ) && !is_punctuation(bare(s).last()),
{
    let from = lemma_bare_start(s);
    let rest = s.subrange(from, s.len() as int);
    let n = lemma_bare_end(rest);
    assert(rest.subrange(0, n) =~= s.subrange(from, from + n));
    assert forall|i: int| from + n <= i < s.len() implies is_space(#[trigger] s[i])
        || is_punctuation(s[i]) by {
        assert(rest[i - from] == s[i]);
    }
    (from, from + n)
}

/// Where the text begins without its leading edge characters.
proof fn lemma_bare_start(s: Seq<char>) -> (from: int)
    ensures
        0 <= from <= s.len(),
        bare_start(s) == s.subrange(from, s.len() as int),
        forall|i: int| 0 <= i < from ==> is_edge(#[trigger] s[i]),
        from < s.len() ==> !is_edge(s[from]),
    decreases s.len(),
{
    if s.len() > 0 && is_edge(s[0]) {
        let rest = s.subrange(1, s.len() as int);
        let n = lemma_bare_start(rest);
        assert(rest.subrange(n, rest.len() as int) =~= s.subrange(n + 1, s.len() as int));
        assert forall|i: int| 0 <= i < n + 1 implies is_edge(#[trigger] s[i]) by {
            if i > 0 {
                assert(rest[i - 1] == s[i]);
            }
        }
        n + 1
    } else {
        assert(s.subrange(0, s.len() as int) =~= s);
        0
    }
}

/// Where the text ends without its trailing edge characters.
proof fn lemma_bare_end(s: Seq<char>) -> (to: int)
    ensures
        0 <= to <= s.len(),
        bare_end(s) == s.subrange(0, to),
        forall|i: int| to <= i < s.len() ==> is_edge(#[trigger] s[i]),
        to > 0 ==> !is_edge(s[to - 1]),
        s.len() > 0 && !is_edge(s[0]) ==> to > 0,
    decreases s.len(),
{
    if s.len() > 0 && is_edge(s[s.len() - 1]) {
        let rest = s.subrange(0, s.len() - 1);
        let n = lemma_bare_end(rest);
        assert(rest.subrange(0, n) =~= s.subrange(0, n));
        assert forall|i: int| n <= i < s.len() implies is_edge(#[trigger] s[i]) by {
            if i < rest.len() {
                assert(rest[i] == s[i]);
            }
        }
        n
    } else {
        assert(s.subrange(0, s.len() as int) =~= s);
        s.len() as int
    }
}

/// The resolver knows the text: whenever it is asked about it, it names
/// somebody.
pub open spec fn knows<F: Fn(&str) -> Option<Mention>>(resolve: F, name: Seq<char>) -> bool {
    forall|t: &str, m: Option<Mention>|
        t@ == name && #[trigger] call_ensures(resolve, (t,), m) ==> m is Some
}

/// The resolver does not know the text: whenever it is asked about it, it names
/// nobody.
pub open spec fn knows_nothing_of<F: Fn(&str) -> Option<Mention>>(
    resolve: F,
    name: Seq<char>,
) -> bool {
    forall|t: &str, m: Option<Mention>|
        t@ == name && #[trigger] call_ensures(resolve, (t,), m) ==> m is None
}

/// The mention is what the resolver says when asked about the text.
pub open spec fn is_named_by<F: Fn(&str) -> Option<Mention>>(
    mention: MentionView,
    resolve: F,
    name: Seq<char>,
) -> bool {
    exists|t: &str, m: Mention| #[trigger]
        call_ensures(resolve, (t,), Some(m)) && t@ == name && m@ == mention
}

/// A known candidate behind unknown ones is found; without any known one none
/// is.
proof fn lemma_first_known<F: Fn(&str) -> Option<Mention>>(
    resolve: F,
    candidates: Seq<Seq<char>>,
    found: Option<MentionView>,
    n: int,
)
    requires
        first_known(resolve, candidates, found),
        0 <= n <= candidates.len(),
        forall|k: int|
            0 <= k < n ==> (#[trigger] candidates[k]).len() == 0 || knows_nothing_of(
                resolve,
                candidates[k],
            ),
        n < candidates.len() ==> candidates[n].len() > 0 && knows(resolve, candidates[n]),
    ensures
        n == candidates.len() ==> found is None,
        n < candidates.len() ==> found is Some && is_named_by(found->0, resolve, candidates[n]),
    decreases candidates.len(),
{
    if candidates.len() > 0 {
        let rest = candidates.subrange(1, candidates.len() as int);
        let first = candidates[0];
        if n > 0 {
            if found is Some && answers(resolve, first, found) {
                let (c, m) = choose|c: &str, m: Option<Mention>| #[trigger]
                    call_ensures(resolve, (c,), m) && c@ == first && opt_mention(m) == found;
                assert(m is Some);
                if first.len() > 0 {
                    assert(false);
                }
            }
            assert(first_known(resolve, rest, found));
            assert forall|k: int| 0 <= k < n - 1 implies (#[trigger] rest[k]).len() == 0
                || knows_nothing_of(resolve, rest[k]) by {
                assert(rest[k] == candidates[k + 1]);
            }
            lemma_first_known(resolve, rest, found, n - 1);
        } else {
            if answers(resolve, first, None) {
                let (c, m) = choose|c: &str, m: Option<Mention>| #[trigger]
                    call_ensures(resolve, (c,), m) && c@ == first && opt_mention(m) == None::<
                        MentionView,
                    >;
                assert(m is None);
                assert(false);
            }
            let (c, m) = choose|c: &str, m: Option<Mention>| #[trigger]
                call_ensures(resolve, (c,), m) && c@ == first && opt_mention(m) == found;
            assert(m == Some(m->0));
            assert(call_ensures(resolve, (c,), Some(m->0)));
            assert(is_named_by(found->0, resolve, first));
        }
    }
}

/// The bytes of two texts in a row.
pub proof fn lemma_encode_concat(a: Seq<char>, b: Seq<char>)
    ensures
        encode_utf8(a + b) == encode_utf8(a) + encode_utf8(b),
    decreases a.len(),
{
    if a.len() == 0 {
        assert(a + b =~= b);
        assert(encode_utf8(a) =~= Seq::empty());
        assert(encode_utf8(a) + encode_utf8(b) =~= encode_utf8(b));
    } else {
        assert((a + b).drop_first() =~= a.drop_first() + b);
        lemma_encode_concat(a.drop_first(), b);
        assert((a + b)[0] == a[0]);
        assert(encode_utf8(a + b) =~= encode_utf8(a) + encode_utf8(b));
    }
}

/// A text is split where its first part ends.
proof fn lemma_split_at(a: Seq<char>, b: Seq<char>)
    ensures
        front_of(a + b, byte_len(a) as int) == a,
        back_of(a + b, byte_len(a) as int) == b,
{
    lemma_encode_concat(a, b);
    let all = encode_utf8(a + b);
    assert(all.subrange(0, byte_len(a) as int) =~= encode_utf8(a));
    assert(all.subrange(byte_len(a) as int, all.len() as int) =~= encode_utf8(b));
    vstd::utf8::encode_utf8_decode_utf8(a);
    vstd::utf8::encode_utf8_decode_utf8(b);
}

/// The object of a verb is who is named first behind it: where the text behind
/// the last character of the verb begins with `n` characters, 64 at most, whose
/// bare form the resolver knows, and no shorter beginning has one that it knows,
/// the object is that mention. Where it knows none of them, there is no object.
/// The action is the verb.
pub proof fn law_object_stands_behind_the_verb<F: Fn(&str) -> Option<Mention>>(
    resolve: F,
    verbs: Seq<Seq<char>>,
    k: int,
    a: Seq<char>,
    b: Seq<char>,
    n: int,
    o: ObservationView,
)
    requires
        0 <= k < verbs.len(),
        verb_observation(resolve, verbs, a + verbs[k] + b, (k, byte_len(a) as int), o),
        0 <= n <= b.len(),
        n <= 64,
        forall|i: int|
            0 < i < n ==> #[trigger] bare(b.subrange(0, i)).len() == 0 || knows_nothing_of(
                resolve,
                bare(b.subrange(0, i)),
            ),
    ensures
        o.action == verbs[k],
        n > 0 && bare(b.subrange(0, n)).len() > 0 && knows(resolve, bare(b.subrange(0, n)))
            ==> o.object is Some && is_named_by(o.object->0, resolve, bare(b.subrange(0, n))),
        (n == b.len() || n == 64) && (n == 0 || bare(b.subrange(0, n)).len() == 0
            || knows_nothing_of(resolve, bare(b.subrange(0, n)))) ==> o.object is None,
{
    let verb = verbs[k];
    let sentence = a + verb + b;
    assert(sentence =~= a + (verb + b));
    lemma_split_at(a, verb + b);
    let rest = back_of(sentence, byte_len(a) as int);
    assert(rest.subrange(verb.len() as int, rest.len() as int) =~= b);
    let list = candidates_after(b);
    let (s, found) = choose|s: Option<MentionView>, found: Option<MentionView>|
        #![trigger first_known(
            resolve,
            candidates_before(front_of(sentence, byte_len(a) as int)),
            s,
        ), first_known(resolve, list, found)]
        {
            &&& first_known(resolve, candidates_before(front_of(sentence, byte_len(a) as int)), s)
            &&& first_known(resolve, list, found)
            &&& o == ObservationView::plain(
                match s {
                    Some(x) => x,
                    None => MentionView::nobody(),
                },
                verb,
                found,
            )
        };
    assert forall|i: int| 0 <= i < n - 1 implies (#[trigger] list[i]).len() == 0
        || knows_nothing_of(resolve, list[i]) by {
        assert(list[i] == bare(b.subrange(0, i + 1)));
        assert(bare(b.subrange(0, i + 1)).len() == 0 || knows_nothing_of(
            resolve,
            bare(b.subrange(0, i + 1)),
        ));
    }
    if n > 0 {
        assert(list[n - 1] == bare(b.subrange(0, n)));
        if bare(b.subrange(0, n)).len() > 0 && knows(resolve, bare(b.subrange(0, n))) {
            lemma_first_known(resolve, list, found, n - 1);
        }
    }
    if (n == b.len() || n == 64) && (n == 0 || bare(b.subrange(0, n)).len() == 0
        || knows_nothing_of(resolve, bare(b.subrange(0, n)))) {
        assert(list.len() == n);
        lemma_first_known(resolve, list, found, n);
    }
}

/// The subject of a verb is who is named last in front of it: where the text in
/// front of the verb ends with `n` characters, 64 at most, whose bare form the
/// resolver knows, and no shorter end has one that it knows, the subject is that
/// mention. Where it knows none of them, the subject is nobody.
pub proof fn law_subject_stands_before_the_verb<F: Fn(&str) -> Option<Mention>>(
    resolve: F,
    verbs: Seq<Seq<char>>,
    k: int,
    a: Seq<char>,
    b: Seq<char>,
    n: int,
    o: ObservationView,
)
    requires
        0 <= k < verbs.len(),
        verb_observation(resolve, verbs, a + verbs[k] + b, (k, byte_len(a) as int), o),
        0 <= n <= a.len(),
        n <= 64,
        forall|i: int|
            a.len() - n < i < a.len() ==> #[trigger] bare(a.subrange(i, a.len() as int)).len() == 0
                || knows_nothing_of(resolve, bare(a.subrange(i, a.len() as int))),
    ensures
        n > 0 && bare(a.subrange(a.len() - n, a.len() as int)).len() > 0 && knows(
            resolve,
            bare(a.subrange(a.len() - n, a.len() as int)),
        ) ==> is_named_by(o.subject, resolve, bare(a.subrange(a.len() - n, a.len() as int))),
        (n == a.len() || n == 64) && (n == 0 || bare(a.subrange(a.len() - n, a.len() as int)).len()
            == 0 || knows_nothing_of(resolve, bare(a.subrange(a.len() - n, a.len() as int))))
            ==> o.subject.entity_id is None && o.subject.surface.len() == 0
            && o.subject.canonical_name.len() == 0,
{
    let verb = verbs[k];
    let sentence = a + verb + b;
    assert(sentence =~= a + (verb + b));
    lemma_split_at(a, verb + b);
    let rest = back_of(sentence, byte_len(a) as int);
    let (s, found) = choose|s: Option<MentionView>, found: Option<MentionView>|
        #![trigger first_known(
            resolve,
            candidates_before(front_of(sentence, byte_len(a) as int)),
            s,
        ), first_known(
            resolve,
            candidates_after(rest.subrange(verb.len() as int, rest.len() as int)),
            found,
        )]
        {
            &&& first_known(resolve, candidates_before(front_of(sentence, byte_len(a) as int)), s)
            &&& first_known(
                resolve,
                candidates_after(rest.subrange(verb.len() as int, rest.len() as int)),
                found,
            )
            &&& o == ObservationView::plain(
                match s {
                    Some(x) => x,
                    None => MentionView::nobody(),
                },
                verb,
                found,
            )
        };
    lemma_nearest_before(resolve, a, n, s);
}

/// Who is named last in a text.
proof fn lemma_nearest_before<F: Fn(&str) -> Option<Mention>>(
    resolve: F,
    a: Seq<char>,
    n: int,
    s: Option<MentionView>,
)
    requires
        first_known(resolve, candidates_before(a), s),
        0 <= n <= a.len(),
        n <= 64,
        forall|i: int|
            a.len() - n < i < a.len() ==> #[trigger] bare(a.subrange(i, a.len() as int)).len() == 0
                || knows_nothing_of(resolve, bare(a.subrange(i, a.len() as int))),
    ensures
        n > 0 && bare(a.subrange(a.len() - n, a.len() as int)).len() > 0 && knows(
            resolve,
            bare(a.subrange(a.len() - n, a.len() as int)),
        ) ==> s is Some && is_named_by(
            s->0,
            resolve,
            bare(a.subrange(a.len() - n, a.len() as int)),
        ),
        (n == a.len() || n == 64) && (n == 0 || bare(a.subrange(a.len() - n, a.len() as int)).len()
            == 0 || knows_nothing_of(resolve, bare(a.subrange(a.len() - n, a.len() as int))))
            ==> s is None,
{
    let list = candidates_before(a);
    assert forall|i: int| 0 <= i < n - 1 implies (#[trigger] list[i]).len() == 0
        || knows_nothing_of(resolve, list[i]) by {
        let from = a.len() - 1 - i;
        assert(list[i] == bare(a.subrange(from, a.len() as int)));
        assert(bare(a.subrange(from, a.len() as int)).len() == 0 || knows_nothing_of(
            resolve,
            bare(a.subrange(from, a.len() as int)),
        ));
    }
    let whole = bare(a.subrange(a.len() - n, a.len() as int));
    if n > 0 {
        assert(list[n - 1] == whole);
        if whole.len() > 0 && knows(resolve, whole) {
            lemma_first_known(resolve, list, s, n - 1);
        }
    }
    if (n == a.len() || n == 64) && (n == 0 || whole.len() == 0 || knows_nothing_of(
        resolve,
        whole,
    )) {
        assert(list.len() == n);
        lemma_first_known(resolve, list, s, n);
    }
}

/// Who did what to whom: a sentence made of a name, a verb and a name, in which
/// the verb is found once, is compiled into one observation of the first, the
/// verb and the second. The names are 64 characters long at most and stand bare,
/// and nobody goes by a shorter end of the first or a shorter beginning of the
/// second.
pub proof fn law_who_did_what_to_whom<F: Fn(&str) -> Option<Mention>>(
    resolve: F,
    verbs: Seq<Seq<char>>,
    markers: Seq<Seq<char>>,
    k: int,
    a: Seq<char>,
    b: Seq<char>,
    o: Seq<ObservationView>,
)
    requires
        0 <= k < verbs.len(),
        compiled(resolve, verbs, markers, seq![a + verbs[k] + b], o),
        word_matches(verbs, a + verbs[k] + b) == seq![(k, byte_len(a) as int)],
        byte_len(a + verbs[k] + b) >= 3,
        0 < a.len() <= 64,
        0 < b.len() <= 64,
        bare(a) == a,
        bare(b) == b,
        knows(resolve, a),
        knows(resolve, b),
        forall|i: int|
            0 < i < a.len() ==> #[trigger] bare(a.subrange(i, a.len() as int)).len() == 0
                || knows_nothing_of(resolve, bare(a.subrange(i, a.len() as int))),
        forall|i: int|
            0 < i < b.len() ==> #[trigger] bare(b.subrange(0, i)).len() == 0 || knows_nothing_of(
                resolve,
                bare(b.subrange(0, i)),
            ),
    ensures
        o.len() == 1,
        o[0].action == verbs[k],
        is_named_by(o[0].subject, resolve, a),
        o[0].object is Some,
        is_named_by(o[0].object->0, resolve, b),
{
    let sentence = a + verbs[k] + b;
    let one = seq![sentence];
    let n = choose|n: int|
        #![trigger o.subrange(0, n)]
        {
            &&& 0 <= n <= o.len()
            &&& compiled(resolve, verbs, markers, one.drop_last(), o.subrange(0, n))
            &&& are_matches(verbs, one.last(), word_matches(verbs, one.last()))
            &&& sentence_observations(
                resolve,
                verbs,
                markers,
                one.last(),
                word_matches(verbs, one.last()),
                o.subrange(n, o.len() as int),
            )
        };
    assert(one.drop_last().len() == 0);
    assert(o.subrange(0, n).len() == 0);
    let rest = o.subrange(n, o.len() as int);
    assert(rest =~= o);
    assert(verb_observation(resolve, verbs, sentence, (k, byte_len(a) as int), rest[0]));
    assert(a.subrange(0, a.len() as int) =~= a);
    assert(b.subrange(0, b.len() as int) =~= b);
    law_object_stands_behind_the_verb(resolve, verbs, k, a, b, b.len() as int, o[0]);
    law_subject_stands_before_the_verb(resolve, verbs, k, a, b, a.len() as int, o[0]);
}

/// Sentences are compiled one by one, in order: one more adds its own
/// observations behind those of the others.
pub proof fn law_sentences_are_compiled_in_order<F: Fn(&str) -> Option<Mention>>(
    resolve: F,
    verbs: Seq<Seq<char>>,
    markers: Seq<Seq<char>>,
    sentences: Seq<Seq<char>>,
    sentence: Seq<char>,
    o: Seq<ObservationView>,
) -> (parts: (Seq<ObservationView>, Seq<ObservationView>))
    requires
        compiled(resolve, verbs, markers, sentences.push(sentence), o),
    ensures
        compiled(resolve, verbs, markers, sentences, parts.0),
        compiled(resolve, verbs, markers, seq![sentence], parts.1),
        o == parts.0 + parts.1,
{
    let all = sentences.push(sentence);
    let n = choose|n: int|
        #![trigger o.subrange(0, n)]
        {
            &&& 0 <= n <= o.len()
            &&& compiled(resolve, verbs, markers, all.drop_last(), o.subrange(0, n))
            &&& are_matches(verbs, all.last(), word_matches(verbs, all.last()))
            &&& sentence_observations(
                resolve,
                verbs,
                markers,
                all.last(),
                word_matches(verbs, all.last()),
                o.subrange(n, o.len() as int),
            )
        };
    assert(all.drop_last() =~= sentences);
    let x = o.subrange(0, n);
    let y = o.subrange(n, o.len() as int);
    let one = seq![sentence];
    assert(one.drop_last() =~= Seq::empty());
    assert(y.subrange(0, 0).len() == 0);
    assert(compiled(resolve, verbs, markers, one.drop_last(), y.subrange(0, 0)));
    assert(y.subrange(0, y.len() as int) =~= y);
    assert(compiled(resolve, verbs, markers, one, y));
    assert(o =~= x + y);
    (x, y)
}

/// Every verb that is found in a sentence gives an observation of its own, in
/// the order of the text, and its action is the verb that stands there. A
/// sentence of fewer than three bytes gives none.
pub proof fn law_every_verb_is_observed<F: Fn(&str) -> Option<Mention>>(
    resolve: F,
    verbs: Seq<Seq<char>>,
    markers: Seq<Seq<char>>,
    sentence: Seq<char>,
    matches: Seq<(int, int)>,
    o: Seq<ObservationView>,
)
    requires
        sentence_observations(resolve, verbs, markers, sentence, matches, o),
    ensures
        byte_len(sentence) < 3 ==> o.len() == 0,
        byte_len(sentence) >= 3 && matches.len() > 0 ==> o.len() == matches.len() && forall|i: int|
            0 <= i < o.len() ==> (#[trigger] o[i]).action == verbs[matches[i].0],
{
    if byte_len(sentence) >= 3 && matches.len() > 0 {
        assert forall|i: int| 0 <= i < o.len() implies (#[trigger] o[i]).action
            == verbs[matches[i].0] by {
            assert(verb_observation(resolve, verbs, sentence, matches[i], o[i]));
        }
    }
}

/// Who speaks: a sentence without verbs, in which the word of speech at `j` is
/// the first of the list to stand and stands behind `front` for the first time,
/// gives one observation of who is named last in front of it, without an object;
/// where the resolver knows nobody there, it gives none.
pub proof fn law_speech_names_the_speaker<F: Fn(&str) -> Option<Mention>>(
    resolve: F,
    verbs: Seq<Seq<char>>,
    markers: Seq<Seq<char>>,
    sentence: Seq<char>,
    j: int,
    front: Seq<char>,
    n: int,
    o: Seq<ObservationView>,
)
    requires
        sentence_observations(resolve, verbs, markers, sentence, Seq::empty(), o),
        byte_len(sentence) >= 3,
        0 <= j < markers.len(),
        forall|i: int, at: int|
            0 <= i < j ==> !#[trigger] occurs_at(sentence, markers[i], at),
        occurs_at(sentence, markers[j], front.len() as int),
        forall|at: int| 0 <= at < front.len() ==> !#[trigger] occurs_at(sentence, markers[j], at),
        front == sentence.subrange(0, front.len() as int),
        0 <= n <= front.len(),
        n <= 64,
        forall|i: int|
            front.len() - n < i < front.len() ==> #[trigger] bare(
                front.subrange(i, front.len() as int),
            ).len() == 0 || knows_nothing_of(resolve, bare(front.subrange(i, front.len() as int))),
    ensures
        n > 0 && bare(front.subrange(front.len() - n, front.len() as int)).len() > 0 && knows(
            resolve,
            bare(front.subrange(front.len() - n, front.len() as int)),
        ) ==> o.len() == 1 && o[0].action == markers[j] && o[0].object is None && is_named_by(
            o[0].subject,
            resolve,
            bare(front.subrange(front.len() - n, front.len() as int)),
        ),
        (n == front.len() || n == 64) && (n == 0 || bare(
            front.subrange(front.len() - n, front.len() as int),
        ).len() == 0 || knows_nothing_of(
            resolve,
            bare(front.subrange(front.len() - n, front.len() as int)),
        )) ==> o.len() == 0,
{
    lemma_speech_skips(resolve, markers, sentence, j, o);
    let left = markers.subrange(j, markers.len() as int);
    assert(left[0] == markers[j]);
    assert(has_part(sentence, left[0]));
    let (at, s) = choose|at: int, s: Option<MentionView>|
        #![trigger stands_first_at(sentence, left[0], at), first_known(
            resolve,
            candidates_before(sentence.subrange(0, at)),
            s,
        )]
        {
            &&& stands_first_at(sentence, left[0], at)
            &&& first_known(resolve, candidates_before(sentence.subrange(0, at)), s)
            &&& o == (match s {
                Some(x) => seq![ObservationView::plain(x, left[0], None)],
                None => Seq::empty(),
            })
        };
    assert(occurs_at(sentence, markers[j], at));
    if at < front.len() {
        assert(!occurs_at(sentence, markers[j], at));
    } else if at > front.len() {
        assert(!occurs_at(sentence, left[0], front.len() as int));
    }
    assert(at == front.len());
    lemma_nearest_before(resolve, front, n, s);
}

/// Words of speech that do not stand in the sentence are passed over.
proof fn lemma_speech_skips<F: Fn(&str) -> Option<Mention>>(
    resolve: F,
    markers: Seq<Seq<char>>,
    sentence: Seq<char>,
    j: int,
    o: Seq<ObservationView>,
)
    requires
        speech_observations(resolve, markers, sentence, o),
        0 <= j < markers.len(),
        forall|i: int, at: int|
            0 <= i < j ==> !#[trigger] occurs_at(sentence, markers[i], at),
    ensures
        speech_observations(resolve, markers.subrange(j, markers.len() as int), sentence, o),
    decreases j,
{
    if j == 0 {
        assert(markers.subrange(0, markers.len() as int) =~= markers);
    } else {
        let rest = markers.subrange(1, markers.len() as int);
        assert(!has_part(sentence, markers[0]));
        assert forall|i: int, at: int| 0 <= i < j - 1 implies !#[trigger] occurs_at(
            sentence,
            rest[i],
            at,
        ) by {
            assert(rest[i] == markers[i + 1]);
            assert(!occurs_at(sentence, markers[i + 1], at));
        }
        lemma_speech_skips(resolve, rest, sentence, j - 1, o);
        assert(rest.subrange(j - 1, rest.len() as int) =~= markers.subrange(
            j,
            markers.len() as int,
        ));
    }
}

/// An observation of somebody known becomes one fact about them, of the type
/// that the action stands for, that says what was done, by whom and to whom; an
/// observation of nobody known becomes none.
pub proof fn law_fact_tells_the_observation(o: ObservationView, fact_type: FactType)
    ensures
        match o.subject.entity_id {
            Some(id) if id != 0 => {
                let facts = rule_facts(o, fact_type);
                &&& facts.len() == 1
                &&& facts[0].entity_id == id
                &&& facts[0].fact_type == fact_type
                &&& facts[0].time == (match o.timestamp {
                    Some(t) => t as i64,
                    None => 0,
                })
                &&& facts[0].payload.get("action"@) == Some(JsonView::Text(o.action))
                &&& facts[0].payload.get("subject"@) == Some(
                    JsonView::Text(o.subject.canonical_name),
                )
                &&& facts[0].payload.get("object"@) == Some(
                    match o.object {
                        Some(m) => JsonView::Text(m.canonical_name),
                        None => JsonView::Null,
                    },
                )
            },
            _ => rule_facts(o, fact_type).len() == 0,
        },
{
    reveal_strlit("action");
    reveal_strlit("subject");
    reveal_strlit("object");
    assert("action"@[0] != "subject"@[0]);
    assert("action"@[0] != "object"@[0]);
    assert("subject"@[0] != "object"@[0]);
    reveal_with_fuel(crate::json::lookup, 4);
    if o.subject.entity_id is Some && o.subject.entity_id->0 != 0 {
        let m = rule_facts(o, fact_type)[0].payload->Object_0;
        let rest = m.subrange(1, m.len() as int);
        let last = rest.subrange(1, rest.len() as int);
        assert(rest[0] == m[1]);
        assert(last[0] == m[2]);
    }
}

/// The dictionary decides about a verb that it has: the first of its effects on
/// facts says the type, whatever the class and the other effects are, and
/// without one the class does.
pub proof fn law_dictionary_decides(verb: Seq<char>, l: Lexeme, i: int)
    requires
        0 <= i <= l.effects@.len(),
        forall|k: int| 0 <= k < i ==> (#[trigger] l.effects@[k]).effect_type@ != "fact"@,
        i < l.effects@.len() ==> l.effects@[i].effect_type@ == "fact"@,
    ensures
        i < l.effects@.len() ==> verb_type(verb, Some(l)) == value_fact_type(l.effects@[i].value@),
        i == l.effects@.len() ==> verb_type(verb, Some(l)) == class_fact_type(l.semantic_class@),
{
    lemma_effects(l.effects@, i);
}

/// The first effect on facts decides.
proof fn lemma_effects(v: Seq<LexemeEffect>, i: int)
    requires
        0 <= i <= v.len(),
        forall|k: int| 0 <= k < i ==> (#[trigger] v[k]).effect_type@ != "fact"@,
        i < v.len() ==> v[i].effect_type@ == "fact"@,
    ensures
        effect_fact_type(v) == (if i < v.len() {
            Some(value_fact_type(v[i].value@))
        } else {
            None
        }),
    decreases i,
{
    if i > 0 {
        let rest = v.subrange(1, v.len() as int);
        assert forall|k: int| 0 <= k < i - 1 implies (#[trigger] rest[k]).effect_type@
            != "fact"@ by {
            assert(rest[k] == v[k + 1]);
        }
        lemma_effects(rest, i - 1);
    }
}

/// Without a dictionary entry a verb of liking tells a preference, one of wanting
/// a goal, one of feeling an emotion, one of being somewhere or something an
/// occupation and one of having an identity; every other verb tells an event.
pub proof fn law_undescribed_verbs_tell_by_their_meaning(verb: Seq<char>)
    ensures
        ({
            let t = corpus_fact_type(verb);
            let violent = seq!["杀"@, "斩"@, "kill"@, "murder"@, "attack"@].contains(verb);
            let liking = seq!["喜欢"@, "love"@, "like"@, "prefer"@, "dislike"@, "hate"@].contains(
                verb,
            );
            let wanting = seq![
                "想"@,
                "要"@,
                "打算"@,
                "准备"@,
                "want"@,
                "plan"@,
                "prepare"@,
            ].contains(verb);
            let feeling = seq!["觉得"@, "感觉"@, "feel"@, "stress"@, "tired"@].contains(verb);
            let being = seq!["在"@, "是"@, "be"@, "work"@, "live"@].contains(verb);
            let having = seq!["有"@, "have"@, "own"@, "belong"@].contains(verb);
            &&& t is Preference ==> liking
            &&& t is Goal ==> wanting
            &&& t is Emotion ==> feeling
            &&& t is Occupation ==> being
            &&& t is Identity ==> having
            &&& t is Event ==> violent || !(liking || wanting || feeling || being || having)
            &&& violent || !(liking || wanting || feeling || being || having) ==> t is Event
            &&& t !is Relationship
            &&& t !is Interest
        }),
{
}

} // verus!
