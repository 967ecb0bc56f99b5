//! Searching a text for many words at once, with the `aho-corasick` crate.
use vstd::prelude::*;
use vstd::utf8::{
    decode_utf8, encode_utf8, is_char_boundary, is_continuation_byte, pop_first_scalar, valid_utf8,
};

use aho_corasick::{AhoCorasick, BuildError};

use crate::text::{byte_len, has_part, texts};

verus! {

/// A compiled set of words.
#[verifier::external_type_specification]
#[verifier::external_body]
pub struct ExAhoCorasick(aho_corasick::AhoCorasick);

/// Why a set of words could not be compiled.
#[verifier::external_type_specification]
#[verifier::external_body]
pub struct ExBuildError(aho_corasick::BuildError);

/// The words that an automaton was built from, in order.
pub uninterp spec fn automaton_words(a: AhoCorasick) -> Seq<Seq<char>>;

/// Whether `AhoCorasick::new` accepts the words: an automaton for them stays
/// within its limits on the number and the length of the words and on the
/// number of its states.
pub uninterp spec fn automaton_builds(list: Seq<Seq<char>>) -> bool;

/// What `AhoCorasick::find_iter` finds in a text: for each match the index of
/// the word and the byte offset at which it begins.
pub uninterp spec fn word_matches(list: Seq<Seq<char>>, text: Seq<char>) -> Seq<(int, int)>;

/// The view of a list of matches.
pub open spec fn match_views(v: Seq<(usize, usize)>) -> Seq<(int, int)> {
    Seq::new(v.len(), |i: int| (v[i].0 as int, v[i].1 as int))
}

/// The match is one: at its offset stand the bytes of its word.
pub open spec fn is_match(list: Seq<Seq<char>>, text: Seq<char>, m: (int, int)) -> bool {
    &&& 0 <= m.0 < list.len()
    &&& 0 <= m.1
    &&& m.1 + byte_len(list[m.0]) <= byte_len(text)
    &&& encode_utf8(text).subrange(m.1, m.1 + byte_len(list[m.0])) == encode_utf8(list[m.0])
}

/// The matches stand in the text, one behind the other: none begins before the
/// one in front of it ends, and none is there twice. Without any, none of the
/// words stands in the text.
pub open spec fn are_matches(
    list: Seq<Seq<char>>,
    text: Seq<char>,
    matches: Seq<(int, int)>,
) -> bool {
    &&& forall|i: int| 0 <= i < matches.len() ==> is_match(list, text, #[trigger] matches[i])
    &&& forall|a: int, b: int|
        0 <= a < b < matches.len() ==> (#[trigger] matches[a]).1 + byte_len(list[matches[a].0])
            <= (#[trigger] matches[b]).1 && matches[a] != matches[b]
    &&& matches.len() == 0 ==> forall|k: int|
        0 <= k < list.len() ==> !has_part(text, #[trigger] list[k])
}

/// `AhoCorasick::new`: builds an automaton for the given words, in their
/// order. Whether it succeeds depends on the words alone; at which size of the
/// set it begins to fail is not stated.
#[verifier::external_body]
pub(crate) fn build_automaton(list: &Vec<String>) -> (r: Result<AhoCorasick, BuildError>)
    ensures
        r is Ok <==> automaton_builds(texts(list@)),
        r matches Ok(a) ==> automaton_words(a) == texts(list@),
{
    AhoCorasick::new(list)
}

/// `AhoCorasick::find_iter`: the matches in the text, each as the index of its
/// word and its byte offset. They depend on the words and the text alone. At
/// each offset stand the bytes of the word, each match begins no earlier than
/// the one before it ends, none is reported twice, and without any match none
/// of the words stands in the text. Which of several overlapping matches is
/// reported is not stated.
#[verifier::external_body]
pub(crate) fn find_words(a: &AhoCorasick, text: &str) -> (v: Vec<(usize, usize)>)
    ensures
        match_views(v@) == word_matches(automaton_words(*a), text@),
        are_matches(automaton_words(*a), text@, match_views(v@)),
{
    a.find_iter(text).map(|m| (m.pattern().as_usize(), m.start())).collect()
}

/// The offset of a match splits the text between characters: either the word
/// is not empty, or the text is ASCII.
pub proof fn lemma_match_boundary(word: Seq<char>, text: Seq<char>, at: int)
    requires
        0 <= at,
        at + byte_len(word) <= byte_len(text),
        encode_utf8(text).subrange(at, at + byte_len(word)) == encode_utf8(word),
        word.len() > 0 || vstd::utf8::is_ascii_chars(text),
    ensures
        is_char_boundary(encode_utf8(text), at),
        valid_utf8(encode_utf8(text)),
{
    let bytes = encode_utf8(text);
    vstd::utf8::encode_utf8_valid_utf8(text);
    vstd::utf8::is_char_boundary_start_end_of_seq(bytes);
    if word.len() > 0 {
        vstd::utf8::encode_utf8_first_scalar(word);
        let w = encode_utf8(word);
        assert(w.len() > 0);
        assert(w[0] == bytes[at]);
        assert(!is_continuation_byte(w[0]));
        vstd::utf8::is_char_boundary_iff_not_is_continuation_byte(bytes, at);
    } else if at < bytes.len() {
        vstd::utf8::is_ascii_chars_encode_utf8(text);
        assert(bytes[at] < 0x80);
        vstd::utf8::is_char_boundary_iff_not_is_continuation_byte(bytes, at);
    }
}

/// A text whose bytes begin with the bytes of a word begins with the word.
pub proof fn lemma_begins_with(bytes: Seq<u8>, word: Seq<char>)
    requires
        valid_utf8(bytes),
        byte_len(word) <= bytes.len(),
        bytes.subrange(0, byte_len(word) as int) == encode_utf8(word),
    ensures
        word.len() <= decode_utf8(bytes).len(),
        decode_utf8(bytes).subrange(0, word.len() as int) == word,
    decreases word.len(),
{
    if word.len() == 0 {
        assert(decode_utf8(bytes).subrange(0, 0) =~= word);
    } else {
        let w = encode_utf8(word);
        let rest = word.drop_first();
        vstd::utf8::encode_utf8_first_scalar(word);
        vstd::utf8::encode_utf8_valid_utf8(word);
        let n = vstd::utf8::length_of_first_scalar(w);
        assert(w == vstd::utf8::encode_scalar(word[0] as u32) + encode_utf8(rest));
        assert(w.len() == n + encode_utf8(rest).len());
        assert forall|i: int| 0 <= i < w.len() implies w[i] == bytes[i] by {
            assert(bytes.subrange(0, w.len() as int)[i] == bytes[i]);
        }
        assert(bytes.len() > 0);
        assert(vstd::utf8::length_of_first_scalar(bytes) == n);
        assert(vstd::utf8::decode_first_scalar(bytes) == vstd::utf8::decode_first_scalar(w));
        vstd::utf8::char_u32_cast(word[0], vstd::utf8::decode_first_scalar(w));
        let tail = pop_first_scalar(bytes);
        assert(tail.subrange(0, byte_len(rest) as int) =~= encode_utf8(rest)) by {
            assert forall|i: int| 0 <= i < encode_utf8(rest).len() implies tail[i] == encode_utf8(
                rest,
            )[i] by {
                assert(w[n + i] == encode_utf8(rest)[i]);
                assert(tail[i] == bytes[n + i]);
            }
        }
        lemma_begins_with(tail, rest);
        let chars = decode_utf8(bytes);
        assert(chars == seq![word[0]] + decode_utf8(tail));
        assert(chars.subrange(0, word.len() as int) =~= word) by {
            assert forall|i: int| 0 <= i < word.len() implies chars[i] == word[i] by {
                if i > 0 {
                    assert(decode_utf8(tail).subrange(0, rest.len() as int)[i - 1] == rest[i - 1]);
                }
            }
        }
    }
}

} // verus!
