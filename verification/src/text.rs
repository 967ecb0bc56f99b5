//! Strings as character sequences: searching, trimming, slicing and decimal
//! rendering, each stated over the `Seq<char>` view of the string.
use vstd::prelude::*;
use vstd::string::StringSliceAdditionalSpecFns;
use vstd::utf8::encode_utf8;

verus! {

broadcast use vstd::string::group_string_axioms;

/// `String::push`: the text grows by exactly the given character, at its end.
pub assume_specification[ String::push ](s: &mut String, c: char)
    ensures
        final(s)@ == old(s)@.push(c),
;

/// The views of a sequence of strings.
pub open spec fn texts(v: Seq<String>) -> Seq<Seq<char>> {
    Seq::new(v.len(), |i: int| v[i]@)
}

/// `part` stands in `whole` at index `at`.
pub open spec fn occurs_at(whole: Seq<char>, part: Seq<char>, at: int) -> bool {
    0 <= at && at + part.len() <= whole.len() && whole.subrange(at, at + part.len()) == part
}

/// `part` stands somewhere in `whole`.
pub open spec fn has_part(whole: Seq<char>, part: Seq<char>) -> bool {
    exists|at: int| occurs_at(whole, part, at)
}

/// The characters with the Unicode property `White_Space`.
pub open spec fn is_space(c: char) -> bool {
    let u = c as u32;
    ||| 0x9 <= u <= 0xd
    ||| u == 0x20
    ||| u == 0x85
    ||| u == 0xa0
    ||| u == 0x1680
    ||| 0x2000 <= u <= 0x200a
    ||| u == 0x2028
    ||| u == 0x2029
    ||| u == 0x202f
    ||| u == 0x205f
    ||| u == 0x3000
}

/// ASCII punctuation: `!` to `/`, `:` to `@`, `[` to backtick, `{` to `~`.
pub open spec fn is_punctuation(c: char) -> bool {
    let u = c as u32;
    ||| 0x21 <= u <= 0x2f
    ||| 0x3a <= u <= 0x40
    ||| 0x5b <= u <= 0x60
    ||| 0x7b <= u <= 0x7e
}

/// What is left of `s` without its leading white space.
pub open spec fn trimmed_start(s: Seq<char>) -> Seq<char>
    decreases s.len(),
{
    if s.len() > 0 && is_space(s[0]) {
        trimmed_start(s.subrange(1, s.len() as int))
    } else {
        s
    }
}

/// What is left of `s` without its trailing white space.
pub open spec fn trimmed_end(s: Seq<char>) -> Seq<char>
    decreases s.len(),
{
    if s.len() > 0 && is_space(s[s.len() - 1]) {
        trimmed_end(s.subrange(0, s.len() - 1))
    } else {
        s
    }
}

/// `s` without leading and trailing white space.
pub open spec fn trimmed(s: Seq<char>) -> Seq<char> {
    trimmed_end(trimmed_start(s))
}

/// The first `n` characters of `s`, or all of them when there are fewer.
pub open spec fn first_chars(s: Seq<char>, n: nat) -> Seq<char> {
    if s.len() <= n {
        s
    } else {
        s.subrange(0, n as int)
    }
}

/// The decimal digit of value `d`.
pub open spec fn digit(d: nat) -> char {
    (('0' as u32) + d) as char
}

/// A natural number in decimal notation.
pub open spec fn decimal(n: nat) -> Seq<char>
    decreases n,
{
    if n < 10 {
        seq![digit(n)]
    } else {
        decimal(n / 10).push(digit(n % 10))
    }
}

/// An integer in decimal notation, with a leading minus sign when negative.
pub open spec fn signed_decimal(n: int) -> Seq<char> {
    if n < 0 {
        seq!['-'] + decimal((-n) as nat)
    } else {
        decimal(n as nat)
    }
}

/// The parts in order, with `sep` between neighbours.
pub open spec fn joined(parts: Seq<Seq<char>>, sep: Seq<char>) -> Seq<char>
    decreases parts.len(),
{
    if parts.len() == 0 {
        Seq::empty()
    } else if parts.len() == 1 {
        parts[0]
    } else {
        joined(parts.drop_last(), sep) + sep + parts.last()
    }
}

/// The length of `s` in bytes of UTF-8.
pub open spec fn byte_len(s: Seq<char>) -> nat {
    encode_utf8(s).len()
}

/// Whether `c` is white space.
pub fn is_space_char(c: char) -> (r: bool)
    ensures
        r == is_space(c),
{
    let u: u32 = c as u32;
    (u >= 0x9 && u <= 0xd) || u == 0x20 || u == 0x85 || u == 0xa0 || u == 0x1680 || (u >= 0x2000 && u
        <= 0x200a) || u == 0x2028 || u == 0x2029 || u == 0x202f || u == 0x205f || u == 0x3000
}

/// Whether `c` is ASCII punctuation.
pub fn is_punctuation_char(c: char) -> (r: bool)
    ensures
        r == is_punctuation(c),
{
    let u: u32 = c as u32;
    (u >= 0x21 && u <= 0x2f) || (u >= 0x3a && u <= 0x40) || (u >= 0x5b && u <= 0x60) || (u >= 0x7b
        && u <= 0x7e)
}

/// The characters of `s`.
pub fn chars_of(s: &str) -> (v: Vec<char>)
    ensures
        v@ == s@,
{
    let mut v: Vec<char> = Vec::new();
    for c in it: s.chars()
        invariant
            v@ == it.seq().subrange(0, it.index() as int),
            it.seq() == s@,
    {
        v.push(c);
        assert(it.seq().subrange(0, it.index() + 1) == it.seq().subrange(0, it.index() as int).push(
            c,
        ));
    }
    assert(s@.subrange(0, s@.len() as int) == s@);
    v
}

/// The characters `v[from..to]` as a string.
pub fn slice_text(v: &Vec<char>, from: usize, to: usize) -> (s: String)
    requires
        from <= to <= v@.len(),
    ensures
        s@ == v@.subrange(from as int, to as int),
{
    let mut s: String = String::new();
    let mut i: usize = from;
    while i < to
        invariant
            from <= i <= to <= v@.len(),
            s@ == v@.subrange(from as int, i as int),
        decreases to - i,
    {
        s.push(v[i]);
        assert(v@.subrange(from as int, i + 1) == v@.subrange(from as int, i as int).push(v@[i as int]));
        i = i + 1;
    }
    s
}

/// Whether two strings hold the same characters.
pub fn same_text(a: &str, b: &str) -> (r: bool)
    ensures
        r == (a@ == b@),
{
    let x: &[u8] = a.as_bytes();
    let y: &[u8] = b.as_bytes();
    proof {
        vstd::utf8::encode_utf8_decode_utf8(a@);
        vstd::utf8::encode_utf8_decode_utf8(b@);
        assert(a.spec_bytes() == b.spec_bytes() ==> a@ == b@);
    }
    if x.len() != y.len() {
        return false;
    }
    let mut i: usize = 0;
    while i < x.len()
        invariant
            i <= x@.len() == y@.len(),
            forall|j: int| 0 <= j < i ==> x@[j] == y@[j],
            x@ == a.spec_bytes(),
            y@ == b.spec_bytes(),
        decreases x.len() - i,
    {
        if x[i] != y[i] {
            return false;
        }
        i = i + 1;
    }
    assert(x@ =~= y@);
    true
}

/// Whether `part` stands in `whole` at index `at`.
pub fn part_at(whole: &Vec<char>, part: &Vec<char>, at: usize) -> (r: bool)
    ensures
        r == occurs_at(whole@, part@, at as int),
{
    if part.len() > whole.len() || at > whole.len() - part.len() {
        return false;
    }
    let mut i: usize = 0;
    while i < part.len()
        invariant
            at + part.len() <= whole.len(),
            i <= part@.len(),
            forall|j: int| 0 <= j < i ==> whole@[at + j] == part@[j],
        decreases part.len() - i,
    {
        if whole[at + i] != part[i] {
            assert(whole@.subrange(at as int, at + part@.len())[i as int] == whole@[at + i]);
            return false;
        }
        i = i + 1;
    }
    assert(whole@.subrange(at as int, at + part@.len()) =~= part@);
    true
}

/// The first index at which `part` stands in `whole`.
pub fn find_part(whole: &Vec<char>, part: &Vec<char>) -> (r: Option<usize>)
    ensures
        match r {
            Some(at) => occurs_at(whole@, part@, at as int) && forall|j: int|
                0 <= j < at ==> !occurs_at(whole@, part@, j),
            None => !has_part(whole@, part@),
        },
{
    let mut i: usize = 0;
    while i < whole.len()
        invariant
            i <= whole@.len(),
            forall|j: int| 0 <= j < i ==> !occurs_at(whole@, part@, j),
        decreases whole.len() - i,
    {
        if part_at(whole, part, i) {
            return Some(i);
        }
        i = i + 1;
    }
    if part_at(whole, part, i) {
        Some(i)
    } else {
        None
    }
}

/// Whether `part` stands somewhere in `whole`.
pub fn contains(whole: &str, part: &str) -> (r: bool)
    ensures
        r == has_part(whole@, part@),
{
    let w: Vec<char> = chars_of(whole);
    let p: Vec<char> = chars_of(part);
    match find_part(&w, &p) {
        Some(at) => {
            assert(occurs_at(w@, p@, at as int));
            true
        },
        None => false,
    }
}

/// `s` without leading and trailing white space.
pub fn trim(s: &str) -> (r: String)
    ensures
        r@ == trimmed(s@),
{
    let v: Vec<char> = chars_of(s);
    let mut from: usize = 0;
    assert(v@.subrange(0, v@.len() as int) == v@);
    while from < v.len() && is_space_char(v[from])
        invariant
            from <= v@.len(),
            trimmed_start(v@) == trimmed_start(v@.subrange(from as int, v@.len() as int)),
        decreases v.len() - from,
    {
        assert(v@.subrange(from as int, v@.len() as int).subrange(1, v@.len() - from)
            == v@.subrange(from + 1, v@.len() as int));
        from = from + 1;
    }
    let ghost rest = v@.subrange(from as int, v@.len() as int);
    assert(rest.len() > 0 ==> rest[0] == v@[from as int]);
    assert(trimmed_start(v@) == rest);
    let mut to: usize = v.len();
    assert(v@.subrange(from as int, to as int) == rest);
    while to > from && is_space_char(v[to - 1])
        invariant
            from <= to <= v@.len(),
            trimmed_end(rest) == trimmed_end(v@.subrange(from as int, to as int)),
        decreases to,
    {
        assert(v@.subrange(from as int, to as int).subrange(0, to - from - 1) == v@.subrange(
            from as int,
            to - 1,
        ));
        to = to - 1;
    }
    slice_text(&v, from, to)
}

/// Whether nothing is left of `s` once trimmed.
pub fn is_blank(s: &str) -> (r: bool)
    ensures
        r == (trimmed(s@).len() == 0),
{
    let t: String = trim(s);
    t.as_str().is_empty()
}

/// The first `n` characters of `s`.
pub fn take_chars(s: &str, n: usize) -> (r: String)
    ensures
        r@ == first_chars(s@, n as nat),
{
    let v: Vec<char> = chars_of(s);
    if v.len() <= n {
        s.to_owned()
    } else {
        slice_text(&v, 0, n)
    }
}

/// The length of `s` in bytes.
pub fn len_in_bytes(s: &str) -> (n: usize)
    ensures
        n == byte_len(s@),
{
    s.as_bytes().len()
}

/// Decimal notation of an unsigned number.
pub fn decimal_text(n: u64) -> (s: String)
    ensures
        s@ == decimal(n as nat),
    decreases n,
{
    let mut s: String = if n < 10 {
        String::new()
    } else {
        decimal_text(n / 10)
    };
    let d: u8 = (n % 10) as u8;
    let c: char = (48u8 + d) as char;
    s.push(c);
    assert(n < 10 ==> s@ == seq![digit(n as nat)]);
    s
}

/// Decimal notation of a signed number.
pub fn signed_text(n: i64) -> (s: String)
    ensures
        s@ == signed_decimal(n as int),
{
    if n < 0 {
        let m: u64 = (-(n as i128)) as u64;
        let mut s: String = String::new();
        s.push('-');
        let d: String = decimal_text(m);
        s.append(d.as_str());
        assert(s@ == seq!['-'] + decimal(m as nat));
        s
    } else {
        decimal_text(n as u64)
    }
}

/// The parts in order, with `sep` between neighbours.
pub fn join(parts: &Vec<String>, sep: &str) -> (s: String)
    ensures
        s@ == joined(texts(parts@), sep@),
{
    let mut s: String = String::new();
    let mut i: usize = 0;
    let ghost all = texts(parts@);
    while i < parts.len()
        invariant
            i <= parts@.len(),
            all == texts(parts@),
            s@ == joined(all.subrange(0, i as int), sep@),
        decreases parts.len() - i,
    {
        let ghost before = s@;
        if i > 0 {
            s.append(sep);
        }
        s.append(parts[i].as_str());
        proof {
            let now = all.subrange(0, i + 1);
            assert(now.drop_last() == all.subrange(0, i as int));
            assert(now.last() == parts@[i as int]@);
            if i == 0 {
                assert(before.len() == 0);
                assert(s@ == now[0]);
            }
        }
        i = i + 1;
    }
    assert(all.subrange(0, all.len() as int) == all);
    s
}

/// `a` followed by `b`.
pub fn cat(a: &str, b: &str) -> (s: String)
    ensures
        s@ == a@ + b@,
{
    let mut s: String = a.to_owned();
    s.append(b);
    s
}

/// `a`, `b` and `c` in a row.
pub fn cat3(a: &str, b: &str, c: &str) -> (s: String)
    ensures
        s@ == a@ + b@ + c@,
{
    let mut s: String = a.to_owned();
    s.append(b);
    s.append(c);
    s
}

/// `a` comes before `b`, character by character.
pub open spec fn text_lt(a: Seq<char>, b: Seq<char>) -> bool
    decreases a.len(),
{
    if b.len() == 0 {
        false
    } else if a.len() == 0 {
        true
    } else if a[0] != b[0] {
        a[0] < b[0]
    } else {
        text_lt(a.subrange(1, a.len() as int), b.subrange(1, b.len() as int))
    }
}

/// Two texts are equal, or exactly one of them comes before the other.
pub proof fn law_text_order_total(a: Seq<char>, b: Seq<char>)
    ensures
        a == b || text_lt(a, b) || text_lt(b, a),
        !(text_lt(a, b) && text_lt(b, a)),
        a == b ==> !text_lt(a, b),
    decreases a.len(),
{
    if a.len() > 0 && b.len() > 0 {
        let ta = a.subrange(1, a.len() as int);
        let tb = b.subrange(1, b.len() as int);
        law_text_order_total(ta, tb);
        if a[0] == b[0] && ta == tb {
            assert(a =~= seq![a[0]] + ta);
            assert(b =~= seq![b[0]] + tb);
        }
    } else if a.len() == 0 && b.len() == 0 {
        assert(a =~= b);
    }
}

/// The order of texts is transitive.
pub proof fn law_text_order_transitive(a: Seq<char>, b: Seq<char>, c: Seq<char>)
    requires
        text_lt(a, b),
        text_lt(b, c),
    ensures
        text_lt(a, c),
    decreases a.len(),
{
    if a.len() > 0 {
        if a[0] == b[0] && b[0] == c[0] {
            law_text_order_transitive(
                a.subrange(1, a.len() as int),
                b.subrange(1, b.len() as int),
                c.subrange(1, c.len() as int),
            );
        }
    }
}

/// Whether `a` comes before `b`.
pub fn is_before(a: &str, b: &str) -> (r: bool)
    ensures
        r == text_lt(a@, b@),
{
    let x: Vec<char> = chars_of(a);
    let y: Vec<char> = chars_of(b);
    let mut i: usize = 0;
    assert(x@.subrange(0, x@.len() as int) == x@);
    assert(y@.subrange(0, y@.len() as int) == y@);
    while i < x.len() && i < y.len()
        invariant
            i <= x@.len(),
            i <= y@.len(),
            x@ == a@,
            y@ == b@,
            text_lt(x@, y@) == text_lt(
                x@.subrange(i as int, x@.len() as int),
                y@.subrange(i as int, y@.len() as int),
            ),
        decreases x.len() - i,
    {
        let ghost rx = x@.subrange(i as int, x@.len() as int);
        let ghost ry = y@.subrange(i as int, y@.len() as int);
        assert(rx[0] == x@[i as int]);
        assert(ry[0] == y@[i as int]);
        if x[i] != y[i] {
            return x[i] < y[i];
        }
        assert(rx.subrange(1, rx.len() as int) == x@.subrange(i + 1, x@.len() as int));
        assert(ry.subrange(1, ry.len() as int) == y@.subrange(i + 1, y@.len() as int));
        i = i + 1;
    }
    i < y.len()
}

/// Every text comes before the next, so none occurs twice.
pub open spec fn ascending(v: Seq<Seq<char>>) -> bool {
    forall|i: int, j: int| 0 <= i < j < v.len() ==> text_lt(#[trigger] v[i], #[trigger] v[j])
}

/// Insert `s` at its place in an ascending list, unless it is there already.
pub fn insert_ascending(v: &mut Vec<String>, s: &str)
    requires
        ascending(texts(old(v)@)),
    ensures
        ascending(texts(final(v)@)),
        forall|t: Seq<char>|
            texts(final(v)@).contains(t) <==> (texts(old(v)@).contains(t) || t == s@),
{
    let ghost before = texts(v@);
    let mut i: usize = 0;
    while i < v.len() && is_before(v[i].as_str(), s)
        invariant
            i <= v@.len(),
            before == texts(v@),
            forall|j: int| 0 <= j < i ==> text_lt(#[trigger] before[j], s@),
        decreases v.len() - i,
    {
        i = i + 1;
    }
    if i < v.len() && same_text(v[i].as_str(), s) {
        assert(before[i as int] == s@);
        return;
    }
    v.insert(i, s.to_owned());
    proof {
        let after = texts(v@);
        assert(after =~= before.insert(i as int, s@));
        if i < before.len() {
            law_text_order_total(before[i as int], s@);
        }
        assert forall|a: int, b: int| 0 <= a < b < after.len() implies text_lt(
            #[trigger] after[a],
            #[trigger] after[b],
        ) by {
            if a < i && b > i {
                assert(after[b] == before[b - 1]);
                assert(after[a] == before[a]);
            } else if a == i {
                assert(after[b] == before[b - 1]);
                if b - 1 > i {
                    assert(text_lt(before[i as int], before[b - 1]));
                    law_text_order_transitive(s@, before[i as int], before[b - 1]);
                }
            } else if a > i {
                assert(after[a] == before[a - 1]);
                assert(after[b] == before[b - 1]);
            } else {
                assert(after[a] == before[a]);
                if b < i {
                    assert(after[b] == before[b]);
                }
            }
        }
        assert forall|t: Seq<char>| after.contains(t) <==> (before.contains(t) || t == s@) by {
            if before.contains(t) {
                let k = choose|k: int| 0 <= k < before.len() && before[k] == t;
                assert(after[if k < i {
                    k
                } else {
                    k + 1
                }] == t);
            }
            if t == s@ {
                assert(after[i as int] == t);
            }
            if after.contains(t) && t != s@ {
                let k = choose|k: int| 0 <= k < after.len() && after[k] == t;
                assert(before[if k < i {
                    k
                } else {
                    k - 1
                }] == t);
            }
        }
    }
}

/// A text that is its own trimmed form neither begins nor ends with white
/// space, and each trimming leaves it alone.
pub proof fn lemma_trimmed_bounds(s: Seq<char>)
    requires
        trimmed(s) == s,
        s.len() > 0,
    ensures
        !is_space(s[0]),
        !is_space(s.last()),
        trimmed_start(s) == s,
        trimmed_end(s) == s,
{
    lemma_trimming_shortens(s);
    lemma_trimming_shortens(trimmed_start(s));
    lemma_trimming_shortens(s.subrange(1, s.len() as int));
    lemma_trimming_shortens(s.subrange(0, s.len() - 1));
}

/// Trimming makes no text longer.
proof fn lemma_trimming_shortens(s: Seq<char>)
    ensures
        trimmed_start(s).len() <= s.len(),
        trimmed_end(s).len() <= s.len(),
    decreases s.len(),
{
    if s.len() > 0 {
        lemma_trimming_shortens(s.subrange(1, s.len() as int));
        lemma_trimming_shortens(s.subrange(0, s.len() - 1));
    }
}

/// The views of a sequence of borrowed strings.
pub open spec fn words(v: Seq<&str>) -> Seq<Seq<char>> {
    Seq::new(v.len(), |i: int| v[i]@)
}

/// One of `list` stands somewhere in `whole`.
pub open spec fn has_any(whole: Seq<char>, list: Seq<Seq<char>>) -> bool {
    exists|i: int| 0 <= i < list.len() && has_part(whole, #[trigger] list[i])
}

/// Whether one of `list` stands somewhere in `whole`.
pub fn contains_any(whole: &str, list: &Vec<&str>) -> (r: bool)
    ensures
        r == has_any(whole@, words(list@)),
{
    let w: Vec<char> = chars_of(whole);
    let ghost all = words(list@);
    let mut i: usize = 0;
    while i < list.len()
        invariant
            i <= list@.len(),
            w@ == whole@,
            all == words(list@),
            forall|k: int| 0 <= k < i ==> !has_part(whole@, #[trigger] all[k]),
        decreases list.len() - i,
    {
        let p: Vec<char> = chars_of(list[i]);
        assert(all[i as int] == p@);
        if find_part(&w, &p).is_some() {
            return true;
        }
        i = i + 1;
    }
    false
}

/// Two ascending lists that hold the same texts are the same list.
pub proof fn law_ascending_lists_agree(a: Seq<Seq<char>>, b: Seq<Seq<char>>)
    requires
        ascending(a),
        ascending(b),
        forall|t: Seq<char>| #[trigger] a.contains(t) <==> b.contains(t),
    ensures
        a == b,
    decreases a.len(),
{
    if a.len() == 0 {
        if b.len() > 0 {
            assert(b.contains(b[0]));
            assert(a.contains(b[0]));
        }
        assert(a =~= b);
    } else {
        assert(a.contains(a[0]));
        assert(b.len() > 0);
        assert(a.contains(a.last()) && b.contains(b.last()));
        assert(b.contains(a.last()) && a.contains(b.last()));
        let i = choose|i: int| 0 <= i < b.len() && b[i] == a.last();
        let j = choose|j: int| 0 <= j < a.len() && a[j] == b.last();
        law_text_order_total(a.last(), b.last());
        if i < b.len() - 1 && j < a.len() - 1 {
            assert(text_lt(b[i], b[b.len() - 1]));
            assert(text_lt(a[j], a[a.len() - 1]));
        }
        assert(a.last() == b.last());
        let x = a.drop_last();
        let y = b.drop_last();
        assert forall|t: Seq<char>| #[trigger] x.contains(t) <==> y.contains(t) by {
            law_text_order_total(t, a.last());
            if x.contains(t) {
                let k = choose|k: int| 0 <= k < x.len() && x[k] == t;
                assert(a[k] == t && text_lt(a[k], a[a.len() - 1]));
                assert(a.contains(t));
                let m = choose|m: int| 0 <= m < b.len() && b[m] == t;
                assert(y[m] == t);
            }
            if y.contains(t) {
                let k = choose|k: int| 0 <= k < y.len() && y[k] == t;
                assert(b[k] == t && text_lt(b[k], b[b.len() - 1]));
                assert(b.contains(t));
                assert(a.contains(t));
                let m = choose|m: int| 0 <= m < a.len() && a[m] == t;
                assert(x[m] == t);
            }
        }
        law_ascending_lists_agree(x, y);
        assert(a =~= x.push(a.last()));
        assert(b =~= y.push(b.last()));
    }
}

/// The character with an ASCII capital replaced by the small letter.
pub open spec fn ascii_small(c: char) -> char {
    if 'A' <= c <= 'Z' {
        ((c as u8 + 32) as u8) as char
    } else {
        c
    }
}

/// The text with ASCII capitals replaced by small letters.
pub open spec fn ascii_lowered(s: Seq<char>) -> Seq<char> {
    Seq::new(s.len(), |i: int| ascii_small(s[i]))
}

/// The text with ASCII capitals replaced by small letters.
pub fn to_ascii_lower(s: &str) -> (r: String)
    ensures
        r@ == ascii_lowered(s@),
{
    let v: Vec<char> = chars_of(s);
    let mut r: String = String::new();
    let mut i: usize = 0;
    while i < v.len()
        invariant
            i <= v@.len(),
            v@ == s@,
            r@ == ascii_lowered(s@).subrange(0, i as int),
        decreases v.len() - i,
    {
        let c: char = v[i];
        let small: char = if 'A' <= c && c <= 'Z' {
            (c as u8 + 32) as char
        } else {
            c
        };
        r.push(small);
        assert(r@ =~= ascii_lowered(s@).subrange(0, i + 1));
        i = i + 1;
    }
    assert(r@ =~= ascii_lowered(s@));
    r
}

/// Trimming cuts off white space on either side and nothing else: what is left
/// is a stretch of the text that neither begins nor ends with any.
pub proof fn law_trimming_cuts_only_space(s: Seq<char>) -> (cut: (int, int))
    ensures
        0 <= cut.0 <= cut.1 <= s.len(),
        trimmed(s) == s.subrange(cut.0, cut.1),
        forall|i: int| 0 <= i < cut.0 ==> is_space(#[trigger] s[i]),
        forall|i: int| cut.1 <= i < s.len() ==> is_space(#[trigger] s[i]),
        trimmed(s).len() > 0 ==> !is_space(trimmed(s)[0]) && !is_space(trimmed(s).last()),
{
    let from = lemma_trimmed_start(s);
    let rest = s.subrange(from, s.len() as int);
    let n = lemma_trimmed_end(rest);
    assert(rest.subrange(0, n) =~= s.subrange(from, from + n));
    assert forall|i: int| from + n <= i < s.len() implies is_space(#[trigger] s[i]) by {
        assert(rest[i - from] == s[i]);
    }
    (from, from + n)
}

/// Where the text begins without its leading white space.
proof fn lemma_trimmed_start(s: Seq<char>) -> (from: int)
    ensures
        0 <= from <= s.len(),
        trimmed_start(s) == s.subrange(from, s.len() as int),
        forall|i: int| 0 <= i < from ==> is_space(#[trigger] s[i]),
        from < s.len() ==> !is_space(s[from]),
    decreases s.len(),
{
    if s.len() > 0 && is_space(s[0]) {
        let rest = s.subrange(1, s.len() as int);
        let n = lemma_trimmed_start(rest);
        assert(rest.subrange(n, rest.len() as int) =~= s.subrange(n + 1, s.len() as int));
        assert forall|i: int| 0 <= i < n + 1 implies is_space(#[trigger] s[i]) by {
            if i > 0 {
                assert(rest[i - 1] == s[i]);
            }
        }
        n + 1
    } else {
        assert(s.subrange(0, s.len() as int) =~= s);
        0
    }
}

/// Where the text ends without its trailing white space.
proof fn lemma_trimmed_end(s: Seq<char>) -> (to: int)
    ensures
        0 <= to <= s.len(),
        trimmed_end(s) == s.subrange(0, to),
        forall|i: int| to <= i < s.len() ==> is_space(#[trigger] s[i]),
        to > 0 ==> !is_space(s[to - 1]),
    decreases s.len(),
{
    if s.len() > 0 && is_space(s[s.len() - 1]) {
        let rest = s.subrange(0, s.len() - 1);
        let n = lemma_trimmed_end(rest);
        assert(rest.subrange(0, n) =~= s.subrange(0, n));
        assert forall|i: int| n <= i < s.len() implies is_space(#[trigger] s[i]) by {
            if i < rest.len() {
                assert(rest[i] == s[i]);
            }
        }
        n
    } else {
        assert(s.subrange(0, s.len() as int) =~= s);
        s.len() as int
    }
}

/// The first difference decides which of two texts comes before, and a text
/// comes before everything that it begins.
pub proof fn law_first_difference_decides(front: Seq<char>, a: Seq<char>, b: Seq<char>)
    ensures
        b.len() > 0 && (a.len() == 0 || a[0] < b[0]) ==> text_lt(front + a, front + b),
        a.len() > 0 && (b.len() == 0 || b[0] < a[0]) ==> !text_lt(front + a, front + b),
    decreases front.len(),
{
    if front.len() == 0 {
        assert(front + a =~= a);
        assert(front + b =~= b);
    } else {
        let rest = front.subrange(1, front.len() as int);
        law_first_difference_decides(rest, a, b);
        let x = front + a;
        let y = front + b;
        assert(x.subrange(1, x.len() as int) =~= rest + a);
        assert(y.subrange(1, y.len() as int) =~= rest + b);
    }
}

/// A part stands in every text that is put together with it, and in no other.
pub proof fn law_a_part_stands_where_it_is_put(whole: Seq<char>, part: Seq<char>)
    ensures
        has_part(whole, part) <==> exists|a: Seq<char>, b: Seq<char>| whole == #[trigger] (a + part
            + b),
{
    if has_part(whole, part) {
        let at = choose|at: int| occurs_at(whole, part, at);
        let a = whole.subrange(0, at);
        let b = whole.subrange(at + part.len(), whole.len() as int);
        assert(whole.subrange(at, at + part.len()) == part);
        assert(whole =~= a + whole.subrange(at, at + part.len()) + b);
        assert(whole == a + part + b);
    }
    if exists|a: Seq<char>, b: Seq<char>| whole == #[trigger] (a + part + b) {
        let (a, b) = choose|a: Seq<char>, b: Seq<char>| whole == #[trigger] (a + part + b);
        assert(whole.subrange(a.len() as int, (a.len() + part.len()) as int) =~= part);
        assert(occurs_at(whole, part, a.len() as int));
    }
}

/// One more part is put behind the others, with the separator in between.
pub proof fn law_parts_are_joined_in_order(
    parts: Seq<Seq<char>>,
    part: Seq<char>,
    sep: Seq<char>,
)
    ensures
        parts.len() == 0 ==> joined(parts.push(part), sep) == part,
        parts.len() > 0 ==> joined(parts.push(part), sep) == joined(parts, sep) + sep + part,
{
    assert(parts.push(part).drop_last() =~= parts);
}

/// The number that a row of decimal digits stands for.
pub open spec fn read_digits(s: Seq<char>) -> int
    decreases s.len(),
{
    if s.len() == 0 {
        0
    } else {
        10 * read_digits(s.drop_last()) + (s.last() as int - '0' as int)
    }
}

/// What is written in decimal reads back as the number, without leading zeros.
pub proof fn law_decimal_reads_back(n: nat)
    ensures
        read_digits(decimal(n)) == n,
        decimal(n).len() > 0,
        forall|i: int| 0 <= i < decimal(n).len() ==> '0' <= #[trigger] decimal(n)[i] <= '9',
        n > 0 ==> decimal(n)[0] != '0',
        n == 0 ==> decimal(n) == seq!['0'],
    decreases n,
{
    if n < 10 {
        assert(decimal(n).drop_last() =~= Seq::empty());
        assert(read_digits(decimal(n).drop_last()) == 0);
        assert(digit(n) as int == '0' as int + n);
        assert(n == 0 ==> decimal(n) =~= seq!['0']);
    } else {
        law_decimal_reads_back(n / 10);
        assert(decimal(n).drop_last() =~= decimal(n / 10));
        assert(digit(n % 10) as int == '0' as int + n % 10);
        assert forall|i: int| 0 <= i < decimal(n).len() implies '0' <= #[trigger] decimal(n)[i]
            <= '9' by {
            if i < decimal(n).len() - 1 {
                assert(decimal(n)[i] == decimal(n / 10)[i]);
            }
        }
        assert(decimal(n)[0] == decimal(n / 10)[0]);
    }
}

/// A signed number is written with a minus sign exactly when it is negative, in
/// front of its magnitude.
pub proof fn law_signed_decimal_reads_back(n: int)
    ensures
        n >= 0 ==> read_digits(signed_decimal(n)) == n && signed_decimal(n)[0] != '-',
        n < 0 ==> signed_decimal(n)[0] == '-' && read_digits(
            signed_decimal(n).subrange(1, signed_decimal(n).len() as int),
        ) == -n,
{
    if n >= 0 {
        law_decimal_reads_back(n as nat);
    } else {
        law_decimal_reads_back((-n) as nat);
        assert(signed_decimal(n).subrange(1, signed_decimal(n).len() as int) =~= decimal(
            (-n) as nat,
        ));
    }
}

/// The beginning of a text is as long as asked for, or the text itself.
pub proof fn law_first_chars_begin_the_text(s: Seq<char>, n: nat)
    ensures
        first_chars(s, n).len() == (if s.len() <= n {
            s.len()
        } else {
            n
        }),
        forall|i: int| 0 <= i < first_chars(s, n).len() ==> #[trigger] first_chars(s, n)[i] == s[i],
{
}

/// Lowering changes ASCII capitals into their small letters and leaves every
/// other character.
pub proof fn law_lowering_is_ascii_only(s: Seq<char>, i: int)
    requires
        0 <= i < s.len(),
    ensures
        ascii_lowered(s).len() == s.len(),
        'A' <= s[i] <= 'Z' ==> ascii_lowered(s)[i] as int == s[i] as int + ('a' as int
            - 'A' as int),
        !('A' <= s[i] <= 'Z') ==> ascii_lowered(s)[i] == s[i],
{
}

/// Different numbers are written differently.
pub proof fn law_different_numbers_are_written_differently(a: int, b: int)
    ensures
        signed_decimal(a) == signed_decimal(b) ==> a == b,
{
    law_signed_decimal_reads_back(a);
    law_signed_decimal_reads_back(b);
}

} // verus!
