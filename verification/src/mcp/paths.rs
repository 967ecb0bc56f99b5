//! Paths that a client names, resolved inside the directories it may read.
use vstd::prelude::*;

use crate::error::Error;
use crate::text::{cat, chars_of, join, joined, same_text, slice_text, texts};

verus! {

/// The pieces of a path between its slashes.
pub open spec fn pieces(s: Seq<char>) -> Seq<Seq<char>>
    decreases s.len(),
{
    if s.len() == 0 {
        seq![Seq::empty()]
    } else {
        let before = pieces(s.drop_last());
        if s.last() == '/' {
            before.push(Seq::empty())
        } else {
            before.update(before.len() - 1, before.last().push(s.last()))
        }
    }
}

/// There is always a piece.
proof fn lemma_pieces(s: Seq<char>)
    ensures
        pieces(s).len() >= 1,
    decreases s.len(),
{
    if s.len() > 0 {
        lemma_pieces(s.drop_last());
    }
}

/// The path begins at the root directory.
pub open spec fn is_absolute_path(s: Seq<char>) -> bool {
    s.len() > 0 && s[0] == '/'
}

/// Whether the piece at index `i` names something: it is not empty, and no
/// `.` except at the beginning of a relative path.
pub open spec fn names_something(piece: Seq<char>, i: int, absolute: bool) -> bool {
    piece.len() > 0 && !(piece == "."@ && (absolute || i > 0))
}

/// The first `n` pieces that name something.
pub open spec fn named(v: Seq<Seq<char>>, absolute: bool, n: nat) -> Seq<Seq<char>>
    decreases n,
{
    if n == 0 {
        Seq::empty()
    } else {
        let before = named(v, absolute, (n - 1) as nat);
        if names_something(v[n - 1], n - 1, absolute) {
            before.push(v[n - 1])
        } else {
            before
        }
    }
}

/// The components of a path; an absolute path begins with the component `/`.
pub open spec fn components(s: Seq<char>) -> Seq<Seq<char>> {
    let v = pieces(s);
    let names = named(v, is_absolute_path(s), v.len());
    if is_absolute_path(s) {
        seq!["/"@] + names
    } else {
        names
    }
}

/// The components with `.` left out and each `..` resolved against the one
/// before it; none when there is nothing before it but the root.
pub open spec fn normalized(v: Seq<Seq<char>>) -> Option<Seq<Seq<char>>>
    decreases v.len(),
{
    if v.len() == 0 {
        Some(Seq::empty())
    } else {
        match normalized(v.drop_last()) {
            None => None,
            Some(done) => if v.last() == "."@ {
                Some(done)
            } else if v.last() == ".."@ {
                if done.len() == 0 || done.last() == "/"@ {
                    None
                } else {
                    Some(done.drop_last())
                }
            } else {
                Some(done.push(v.last()))
            },
        }
    }
}

/// The path `v` lies under the path `base`.
pub open spec fn is_under(v: Seq<Seq<char>>, base: Seq<Seq<char>>) -> bool {
    base.len() <= v.len() && v.subrange(0, base.len() as int) == base
}

/// The path that the components make up.
pub open spec fn path_text(v: Seq<Seq<char>>) -> Seq<char> {
    if v.len() > 0 && v[0] == "/"@ {
        "/"@ + joined(v.subrange(1, v.len() as int), "/"@)
    } else {
        joined(v, "/"@)
    }
}

/// What a path resolves to.
pub enum Resolution {
    /// These components.
    Inside(Seq<Seq<char>>),
    /// It is refused, in these words.
    Refused(Seq<char>),
}

/// What a path that a client names resolves to: a relative one inside `root`,
/// an absolute one inside `root` or `temp`.
pub open spec fn resolution(path: Seq<char>, root: Seq<char>, temp: Seq<char>) -> Resolution {
    if is_absolute_path(path) {
        match normalized(components(path)) {
            None => Resolution::Refused("path escapes the allowlisted roots; rejected: "@ + path),
            Some(v) => if is_under(v, components(temp)) || is_under(v, components(root)) {
                Resolution::Inside(v)
            } else {
                Resolution::Refused(
                    "absolute path must live under the resource root or the system temp directory; rejected: "@
                        + path,
                )
            },
        }
    } else {
        match normalized(components(root) + components(path)) {
            None => Resolution::Refused("path escapes the resource root; rejected: "@ + path),
            Some(v) => if is_under(v, components(root)) {
                Resolution::Inside(v)
            } else {
                Resolution::Refused("path escapes the resource root; rejected: "@ + path)
            },
        }
    }
}

/// The pieces of a path between its slashes.
fn split_pieces(s: &str) -> (v: Vec<String>)
    ensures
        texts(v@) == pieces(s@),
{
    let chars: Vec<char> = chars_of(s);
    let mut done: Vec<String> = Vec::new();
    let mut current: String = String::new();
    let mut i: usize = 0;
    assert(texts(done@).push(current@) =~= pieces(s@.subrange(0, 0)));
    while i < chars.len()
        invariant
            i <= chars@.len(),
            chars@ == s@,
            texts(done@).push(current@) == pieces(s@.subrange(0, i as int)),
        decreases chars.len() - i,
    {
        let ghost before = texts(done@).push(current@);
        let ghost now = s@.subrange(0, i + 1);
        assert(now.drop_last() == s@.subrange(0, i as int));
        assert(now.last() == s@[i as int]);
        let c: char = chars[i];
        if c == '/' {
            done.push(current);
            current = String::new();
            assert(texts(done@).push(current@) =~= before.push(Seq::empty()));
        } else {
            current.push(c);
            assert(texts(done@).push(current@) =~= before.update(
                before.len() - 1,
                before.last().push(c),
            ));
        }
        i = i + 1;
    }
    assert(s@.subrange(0, s@.len() as int) == s@);
    let ghost before = texts(done@).push(current@);
    done.push(current);
    assert(texts(done@) =~= before);
    done
}

/// The components of a path.
pub fn path_components(s: &str) -> (r: Vec<String>)
    ensures
        texts(r@) == components(s@),
{
    let v: Vec<String> = split_pieces(s);
    let absolute: bool = starts_at_root(s);
    let mut r: Vec<String> = Vec::new();
    if absolute {
        r.push("/".to_owned());
    }
    let ghost head = texts(r@);
    let ghost all = pieces(s@);
    let mut i: usize = 0;
    assert(texts(r@) =~= head + named(all, absolute, 0));
    while i < v.len()
        invariant
            i <= v@.len(),
            all == texts(v@),
            texts(r@) == head + named(all, absolute, i as nat),
        decreases v.len() - i,
    {
        let ghost before = texts(r@);
        assert(all[i as int] == v@[i as int]@);
        let piece: &str = v[i].as_str();
        if !piece.is_empty() && !(same_text(piece, ".") && (absolute || i > 0)) {
            r.push(piece.to_owned());
            assert(texts(r@) =~= before.push(all[i as int]));
            assert(texts(r@) =~= head + named(all, absolute, (i + 1) as nat));
        }
        i = i + 1;
    }
    proof {
        if absolute {
            assert(head =~= seq!["/"@]);
        } else {
            assert(head =~= Seq::empty());
            assert(texts(r@) =~= named(all, absolute, all.len()));
        }
    }
    r
}

/// Whether the path begins at the root directory.
pub fn starts_at_root(s: &str) -> (r: bool)
    ensures
        r == is_absolute_path(s@),
{
    let v: Vec<char> = chars_of(s);
    v.len() > 0 && v[0] == '/'
}

/// What has failed stays failed.
proof fn lemma_escape_stays(v: Seq<Seq<char>>, n: int)
    requires
        0 <= n <= v.len(),
        normalized(v.subrange(0, n)) is None,
    ensures
        normalized(v) is None,
    decreases v.len() - n,
{
    if n == v.len() {
        assert(v.subrange(0, n) == v);
    } else {
        assert(v.subrange(0, n + 1).drop_last() == v.subrange(0, n));
        lemma_escape_stays(v, n + 1);
    }
}

/// Leave out `.` and resolve each `..`.
pub fn normalize(v: &Vec<String>) -> (r: Option<Vec<String>>)
    ensures
        match r {
            Some(done) => normalized(texts(v@)) == Some(texts(done@)),
            None => normalized(texts(v@)) is None,
        },
{
    let mut done: Vec<String> = Vec::new();
    let ghost all = texts(v@);
    let mut i: usize = 0;
    assert(all.subrange(0, 0) =~= Seq::empty());
    assert(texts(done@) =~= Seq::empty());
    while i < v.len()
        invariant
            i <= v@.len(),
            all == texts(v@),
            normalized(all.subrange(0, i as int)) == Some(texts(done@)),
        decreases v.len() - i,
    {
        let ghost before = texts(done@);
        let ghost now = all.subrange(0, i + 1);
        assert(now.drop_last() == all.subrange(0, i as int));
        assert(now.last() == v@[i as int]@);
        let part: &str = v[i].as_str();
        if same_text(part, ".") {
        } else if same_text(part, "..") {
            if done.len() == 0 || same_text(done[done.len() - 1].as_str(), "/") {
                proof {
                    lemma_escape_stays(all, i + 1);
                }
                return None;
            }
            let _ = done.pop();
            assert(texts(done@) =~= before.drop_last());
        } else {
            done.push(part.to_owned());
            assert(texts(done@) =~= before.push(v@[i as int]@));
        }
        i = i + 1;
    }
    assert(all.subrange(0, all.len() as int) == all);
    Some(done)
}

/// Whether the path `v` lies under the path `base`.
fn lies_under(v: &Vec<String>, base: &Vec<String>) -> (r: bool)
    ensures
        r == is_under(texts(v@), texts(base@)),
{
    if base.len() > v.len() {
        return false;
    }
    let ghost x = texts(v@);
    let ghost y = texts(base@);
    let mut i: usize = 0;
    while i < base.len()
        invariant
            i <= base@.len() <= v@.len(),
            x == texts(v@),
            y == texts(base@),
            forall|k: int| 0 <= k < i ==> #[trigger] x[k] == y[k],
        decreases base.len() - i,
    {
        if !same_text(v[i].as_str(), base[i].as_str()) {
            assert(x.subrange(0, y.len() as int)[i as int] != y[i as int]);
            return false;
        }
        i = i + 1;
    }
    assert(x.subrange(0, y.len() as int) =~= y);
    true
}

/// The path that the components make up.
fn to_path(v: &Vec<String>) -> (s: String)
    ensures
        s@ == path_text(texts(v@)),
{
    let ghost all = texts(v@);
    if v.len() > 0 && same_text(v[0].as_str(), "/") {
        let mut rest: Vec<String> = Vec::new();
        let mut i: usize = 1;
        while i < v.len()
            invariant
                1 <= i <= v@.len(),
                all == texts(v@),
                texts(rest@) == all.subrange(1, i as int),
            decreases v.len() - i,
        {
            let ghost before = texts(rest@);
            rest.push(v[i].as_str().to_owned());
            assert(texts(rest@) =~= before.push(all[i as int]));
            assert(texts(rest@) =~= all.subrange(1, i + 1));
            i = i + 1;
        }
        let tail: String = join(&rest, "/");
        cat("/", tail.as_str())
    } else {
        join(v, "/")
    }
}

/// Resolve a path that a client names, where `root` is the resource directory
/// and `temp` the directory of temporary files.
pub fn resolve_knowledge_path(path: &str, root: &str, temp: &str) -> (r: Result<String, Error>)
    ensures
        match r {
            Ok(p) => resolution(path@, root@, temp@) matches Resolution::Inside(v) && p@
                == path_text(v),
            Err(e) => e is InvalidInput && resolution(path@, root@, temp@) == Resolution::Refused(
                e.text(),
            ),
        },
{
    let at_root: Vec<String> = path_components(root);
    let parts: Vec<String> = path_components(path);
    if starts_at_root(path) {
        match normalize(&parts) {
            None => Err(
                Error::InvalidInput(cat("path escapes the allowlisted roots; rejected: ", path)),
            ),
            Some(v) => {
                let at_temp: Vec<String> = path_components(temp);
                if lies_under(&v, &at_temp) || lies_under(&v, &at_root) {
                    Ok(to_path(&v))
                } else {
                    Err(
                        Error::InvalidInput(
                            cat(
                                "absolute path must live under the resource root or the system temp directory; rejected: ",
                                path,
                            ),
                        ),
                    )
                }
            },
        }
    } else {
        let mut all: Vec<String> = Vec::new();
        let ghost x = texts(at_root@);
        let ghost y = texts(parts@);
        let mut i: usize = 0;
        while i < at_root.len()
            invariant
                i <= at_root@.len(),
                x == texts(at_root@),
                texts(all@) == x.subrange(0, i as int),
            decreases at_root.len() - i,
        {
            let ghost before = texts(all@);
            all.push(at_root[i].as_str().to_owned());
            assert(texts(all@) =~= before.push(x[i as int]));
            assert(texts(all@) =~= x.subrange(0, i + 1));
            i = i + 1;
        }
        let mut k: usize = 0;
        assert(texts(all@) =~= x + y.subrange(0, 0));
        while k < parts.len()
            invariant
                k <= parts@.len(),
                y == texts(parts@),
                texts(all@) == x + y.subrange(0, k as int),
            decreases parts.len() - k,
        {
            let ghost before = texts(all@);
            all.push(parts[k].as_str().to_owned());
            assert(texts(all@) =~= before.push(y[k as int]));
            assert(texts(all@) =~= x + y.subrange(0, k + 1));
            k = k + 1;
        }
        assert(y.subrange(0, y.len() as int) == y);
        match normalize(&all) {
            None => Err(
                Error::InvalidInput(cat("path escapes the resource root; rejected: ", path)),
            ),
            Some(v) => if lies_under(&v, &at_root) {
                Ok(to_path(&v))
            } else {
                Err(Error::InvalidInput(cat("path escapes the resource root; rejected: ", path)))
            },
        }
    }
}

/// A normalized path holds neither `.` nor `..`.
pub proof fn law_normalized_is_plain(v: Seq<Seq<char>>)
    ensures
        normalized(v) matches Some(done) ==> forall|i: int|
            0 <= i < done.len() ==> #[trigger] done[i] != "."@ && done[i] != ".."@,
    decreases v.len(),
{
    if v.len() > 0 {
        law_normalized_is_plain(v.drop_last());
    }
}

/// What a path resolves to lies under the resource directory or, for an
/// absolute path, under the directory of temporary files; and no `..` leads
/// out of it again.
pub proof fn law_resolved_path_stays_inside(path: Seq<char>, root: Seq<char>, temp: Seq<char>)
    ensures
        resolution(path, root, temp) matches Resolution::Inside(v) ==> {
            &&& is_under(v, components(root)) || (is_absolute_path(path) && is_under(
                v,
                components(temp),
            ))
            &&& forall|i: int| 0 <= i < v.len() ==> #[trigger] v[i] != "."@ && v[i] != ".."@
        },
{
    law_normalized_is_plain(components(path));
    law_normalized_is_plain(components(root) + components(path));
}

/// The last dot of a text.
pub open spec fn last_dot(s: Seq<char>) -> Option<int>
    decreases s.len(),
{
    if s.len() == 0 {
        None
    } else if s.last() == '.' {
        Some(s.len() - 1)
    } else {
        last_dot(s.drop_last())
    }
}

/// A file name without its extension; a leading dot begins no extension.
pub open spec fn stem(name: Seq<char>) -> Seq<char> {
    match last_dot(name) {
        None => name,
        Some(i) => if i <= 0 {
            name
        } else {
            name.subrange(0, i)
        },
    }
}

/// The name that a path ends in, without its extension; none when the path
/// ends in no name.
pub open spec fn path_stem(path: Seq<char>) -> Option<Seq<char>> {
    let v = components(path);
    if v.len() == 0 || v.last() == "/"@ || v.last() == "."@ || v.last() == ".."@ {
        None
    } else {
        Some(stem(v.last()))
    }
}

/// The name that a path ends in, without its extension.
pub fn file_stem(path: &str) -> (r: Option<String>)
    ensures
        match r {
            Some(s) => path_stem(path@) == Some(s@),
            None => path_stem(path@) is None,
        },
{
    let v: Vec<String> = path_components(path);
    let ghost all = texts(v@);
    if v.len() == 0 {
        return None;
    }
    let name: &str = v[v.len() - 1].as_str();
    assert(all.last() == name@);
    if same_text(name, "/") || same_text(name, ".") || same_text(name, "..") {
        return None;
    }
    let chars: Vec<char> = chars_of(name);
    let mut i: usize = chars.len();
    assert(name@.subrange(0, name@.len() as int) == name@);
    while i > 0
        invariant
            i <= chars@.len(),
            chars@ == name@,
            last_dot(name@) == last_dot(name@.subrange(0, i as int)),
            all == texts(v@),
            all == components(path@),
            all.len() > 0,
            all.last() == name@,
            name@ != "/"@ && name@ != "."@ && name@ != ".."@,
        decreases i,
    {
        let ghost now = name@.subrange(0, i as int);
        assert(now.last() == chars@[i - 1]);
        assert(now.drop_last() == name@.subrange(0, i - 1));
        if chars[i - 1] == '.' {
            return if i == 1 {
                Some(name.to_owned())
            } else {
                Some(slice_text(&chars, 0, i - 1))
            };
        }
        i = i - 1;
    }
    Some(name.to_owned())
}

/// A piece that stands for itself in a path: it is not empty, holds no slash,
/// and is neither `.` nor `..`.
pub open spec fn is_plain(piece: Seq<char>) -> bool {
    piece.len() > 0 && !piece.contains('/') && piece != "."@ && piece != ".."@
}

/// A step up takes back the step before it, and `.` goes nowhere; a name goes
/// down. There is no step up from the root, nor from nowhere.
pub proof fn law_a_step_up_takes_back(v: Seq<Seq<char>>, name: Seq<char>)
    requires
        is_plain(name),
    ensures
        normalized(v.push("."@)) == normalized(v),
        normalized(v) matches Some(done) ==> normalized(v.push(name)) == Some(done.push(name)),
        normalized(v) is Some ==> normalized(v.push(name).push(".."@)) == normalized(v),
        normalized(v) is None ==> normalized(v.push(name)) is None && normalized(
            v.push(".."@),
        ) is None,
        normalized(seq!["/"@, ".."@]) is None,
        normalized(seq![".."@]) is None,
{
    reveal_strlit("/");
    reveal_strlit(".");
    reveal_strlit("..");
    assert(name != "/"@) by {
        assert("/"@.contains("/"@[0]));
    }
    assert("."@.len() != ".."@.len());
    assert("/"@[0] != "."@[0] && "/"@[0] != ".."@[0]);
    assert(v.push("."@).drop_last() =~= v);
    assert(v.push(name).drop_last() =~= v);
    assert(v.push(".."@).drop_last() =~= v);
    let down = v.push(name);
    assert(down.push(".."@).drop_last() =~= down);
    if normalized(v) is Some {
        let done = normalized(v)->0;
        assert(normalized(down) == Some(done.push(name)));
        assert(done.push(name).drop_last() =~= done);
        assert(done.push(name).last() == name);
    }
    let none: Seq<Seq<char>> = Seq::empty();
    let root = seq!["/"@];
    assert(root.drop_last() =~= none);
    assert(normalized(none) == Some(none));
    assert(normalized(root) == Some(none.push("/"@)));
    assert(seq!["/"@, ".."@].drop_last() =~= root);
    assert(seq![".."@].drop_last() =~= none);
}

/// Components without steps are their own normal form.
proof fn lemma_normal_form(v: Seq<Seq<char>>)
    requires
        forall|i: int| 0 <= i < v.len() ==> #[trigger] v[i] != "."@ && v[i] != ".."@,
    ensures
        normalized(v) == Some(v),
    decreases v.len(),
{
    if v.len() > 0 {
        let front = v.drop_last();
        assert forall|i: int| 0 <= i < front.len() implies #[trigger] front[i] != "."@ && front[i]
            != ".."@ by {
            assert(front[i] == v[i]);
        }
        lemma_normal_form(front);
        assert(v[v.len() - 1] == v.last());
        assert(front.push(v.last()) =~= v);
    } else {
        assert(normalized(v) == Some(v));
    }
}

/// The pieces of a path that goes on with a piece.
proof fn lemma_pieces_of_piece(a: Seq<char>, b: Seq<char>)
    requires
        !b.contains('/'),
    ensures
        pieces(a + b) == pieces(a).update(pieces(a).len() - 1, pieces(a).last() + b),
    decreases b.len(),
{
    lemma_pieces(a);
    let p = pieces(a);
    if b.len() == 0 {
        assert(a + b =~= a);
        assert(p.last() + b =~= p.last());
        assert(p.update(p.len() - 1, p.last()) =~= p);
    } else {
        let c = b.drop_last();
        assert((a + b).drop_last() =~= a + c);
        assert(b[b.len() - 1] == b.last());
        assert(b.contains(b.last()));
        assert(!c.contains('/')) by {
            if c.contains('/') {
                let k = choose|k: int| 0 <= k < c.len() && c[k] == '/';
                assert(b[k] == '/');
            }
        }
        lemma_pieces_of_piece(a, c);
        let q = pieces(a + c);
        assert(q.last() == p.last() + c);
        assert((p.last() + c).push(b.last()) =~= p.last() + b);
        assert(pieces(a + b) =~= p.update(p.len() - 1, p.last() + b));
    }
}

/// The pieces of plain names between slashes are the names.
proof fn lemma_pieces_of_names(v: Seq<Seq<char>>)
    requires
        v.len() > 0,
        forall|i: int| 0 <= i < v.len() ==> is_plain(#[trigger] v[i]),
    ensures
        pieces(joined(v, "/"@)) == v,
    decreases v.len(),
{
    reveal_strlit("/");
    let none: Seq<char> = Seq::empty();
    assert(is_plain(v[v.len() - 1]));
    if v.len() == 1 {
        lemma_pieces_of_piece(none, v[0]);
        assert(none + v[0] =~= v[0]);
        assert(pieces(none) == seq![none]);
        assert(seq![none].update(0, v[0]) =~= v);
    } else {
        let front = v.drop_last();
        assert forall|i: int| 0 <= i < front.len() implies is_plain(#[trigger] front[i]) by {
            assert(front[i] == v[i]);
        }
        lemma_pieces_of_names(front);
        let a = joined(front, "/"@);
        let slash = a + "/"@;
        assert(slash =~= a.push('/'));
        assert(slash.drop_last() =~= a);
        assert(pieces(slash) == front.push(none));
        lemma_pieces_of_piece(slash, v.last());
        assert(none + v.last() =~= v.last());
        assert(front.push(none).update(front.len() as int, v.last()) =~= v);
    }
}

/// Plain names all name something.
proof fn lemma_named(v: Seq<Seq<char>>, n: nat)
    requires
        n <= v.len(),
        forall|i: int| 0 <= i < v.len() ==> is_plain(#[trigger] v[i]),
    ensures
        named(v, false, n) == v.subrange(0, n as int),
    decreases n,
{
    if n > 0 {
        lemma_named(v, (n - 1) as nat);
        assert(is_plain(v[n - 1]));
        assert(v.subrange(0, n as int) =~= v.subrange(0, n - 1).push(v[n - 1]));
    } else {
        assert(v.subrange(0, 0) =~= Seq::empty());
    }
}

/// The components of plain names between slashes are the names.
pub proof fn law_components_of_names(v: Seq<Seq<char>>)
    requires
        v.len() > 0,
        forall|i: int| 0 <= i < v.len() ==> is_plain(#[trigger] v[i]),
    ensures
        components(joined(v, "/"@)) == v,
        !is_absolute_path(joined(v, "/"@)),
{
    let s = joined(v, "/"@);
    lemma_pieces_of_names(v);
    assert(is_plain(v[0]));
    lemma_begins_with_name(v);
    assert(s[0] == v[0][0]);
    assert(v[0].contains(v[0][0]));
    lemma_named(v, v.len());
    assert(v.subrange(0, v.len() as int) =~= v);
}

/// A path of names begins with the first.
proof fn lemma_begins_with_name(v: Seq<Seq<char>>)
    requires
        v.len() > 0,
        v[0].len() > 0,
    ensures
        joined(v, "/"@).len() > 0,
        joined(v, "/"@)[0] == v[0][0],
    decreases v.len(),
{
    if v.len() > 1 {
        let front = v.drop_last();
        assert(front[0] == v[0]);
        lemma_begins_with_name(front);
    }
}

/// A client reaches every file below the resource directory: a relative path of
/// plain names leads to exactly these names below it.
pub proof fn law_plain_paths_lead_below_the_root(
    names: Seq<Seq<char>>,
    root: Seq<char>,
    temp: Seq<char>,
)
    requires
        names.len() > 0,
        forall|i: int| 0 <= i < names.len() ==> is_plain(#[trigger] names[i]),
        forall|i: int|
            0 <= i < components(root).len() ==> #[trigger] components(root)[i] != "."@
                && components(root)[i] != ".."@,
    ensures
        resolution(joined(names, "/"@), root, temp) == Resolution::Inside(
            components(root) + names,
        ),
{
    law_components_of_names(names);
    let base = components(root);
    let all = base + names;
    assert forall|i: int| 0 <= i < all.len() implies #[trigger] all[i] != "."@ && all[i]
        != ".."@ by {
        if i < base.len() {
            assert(all[i] == base[i]);
        } else {
            assert(all[i] == names[i - base.len()]);
            assert(is_plain(names[i - base.len()]));
        }
    }
    lemma_normal_form(all);
    assert(all.subrange(0, base.len() as int) =~= base);
}

/// A path that would leave the resource directory by steps up is refused: one
/// step up more than there are names leads out.
pub proof fn law_steps_up_do_not_lead_out(root: Seq<char>, temp: Seq<char>)
    requires
        forall|i: int|
            0 <= i < components(root).len() ==> #[trigger] components(root)[i] != "."@
                && components(root)[i] != ".."@,
    ensures
        resolution(".."@, root, temp) is Refused,
{
    reveal_strlit("..");
    reveal_strlit(".");
    let up = ".."@;
    let none: Seq<char> = Seq::empty();
    assert(!up.contains('/')) by {
        assert forall|k: int| 0 <= k < up.len() implies up[k] != '/' by {}
    }
    lemma_pieces_of_piece(none, up);
    assert(none + up =~= up);
    assert(pieces(none) == seq![none]);
    assert(pieces(up) =~= seq![up]);
    assert(up != "."@);
    let list = seq![up];
    assert(named(list, false, 0) =~= Seq::empty());
    assert(named(list, false, 1) =~= list);
    assert(components(up) =~= list);
    let base = components(root);
    let all = base + list;
    lemma_normal_form(base);
    assert(all.drop_last() =~= base);
    assert(all.last() == up);
    if base.len() > 0 && base.last() != "/"@ {
        assert(normalized(all) == Some(base.drop_last()));
    }
}

/// A file name without its extension is what stands before its last dot; a name
/// without a dot, or with one only at its beginning, has no extension.
pub proof fn law_stem_ends_at_the_last_dot(name: Seq<char>, ext: Seq<char>)
    requires
        !ext.contains('.'),
    ensures
        name.len() > 0 ==> stem(name + seq!['.'] + ext) == name,
        stem(ext) == ext,
        stem(seq!['.'] + ext) == seq!['.'] + ext,
{
    lemma_last_dot(name + seq!['.'], ext);
    lemma_last_dot(Seq::empty(), ext);
    lemma_last_dot(seq!['.'], ext);
    assert(Seq::<char>::empty() + ext =~= ext);
    assert((name + seq!['.']).last() == '.');
    assert(last_dot(name + seq!['.']) == Some(name.len() as int));
    let all = name + seq!['.'] + ext;
    assert(all.subrange(0, name.len() as int) =~= name);
    assert(seq!['.'].last() == '.');
    assert(last_dot(seq!['.']) == Some(0int));
}

/// What holds no dot does not move the last one.
proof fn lemma_last_dot(a: Seq<char>, b: Seq<char>)
    requires
        !b.contains('.'),
    ensures
        last_dot(a + b) == last_dot(a),
    decreases b.len(),
{
    if b.len() == 0 {
        assert(a + b =~= a);
    } else {
        assert((a + b).drop_last() =~= a + b.drop_last());
        assert(b.contains(b[b.len() - 1]));
        assert(!b.drop_last().contains('.')) by {
            if b.drop_last().contains('.') {
                let k = choose|k: int| 0 <= k < b.drop_last().len() && b.drop_last()[k] == '.';
                assert(b[k] == '.');
            }
        }
        lemma_last_dot(a, b.drop_last());
    }
}

} // verus!
