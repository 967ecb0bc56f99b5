//! A JSON file as a small database: its rows, and the search over them.
use vstd::prelude::*;

use crate::cognition::{Score, ScoreView};
use crate::error::Error;
use crate::json::{elements, Json, JsonView, Number};
use crate::mcp::args::{given_number, given_text, opt_number, opt_str};
use crate::order::as_ints;
use crate::text::{
    ascii_lowered, cat3, contains, has_part, is_before, law_text_order_total,
    law_text_order_transitive, same_text, text_lt, to_ascii_lower,
};

verus! {

/// The rank of the score one half.
pub const RANK_HALF: i64 = 4_602_678_819_172_646_912;

/// A row as the file has it.
#[derive(Debug)]
pub struct RawRow {
    pub id: String,
    pub text: String,
    /// The score, when the file gives one.
    pub score: Option<Number>,
}

/// The view of an optional number.
pub open spec fn opt_number_view(n: Option<Number>) -> Option<JsonView> {
    match n {
        Some(x) => Some(x@),
        None => None,
    }
}

/// What is wrong with a row, if anything.
pub open spec fn row_fault(raw: JsonView) -> Option<Seq<char>> {
    if !(raw is Object) {
        Some("each db row must be an object"@)
    } else if given_text(raw, "id"@) is None {
        Some("db row missing `id`"@)
    } else if given_text(raw, "text"@) is None {
        Some("db row missing `text`"@)
    } else {
        None
    }
}

/// The row is what the raw value says.
pub open spec fn is_row_of(row: RawRow, raw: JsonView) -> bool {
    &&& given_text(raw, "id"@) == Some(row.id@)
    &&& given_text(raw, "text"@) == Some(row.text@)
    &&& opt_number_view(row.score) == given_number(raw, "score"@)
}

/// The first fault among the rows.
pub open spec fn rows_fault(v: Seq<JsonView>) -> Option<Seq<char>>
    decreases v.len(),
{
    if v.len() == 0 {
        None
    } else {
        match rows_fault(v.drop_last()) {
            Some(f) => Some(f),
            None => row_fault(v.last()),
        }
    }
}

/// The raw rows of a file: the file is an array of rows, or an object with
/// such an array under `documents`.
pub open spec fn raw_rows(file: JsonView) -> Option<Seq<JsonView>> {
    match file {
        JsonView::Array(v) => Some(v),
        JsonView::Object(_) => match file.get("documents"@) {
            Some(JsonView::Array(v)) => Some(v),
            _ => None,
        },
        _ => None,
    }
}

/// What is wrong with a file, if anything.
pub open spec fn file_fault(path: Seq<char>, file: JsonView) -> Option<Seq<char>> {
    match raw_rows(file) {
        Some(v) => rows_fault(v),
        None => if file is Object {
            Some("db file `"@ + path + "` must be an array or {\"documents\": [...]}"@)
        } else {
            Some("db file `"@ + path + "` must be a JSON array or object"@)
        },
    }
}

/// A copy of a number.
fn copy_number(n: &Number) -> (r: Number)
    ensures
        r@ == n@,
{
    match n {
        Number::PosInt(k) => Number::PosInt(*k),
        Number::NegInt(k) => Number::NegInt(*k),
        Number::Other(t) => Number::Other(t.clone()),
    }
}

/// Read one row.
fn parse_row(raw: &Json) -> (r: Result<RawRow, Error>)
    ensures
        match r {
            Ok(row) => row_fault(raw@) is None && is_row_of(row, raw@),
            Err(e) => e is InvalidInput && row_fault(raw@) == Some(e.text()),
        },
{
    if raw.as_object().is_none() {
        return Err(Error::InvalidInput("each db row must be an object".to_owned()));
    }
    let id: String = match opt_str(raw, "id") {
        Some(s) => s,
        None => {
            return Err(Error::InvalidInput("db row missing `id`".to_owned()));
        },
    };
    let text: String = match opt_str(raw, "text") {
        Some(s) => s,
        None => {
            return Err(Error::InvalidInput("db row missing `text`".to_owned()));
        },
    };
    let score: Option<Number> = match opt_number(raw, "score") {
        Some(n) => Some(copy_number(n)),
        None => None,
    };
    Ok(RawRow { id, text, score })
}

/// A fault among the first rows is the fault of all.
proof fn lemma_row_fault_stays(v: Seq<JsonView>, n: int)
    requires
        0 <= n <= v.len(),
        rows_fault(v.subrange(0, n)) is Some,
    ensures
        rows_fault(v) == rows_fault(v.subrange(0, n)),
    decreases v.len() - n,
{
    if n == v.len() {
        assert(v.subrange(0, n) == v);
    } else {
        assert(v.subrange(0, n + 1).drop_last() == v.subrange(0, n));
        lemma_row_fault_stays(v, n + 1);
    }
}

/// Read the rows of a file; `path` names it in messages.
pub fn parse_json_db(path: &str, file: &Json) -> (r: Result<Vec<RawRow>, Error>)
    ensures
        match r {
            Ok(v) => {
                &&& file_fault(path@, file@) is None
                &&& raw_rows(file@) matches Some(raw) && {
                    &&& v@.len() == raw.len()
                    &&& forall|i: int| 0 <= i < v@.len() ==> is_row_of(#[trigger] v@[i], raw[i])
                }
            },
            Err(e) => e is InvalidInput && file_fault(path@, file@) == Some(e.text()),
        },
{
    let list: &Vec<Json> = match file.as_array() {
        Some(v) => v,
        None => {
            if file.as_object().is_none() {
                return Err(
                    Error::InvalidInput(
                        cat3("db file `", path, "` must be a JSON array or object"),
                    ),
                );
            }
            let documents: Option<&Vec<Json>> = match file.get("documents") {
                Some(d) => d.as_array(),
                None => None,
            };
            match documents {
                Some(v) => v,
                None => {
                    return Err(
                        Error::InvalidInput(
                            cat3(
                                "db file `",
                                path,
                                "` must be an array or {\"documents\": [...]}",
                            ),
                        ),
                    );
                },
            }
        },
    };
    let ghost all = elements(list@);
    assert(raw_rows(file@) == Some(all));
    let mut v: Vec<RawRow> = Vec::new();
    let mut i: usize = 0;
    while i < list.len()
        invariant
            i <= list@.len(),
            all == elements(list@),
            raw_rows(file@) == Some(all),
            v@.len() == i,
            rows_fault(all.subrange(0, i as int)) is None,
            forall|k: int| 0 <= k < i ==> is_row_of(#[trigger] v@[k], all[k]),
        decreases list.len() - i,
    {
        let ghost now = all.subrange(0, i + 1);
        assert(now.drop_last() == all.subrange(0, i as int));
        assert(now.last() == list@[i as int]@);
        match parse_row(&list[i]) {
            Ok(row) => {
                v.push(row);
            },
            Err(e) => {
                proof {
                    lemma_row_fault_stays(all, i + 1);
                }
                return Err(e);
            },
        }
        i = i + 1;
    }
    assert(all.subrange(0, all.len() as int) == all);
    Ok(v)
}

/// A row that can be searched.
#[derive(Debug)]
pub struct JsonDbRow {
    pub id: String,
    pub text: String,
    pub score: Score,
}

/// The value of a row.
pub struct RowView {
    pub id: Seq<char>,
    pub text: Seq<char>,
    pub score: ScoreView,
}

impl View for JsonDbRow {
    type V = RowView;

    open spec fn view(&self) -> RowView {
        RowView { id: self.id@, text: self.text@, score: self.score@ }
    }
}

/// The values of a list of rows.
pub open spec fn row_views(v: Seq<JsonDbRow>) -> Seq<RowView> {
    Seq::new(v.len(), |i: int| v[i]@)
}

/// The score that a row counts with: between zero and one, one half when the
/// file gives none.
pub open spec fn counted_score(given: Option<ScoreView>) -> ScoreView {
    match given {
        Some(s) => s.clamped(),
        None => ScoreView { rank: RANK_HALF as int, digits: "0.5"@ },
    }
}

/// The view of an optional score.
pub open spec fn opt_score(s: Option<Score>) -> Option<ScoreView> {
    match s {
        Some(x) => Some(x@),
        None => None,
    }
}

/// Make a row searchable. `score` is the score that the file gives it.
pub fn scored_row(raw: RawRow, score: Option<Score>) -> (row: JsonDbRow)
    ensures
        row.id@ == raw.id@,
        row.text@ == raw.text@,
        row.score@ == counted_score(opt_score(score)),
{
    let score: Score = match score {
        Some(s) => s.clamped(),
        None => Score { rank: RANK_HALF, digits: "0.5".to_owned() },
    };
    JsonDbRow { id: raw.id, text: raw.text, score }
}

/// The row answers the query: the query occurs in its text, where ASCII
/// letters count without case. The empty query is answered by every row.
pub open spec fn answers(row: RowView, query: Seq<char>) -> bool {
    query.len() == 0 || has_part(ascii_lowered(row.text), ascii_lowered(query))
}

/// The row at index `i` ranks before the one at `j`: by higher score, then by
/// smaller id, then by place.
pub open spec fn precedes(rows: Seq<RowView>, i: int, j: int) -> bool {
    ||| rows[i].score.rank > rows[j].score.rank
    ||| rows[i].score.rank == rows[j].score.rank && text_lt(rows[i].id, rows[j].id)
    ||| rows[i].score.rank == rows[j].score.rank && rows[i].id == rows[j].id && i < j
}

/// `order` lists the rows that answer the query, by rank.
pub open spec fn is_ranking(rows: Seq<RowView>, query: Seq<char>, order: Seq<int>) -> bool {
    &&& forall|a: int, b: int|
        0 <= a < b < order.len() ==> precedes(rows, #[trigger] order[a], #[trigger] order[b])
    &&& forall|i: int| #[trigger]
        order.contains(i) <==> (0 <= i < rows.len() && answers(rows[i], query))
}

/// Ranks are transitive.
proof fn lemma_precedes_transitive(rows: Seq<RowView>, i: int, j: int, k: int)
    requires
        precedes(rows, i, j),
        precedes(rows, j, k),
    ensures
        precedes(rows, i, k),
{
    if text_lt(rows[i].id, rows[j].id) && text_lt(rows[j].id, rows[k].id) {
        law_text_order_transitive(rows[i].id, rows[j].id, rows[k].id);
    }
}

/// Of two rows exactly one ranks before the other.
proof fn lemma_precedes_total(rows: Seq<RowView>, i: int, j: int)
    ensures
        i != j ==> precedes(rows, i, j) || precedes(rows, j, i),
        !(precedes(rows, i, j) && precedes(rows, j, i)),
        !precedes(rows, i, i),
{
    law_text_order_total(rows[i].id, rows[j].id);
    law_text_order_total(rows[i].id, rows[i].id);
}

/// There is only one ranking of the rows that answer a query.
pub proof fn law_ranking_is_unique(rows: Seq<RowView>, query: Seq<char>, a: Seq<int>, b: Seq<int>)
    requires
        is_ranking(rows, query, a),
        is_ranking(rows, query, b),
    ensures
        a == b,
{
    lemma_same_order(rows, a, b);
}

/// Two lists in order of rank that hold the same rows are the same list.
proof fn lemma_same_order(rows: Seq<RowView>, a: Seq<int>, b: Seq<int>)
    requires
        forall|x: int, y: int|
            0 <= x < y < a.len() ==> precedes(rows, #[trigger] a[x], #[trigger] a[y]),
        forall|x: int, y: int|
            0 <= x < y < b.len() ==> precedes(rows, #[trigger] b[x], #[trigger] b[y]),
        forall|i: int| #[trigger] a.contains(i) <==> b.contains(i),
    ensures
        a == b,
    decreases a.len(),
{
    if a.len() == 0 {
        if b.len() > 0 {
            assert(b.contains(b[0]));
            assert(a.contains(b[0]));
        }
        assert(a =~= b);
    } else {
        assert(a.contains(a[0]));
        assert(b.len() > 0);
        assert(a.contains(a.last()) && b.contains(b.last()));
        assert(b.contains(a.last()) && a.contains(b.last()));
        let i = choose|i: int| 0 <= i < b.len() && b[i] == a.last();
        let j = choose|j: int| 0 <= j < a.len() && a[j] == b.last();
        lemma_precedes_total(rows, a.last(), b.last());
        if i < b.len() - 1 && j < a.len() - 1 {
            assert(precedes(rows, b[i], b[b.len() - 1]));
            assert(precedes(rows, a[j], a[a.len() - 1]));
        }
        assert(a.last() == b.last());
        let x = a.drop_last();
        let y = b.drop_last();
        assert forall|t: int| #[trigger] x.contains(t) <==> y.contains(t) by {
            lemma_precedes_total(rows, t, a.last());
            lemma_precedes_total(rows, t, t);
            if x.contains(t) {
                let k = choose|k: int| 0 <= k < x.len() && x[k] == t;
                assert(a[k] == t && precedes(rows, a[k], a[a.len() - 1]));
                assert(a.contains(t));
                let m = choose|m: int| 0 <= m < b.len() && b[m] == t;
                assert(y[m] == t);
            }
            if y.contains(t) {
                let k = choose|k: int| 0 <= k < y.len() && y[k] == t;
                assert(b[k] == t && precedes(rows, b[k], b[b.len() - 1]));
                assert(b.contains(t));
                assert(a.contains(t));
                let m = choose|m: int| 0 <= m < a.len() && a[m] == t;
                assert(x[m] == t);
            }
        }
        lemma_same_order(rows, x, y);
        assert(a =~= x.push(a.last()));
        assert(b =~= y.push(b.last()));
    }
}

/// Whether the row at index `i` ranks before the one at `j`.
fn ranks_before(rows: &Vec<JsonDbRow>, i: usize, j: usize) -> (r: bool)
    requires
        i < rows@.len(),
        j < rows@.len(),
    ensures
        r == precedes(row_views(rows@), i as int, j as int),
{
    let a: &JsonDbRow = &rows[i];
    let b: &JsonDbRow = &rows[j];
    assert(row_views(rows@)[i as int] == a@ && row_views(rows@)[j as int] == b@);
    if a.score.rank != b.score.rank {
        return a.score.rank > b.score.rank;
    }
    is_before(a.id.as_str(), b.id.as_str()) || (same_text(a.id.as_str(), b.id.as_str()) && i < j)
}

/// Whether the row answers a query that has been brought to small letters.
fn row_answers(row: &JsonDbRow, needle: &str, query: Ghost<Seq<char>>) -> (r: bool)
    requires
        needle@ == ascii_lowered(query@),
    ensures
        r == answers(row@, query@),
{
    if needle.is_empty() {
        return true;
    }
    let low: String = to_ascii_lower(row.text.as_str());
    contains(low.as_str(), needle)
}

/// The indices of the rows that answer the query, by rank.
pub fn rank_rows(rows: &Vec<JsonDbRow>, query: &str) -> (v: Vec<usize>)
    ensures
        is_ranking(row_views(rows@), query@, as_ints(v@)),
{
    let needle: String = to_ascii_lower(query);
    let ghost all = row_views(rows@);
    let mut v: Vec<usize> = Vec::new();
    let mut i: usize = 0;
    while i < rows.len()
        invariant
            i <= rows@.len(),
            all == row_views(rows@),
            needle@ == ascii_lowered(query@),
            forall|p: int| 0 <= p < v@.len() ==> (#[trigger] v@[p]) < i,
            forall|a: int, b: int|
                0 <= a < b < v@.len() ==> precedes(
                    all,
                    #[trigger] as_ints(v@)[a],
                    #[trigger] as_ints(v@)[b],
                ),
            forall|k: int| #[trigger]
                as_ints(v@).contains(k) <==> (0 <= k < i && answers(all[k], query@)),
        decreases rows.len() - i,
    {
        assert(all[i as int] == rows@[i as int]@);
        if row_answers(&rows[i], needle.as_str(), Ghost(query@)) {
            insert_by_rank(rows, &mut v, i);
        }
        i = i + 1;
    }
    v
}

/// Insert the index `i` at its place by rank.
fn insert_by_rank(rows: &Vec<JsonDbRow>, v: &mut Vec<usize>, i: usize)
    requires
        i < rows@.len(),
        forall|p: int| 0 <= p < old(v)@.len() ==> (#[trigger] old(v)@[p]) < i,
        forall|a: int, b: int|
            0 <= a < b < old(v)@.len() ==> precedes(
                row_views(rows@),
                #[trigger] as_ints(old(v)@)[a],
                #[trigger] as_ints(old(v)@)[b],
            ),
    ensures
        forall|p: int| 0 <= p < final(v)@.len() ==> (#[trigger] final(v)@[p]) <= i,
        forall|a: int, b: int|
            0 <= a < b < final(v)@.len() ==> precedes(
                row_views(rows@),
                #[trigger] as_ints(final(v)@)[a],
                #[trigger] as_ints(final(v)@)[b],
            ),
        forall|k: int| #[trigger]
            as_ints(final(v)@).contains(k) <==> (as_ints(old(v)@).contains(k) || k == i),
{
    let ghost all = row_views(rows@);
    let ghost before = as_ints(v@);
    let mut p: usize = 0;
    while p < v.len() && ranks_before(rows, v[p], i)
        invariant
            p <= v@.len(),
            i < rows@.len(),
            all == row_views(rows@),
            before == as_ints(v@),
            forall|q: int| 0 <= q < v@.len() ==> (#[trigger] v@[q]) < i,
            forall|q: int| 0 <= q < p ==> precedes(all, #[trigger] before[q], i as int),
        decreases v.len() - p,
    {
        assert(before[p as int] == v@[p as int]);
        p = p + 1;
    }
    proof {
        if p < before.len() {
            assert(before[p as int] == v@[p as int]);
            lemma_precedes_total(all, before[p as int], i as int);
        }
    }
    v.insert(p, i);
    proof {
        let after = as_ints(v@);
        assert(after =~= before.insert(p as int, i as int));
        assert forall|a: int, b: int| 0 <= a < b < after.len() implies precedes(
            all,
            #[trigger] after[a],
            #[trigger] after[b],
        ) by {
            if a < p && b > p {
                assert(after[b] == before[b - 1]);
                assert(after[a] == before[a]);
            } else if a == p {
                assert(after[b] == before[b - 1]);
                if b - 1 > p {
                    assert(precedes(all, before[p as int], before[b - 1]));
                    lemma_precedes_transitive(all, i as int, before[p as int], before[b - 1]);
                }
            } else if a > p {
                assert(after[a] == before[a - 1]);
                assert(after[b] == before[b - 1]);
            } else {
                assert(after[a] == before[a]);
                if b < p {
                    assert(after[b] == before[b]);
                }
            }
        }
        assert forall|k: int| #[trigger]
            after.contains(k) <==> (before.contains(k) || k == i) by {
            if before.contains(k) {
                let q = choose|q: int| 0 <= q < before.len() && before[q] == k;
                assert(after[if q < p {
                    q
                } else {
                    q + 1
                }] == k);
            }
            if k == i {
                assert(after[p as int] == k);
            }
            if after.contains(k) && k != i {
                let q = choose|q: int| 0 <= q < after.len() && after[q] == k;
                assert(before[if q < p {
                    q
                } else {
                    q - 1
                }] == k);
            }
        }
    }
}

/// A row found by a search.
#[derive(Debug)]
pub struct ExternalHit {
    pub id: String,
    pub text: String,
    pub score: Score,
    /// Where the hit comes from.
    pub source: String,
}

/// The hit shows the row.
pub open spec fn shows(hit: ExternalHit, row: RowView) -> bool {
    hit.id@ == row.id && hit.text@ == row.text && hit.score@ == row.score && hit.source@ == "db"@
}

/// The hits show the first rows of a ranking, at most `limit` of them.
pub open spec fn shows_best(
    hits: Seq<ExternalHit>,
    rows: Seq<RowView>,
    order: Seq<int>,
    limit: nat,
) -> bool {
    &&& hits.len() == (if order.len() < limit {
        order.len()
    } else {
        limit
    })
    &&& forall|k: int| 0 <= k < hits.len() ==> shows(#[trigger] hits[k], rows[order[k]])
}

/// The rows that answer the query, best first, at most `limit` of them.
pub fn search_json_db(rows: &Vec<JsonDbRow>, query: &str, limit: usize) -> (hits: Vec<ExternalHit>)
    ensures
        exists|order: Seq<int>| #[trigger]
            is_ranking(row_views(rows@), query@, order) && shows_best(
                hits@,
                row_views(rows@),
                order,
                limit as nat,
            ),
{
    let order: Vec<usize> = rank_rows(rows, query);
    let ghost all = row_views(rows@);
    let ghost ranking = as_ints(order@);
    let mut hits: Vec<ExternalHit> = Vec::new();
    while hits.len() < limit && hits.len() < order.len()
        invariant
            hits@.len() <= limit,
            hits@.len() <= order@.len(),
            all == row_views(rows@),
            ranking == as_ints(order@),
            is_ranking(all, query@, ranking),
            forall|k: int| 0 <= k < hits@.len() ==> shows(#[trigger] hits@[k], all[ranking[k]]),
        decreases order.len() - hits.len(),
    {
        let i: usize = order[hits.len()];
        assert(ranking[hits@.len() as int] == i);
        assert(ranking.contains(i as int));
        let row: &JsonDbRow = &rows[i];
        assert(all[i as int] == row@);
        hits.push(
            ExternalHit {
                id: row.id.as_str().to_owned(),
                text: row.text.as_str().to_owned(),
                score: row.score.copy(),
                source: "db".to_owned(),
            },
        );
    }
    assert(shows_best(hits@, all, ranking, limit as nat));
    hits
}

/// A search shows the best rows that answer it: as many as were asked for, or
/// all that answer; each has the query in its text; a row with a higher score,
/// and of equal scores one with a smaller id, comes first; and no row that
/// answers and is not shown has a higher score than one that is.
pub proof fn law_search_shows_the_best(
    hits: Seq<ExternalHit>,
    rows: Seq<RowView>,
    query: Seq<char>,
    order: Seq<int>,
    limit: nat,
)
    requires
        is_ranking(rows, query, order),
        shows_best(hits, rows, order, limit),
    ensures
        hits.len() <= limit,
        hits.len() < limit ==> forall|i: int|
            0 <= i < rows.len() && answers(#[trigger] rows[i], query) ==> exists|k: int|
                0 <= k < hits.len() && (#[trigger] hits[k]).id@ == rows[i].id && hits[k].text@
                    == rows[i].text,
        forall|k: int|
            0 <= k < hits.len() ==> query.len() == 0 || has_part(
                ascii_lowered((#[trigger] hits[k]).text@),
                ascii_lowered(query),
            ),
        forall|a: int, b: int|
            0 <= a < b < hits.len() ==> (#[trigger] hits[a]).score.rank > (
            #[trigger] hits[b]).score.rank || (hits[a].score.rank == hits[b].score.rank && (text_lt(
                hits[a].id@,
                hits[b].id@,
            ) || hits[a].id@ == hits[b].id@)),
        forall|i: int, k: int|
            #![trigger rows[i], hits[k]]
            0 <= i < rows.len() && answers(rows[i], query) && 0 <= k < hits.len()
                && rows[i].score.rank > hits[k].score.rank ==> exists|j: int|
                0 <= j < k && (#[trigger] hits[j]).id@ == rows[i].id && hits[j].text@
                    == rows[i].text && hits[j].score@ == rows[i].score,
{
    assert forall|k: int| 0 <= k < hits.len() implies query.len() == 0 || has_part(
        ascii_lowered((#[trigger] hits[k]).text@),
        ascii_lowered(query),
    ) by {
        assert(shows(hits[k], rows[order[k]]));
        assert(order.contains(order[k]));
    }
    assert forall|a: int, b: int| 0 <= a < b < hits.len() implies (#[trigger] hits[a]).score.rank
        > (#[trigger] hits[b]).score.rank || (hits[a].score.rank == hits[b].score.rank && (text_lt(
        hits[a].id@,
        hits[b].id@,
    ) || hits[a].id@ == hits[b].id@)) by {
        assert(shows(hits[a], rows[order[a]]) && shows(hits[b], rows[order[b]]));
        assert(precedes(rows, order[a], order[b]));
        assert(hits[a].score@.rank == hits[a].score.rank);
        assert(hits[b].score@.rank == hits[b].score.rank);
    }
    assert forall|i: int| 0 <= i < rows.len() && answers(#[trigger] rows[i], query) implies exists|
        p: int,
    | 0 <= p < order.len() && #[trigger] order[p] == i by {
        assert(order.contains(i));
        let p = choose|p: int| 0 <= p < order.len() && order[p] == i;
        assert(order[p] == i);
    }
    assert forall|i: int, k: int|
        #![trigger rows[i], hits[k]]
        0 <= i < rows.len() && answers(rows[i], query) && 0 <= k < hits.len() && rows[i].score.rank
            > hits[k].score.rank implies exists|j: int|
        0 <= j < k && (#[trigger] hits[j]).id@ == rows[i].id && hits[j].text@ == rows[i].text
            && hits[j].score@ == rows[i].score by {
        let p = choose|p: int| 0 <= p < order.len() && #[trigger] order[p] == i;
        assert(shows(hits[k], rows[order[k]]));
        assert(hits[k].score@.rank == hits[k].score.rank);
        if p > k {
            assert(precedes(rows, order[k], order[p]));
        }
        assert(p < k);
        assert(shows(hits[p], rows[order[p]]));
        assert(hits[p].id@ == rows[i].id);
    }
    if hits.len() < limit {
        assert forall|i: int| 0 <= i < rows.len() && answers(#[trigger] rows[i], query) implies
            exists|k: int|
            0 <= k < hits.len() && (#[trigger] hits[k]).id@ == rows[i].id && hits[k].text@
                == rows[i].text by {
            let p = choose|p: int| 0 <= p < order.len() && #[trigger] order[p] == i;
            assert(shows(hits[p], rows[order[p]]));
            assert(hits[p].id@ == rows[i].id);
        }
    }
}

/// A row answers what stands in its text, whatever the case of ASCII letters in
/// either, and it answers the empty query.
pub proof fn law_case_does_not_matter(row: RowView, query: Seq<char>, other: Seq<char>)
    ensures
        has_part(row.text, query) ==> answers(row, query),
        ascii_lowered(query) == ascii_lowered(other) ==> answers(row, query) == answers(row, other),
        query.len() == 0 ==> answers(row, query),
        query.len() > 0 && !has_part(ascii_lowered(row.text), ascii_lowered(query)) ==> !answers(
            row,
            query,
        ),
{
    if has_part(row.text, query) {
        let at = choose|at: int| crate::text::occurs_at(row.text, query, at);
        assert(ascii_lowered(row.text).subrange(at, at + query.len()) =~= ascii_lowered(query)) by {
            assert forall|i: int| 0 <= i < query.len() implies ascii_lowered(row.text).subrange(
                at,
                at + query.len(),
            )[i] == ascii_lowered(query)[i] by {
                assert(row.text.subrange(at, at + query.len())[i] == query[i]);
            }
        }
        assert(crate::text::occurs_at(ascii_lowered(row.text), ascii_lowered(query), at));
    }
    assert(ascii_lowered(query).len() == query.len());
    assert(ascii_lowered(other).len() == other.len());
}

/// A score from zero to one counts as it is, what lies outside counts as the
/// nearest end, and a row without one counts as one half.
pub proof fn law_scores_are_held_to_their_range(s: ScoreView)
    ensures
        0 <= s.rank <= 4_607_182_418_800_017_408 ==> counted_score(Some(s)) == s,
        s.rank < 0 ==> counted_score(Some(s)).rank == 0,
        s.rank > 4_607_182_418_800_017_408 ==> counted_score(Some(s)).rank
            == 4_607_182_418_800_017_408,
        counted_score(None).rank == 4_602_678_819_172_646_912,
        counted_score(None).digits == "0.5"@,
{
}

/// A file passes exactly when it is a list of rows, or has one under
/// `documents`, and each row is an object with an id and a text.
pub proof fn law_rows_need_id_and_text(path: Seq<char>, file: JsonView, v: Seq<JsonView>)
    requires
        file == JsonView::Array(v) || (file is Object && file.get("documents"@) == Some(
            JsonView::Array(v),
        )),
    ensures
        file_fault(path, file) is None <==> forall|i: int|
            0 <= i < v.len() ==> (#[trigger] v[i]) is Object && given_text(v[i], "id"@) is Some
                && given_text(v[i], "text"@) is Some,
        raw_rows(file) == Some(v),
{
    lemma_rows_fault(v);
}

/// Rows pass exactly when each does.
proof fn lemma_rows_fault(v: Seq<JsonView>)
    ensures
        rows_fault(v) is None <==> forall|i: int|
            0 <= i < v.len() ==> (#[trigger] v[i]) is Object && given_text(v[i], "id"@) is Some
                && given_text(v[i], "text"@) is Some,
    decreases v.len(),
{
    if v.len() > 0 {
        let front = v.drop_last();
        lemma_rows_fault(front);
        assert(v[v.len() - 1] == v.last());
        assert forall|k: int| 0 <= k < front.len() implies #[trigger] v[k] == front[k] by {}
        assert forall|k: int| 0 <= k < front.len() implies #[trigger] front[k] == v[k] by {}
    }
}

} // verus!
