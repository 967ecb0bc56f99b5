//! Persona cards: what an agent has said of itself, gathered for a system
//! prompt, and joined with a card written by hand.
use vstd::prelude::*;

use crate::clock::unix_seconds;
use crate::cognition::{fact_views, Fact, FactType, FactView};
use crate::error::Error;
use crate::json::{
    elements, lookup, members, object, strings, text_array, Json, JsonView,
};
use crate::persona::check::{
    content_of, filter_persona_facts, persona_only, ref_views, tagged_as_persona,
};
use crate::persona::timeline::{first_where, last_where};
use crate::text::{cat3, same_text, texts};

verus! {

/// Where the cards written by hand are kept, below the directory of resources.
pub const PERSONA_CARDS_PATH: &'static str = "config/persona_cards.json";

/// How many statements of a facet a card holds.
pub const MAX_PERSONA_ITEMS: usize = 5;

/// A persona card of one agent.
#[derive(Debug)]
pub struct PersonaCard {
    pub agent_id: String,
    pub tenant_id: String,
    /// Who the agent is, in one line.
    pub identity: String,
    /// Likes, feelings and aims.
    pub persona: Vec<String>,
    /// Notes on style; only ever written by hand.
    pub style: Vec<String>,
    /// What must not be said; only ever written by hand.
    pub taboos: Vec<String>,
    /// The relationship to the user.
    pub relationship: Json,
    /// When the card was built, in seconds since the Unix epoch.
    pub built_at: i64,
}

/// The value of a card.
pub struct CardView {
    pub agent_id: Seq<char>,
    pub tenant_id: Seq<char>,
    pub identity: Seq<char>,
    pub persona: Seq<Seq<char>>,
    pub style: Seq<Seq<char>>,
    pub taboos: Seq<Seq<char>>,
    pub relationship: JsonView,
    pub built_at: i64,
}

impl View for PersonaCard {
    type V = CardView;

    open spec fn view(&self) -> CardView {
        CardView {
            agent_id: self.agent_id@,
            tenant_id: self.tenant_id@,
            identity: self.identity@,
            persona: texts(self.persona@),
            style: texts(self.style@),
            taboos: texts(self.taboos@),
            relationship: self.relationship@,
            built_at: self.built_at,
        }
    }
}

/// A fact that says who the agent is.
pub open spec fn states_identity(f: FactView) -> bool {
    f.fact_type is Identity && content_of(f).len() > 0
}

/// A fact that says who the agent is, and not who it is not.
pub open spec fn affirms_identity(f: FactView) -> bool {
    states_identity(f) && !f.flag("negated"@)
}

/// The identity of a card: the newest that is affirmed, else the oldest.
pub open spec fn card_identity(persona: Seq<FactView>) -> Seq<char> {
    match last_where(persona, |f: FactView| affirms_identity(f)) {
        Some(f) => content_of(f),
        None => match first_where(persona, |f: FactView| states_identity(f)) {
            Some(f) => content_of(f),
            None => Seq::empty(),
        },
    }
}

/// The facets that make up the persona of a card.
pub open spec fn is_persona_facet(t: FactType) -> bool {
    t is Preference || t is Emotion || t is Goal
}

/// The statements of the facts whose facet is wanted, newest first, each once,
/// added to what is there as long as there is room.
pub open spec fn gathered(
    v: Seq<FactView>,
    wanted: spec_fn(FactType) -> bool,
    there: Seq<Seq<char>>,
) -> Seq<Seq<char>>
    decreases v.len(),
{
    if v.len() == 0 {
        there
    } else {
        let f = v.last();
        let c = content_of(f);
        gathered(
            v.drop_last(),
            wanted,
            if wanted(f.fact_type) && c.len() > 0 && there.len() < MAX_PERSONA_ITEMS
                && !there.contains(c) {
                there.push(c)
            } else {
                there
            },
        )
    }
}

/// The card of an agent with these facts.
pub open spec fn card_of(
    tenant_id: Seq<char>,
    agent_id: Seq<char>,
    facts: Seq<FactView>,
    built_at: i64,
) -> CardView {
    let persona = persona_only(facts);
    let bonds = gathered(persona, |t: FactType| t is Relationship, Seq::empty());
    CardView {
        agent_id,
        tenant_id,
        identity: card_identity(persona),
        persona: gathered(persona, |t: FactType| is_persona_facet(t), Seq::empty()),
        style: Seq::empty(),
        taboos: Seq::empty(),
        relationship: if bonds.len() == 0 {
            JsonView::Null
        } else {
            text_array(bonds)
        },
        built_at,
    }
}

/// Whether a text is in the list.
fn is_listed(v: &Vec<String>, s: &str) -> (r: bool)
    ensures
        r == texts(v@).contains(s@),
{
    let ghost all = texts(v@);
    let mut i: usize = 0;
    while i < v.len()
        invariant
            i <= v@.len(),
            all == texts(v@),
            forall|k: int| 0 <= k < i ==> #[trigger] all[k] != s@,
        decreases v.len() - i,
    {
        assert(all[i as int] == v@[i as int]@);
        if same_text(v[i].as_str(), s) {
            return true;
        }
        i = i + 1;
    }
    false
}

/// Add a statement if there is room and it is new.
fn add_statement(v: &mut Vec<String>, s: &str)
    ensures
        texts(final(v)@) == (if texts(old(v)@).len() < MAX_PERSONA_ITEMS && !texts(
            old(v)@,
        ).contains(s@) {
            texts(old(v)@).push(s@)
        } else {
            texts(old(v)@)
        }),
{
    let ghost before = texts(v@);
    if v.len() < MAX_PERSONA_ITEMS && !is_listed(v, s) {
        v.push(s.to_owned());
        assert(texts(v@) =~= before.push(s@));
    }
}

/// Build the card of an agent from its facts, at a given time. The facts stand
/// in order of time.
pub fn build_persona_card_at(
    tenant_id: &str,
    agent_id: &str,
    facts: &Vec<Fact>,
    built_at: i64,
) -> (card: PersonaCard)
    ensures
        card@ == card_of(tenant_id@, agent_id@, fact_views(facts@), built_at),
{
    let persona_facts: Vec<&Fact> = filter_persona_facts(facts);
    let ghost all = ref_views(persona_facts@);
    let ghost affirmed = |f: FactView| affirms_identity(f);
    let ghost stated = |f: FactView| states_identity(f);
    let ghost facet = |t: FactType| is_persona_facet(t);
    let ghost bond = |t: FactType| t is Relationship;
    let mut identity: Option<String> = None;
    let mut oldest: Option<String> = None;
    let mut persona: Vec<String> = Vec::new();
    let mut relationship: Vec<String> = Vec::new();
    let mut i: usize = persona_facts.len();
    assert(all.subrange(0, all.len() as int) == all);
    assert(texts(persona@) =~= Seq::empty());
    assert(texts(relationship@) =~= Seq::empty());
    let ghost start: Seq<Seq<char>> = Seq::empty();
    assert(all.subrange(all.len() as int, all.len() as int) =~= Seq::empty());
    while i > 0
        invariant
            i <= persona_facts@.len() == all.len(),
            all == ref_views(persona_facts@),
            affirmed == (|f: FactView| affirms_identity(f)),
            stated == (|f: FactView| states_identity(f)),
            facet == (|t: FactType| is_persona_facet(t)),
            bond == (|t: FactType| t is Relationship),
            start == Seq::<Seq<char>>::empty(),
            gathered(all, facet, start) == gathered(
                all.subrange(0, i as int),
                facet,
                texts(persona@),
            ),
            gathered(all, bond, start) == gathered(
                all.subrange(0, i as int),
                bond,
                texts(relationship@),
            ),
            match identity {
                Some(s) => last_where(all, affirmed) matches Some(f) && content_of(f) == s@,
                None => last_where(all, affirmed) == last_where(
                    all.subrange(0, i as int),
                    affirmed,
                ),
            },
            match oldest {
                Some(s) => first_where(all.subrange(i as int, all.len() as int), stated) matches Some(
                    f,
                ) && content_of(f) == s@,
                None => first_where(all.subrange(i as int, all.len() as int), stated) is None,
            },
        decreases i,
    {
        let fact: &Fact = persona_facts[i - 1];
        let ghost now = all.subrange(0, i as int);
        assert(now.drop_last() == all.subrange(0, i - 1));
        assert(now.last() == fact@);
        proof {
            lemma_first_from(all, i - 1, stated);
        }
        let content: &str = match fact.text_of("content") {
            Some(s) => s,
            None => "",
        };
        proof {
            reveal_strlit("");
            assert(content@ == content_of(fact@));
        }
        if !content.is_empty() {
            match fact.fact_type {
                FactType::Identity => {
                    oldest = Some(content.to_owned());
                    if identity.is_none() && !fact.flag("negated") {
                        identity = Some(content.to_owned());
                    }
                },
                FactType::Preference | FactType::Emotion | FactType::Goal => {
                    add_statement(&mut persona, content);
                },
                FactType::Relationship => {
                    add_statement(&mut relationship, content);
                },
                _ => {},
            }
        }
        i = i - 1;
    }
    assert(all.subrange(0, all.len() as int) == all);
    assert(all.subrange(0, 0).len() == 0);
    let who: String = match identity {
        Some(s) => s,
        None => match oldest {
            Some(s) => s,
            None => String::new(),
        },
    };
    let bonds: Json = if relationship.len() == 0 {
        Json::Null
    } else {
        strings(&relationship)
    };
    let card = PersonaCard {
        agent_id: agent_id.to_owned(),
        tenant_id: tenant_id.to_owned(),
        identity: who,
        persona,
        style: Vec::new(),
        taboos: Vec::new(),
        relationship: bonds,
        built_at,
    };
    assert(card@.style =~= Seq::empty());
    assert(card@.taboos =~= Seq::empty());
    card
}

/// The first match from index `n` on: the fact there, or the first behind it.
proof fn lemma_first_from(v: Seq<FactView>, n: int, p: spec_fn(FactView) -> bool)
    requires
        0 <= n < v.len(),
    ensures
        first_where(v.subrange(n, v.len() as int), p) == (if p(v[n]) {
            Some(v[n])
        } else {
            first_where(v.subrange(n + 1, v.len() as int), p)
        }),
{
    lemma_first_prepend(v[n], v.subrange(n + 1, v.len() as int), p);
    assert(v.subrange(n, v.len() as int) == seq![v[n]] + v.subrange(n + 1, v.len() as int));
}

/// The first match in a sequence with one fact put in front.
proof fn lemma_first_prepend(f: FactView, v: Seq<FactView>, p: spec_fn(FactView) -> bool)
    ensures
        first_where(seq![f] + v, p) == (if p(f) {
            Some(f)
        } else {
            first_where(v, p)
        }),
    decreases v.len(),
{
    let s = seq![f] + v;
    reveal_with_fuel(first_where, 2);
    if v.len() == 0 {
        assert(s.drop_last().len() == 0);
        assert(s.last() == f);
    } else {
        lemma_first_prepend(f, v.drop_last(), p);
        assert(s.drop_last() == seq![f] + v.drop_last());
        assert(s.last() == v.last());
    }
}

/// Build the card of an agent from its facts, as of now.
pub fn build_persona_card_from_facts(tenant_id: &str, agent_id: &str, facts: &Vec<Fact>) -> (card:
    PersonaCard)
    ensures
        card@ == card_of(tenant_id@, agent_id@, fact_views(facts@), card.built_at),
{
    build_persona_card_at(tenant_id, agent_id, facts, unix_seconds())
}

/// The cards written by hand, from what reading their file gave: nothing at
/// all when there is no file.
pub fn load_persona_cards(read: Result<Option<Json>, Error>) -> (r: Result<Json, Error>)
    ensures
        match read {
            Ok(Some(j)) => r == Ok::<Json, Error>(j),
            Ok(None) => r matches Ok(j) && j@ == JsonView::Object(Seq::empty()),
            Err(e) => r == Err::<Json, Error>(e),
        },
{
    match read {
        Ok(Some(j)) => Ok(j),
        Ok(None) => {
            let none: Json = object(Vec::new());
            assert(none@->Object_0 =~= Seq::empty());
            Ok(none)
        },
        Err(e) => Err(e),
    }
}

/// The card of an agent among the cards.
pub open spec fn card_entry(cards: JsonView, tenant_id: Seq<char>, agent_id: Seq<char>) -> Option<
    JsonView,
> {
    match cards.get(tenant_id) {
        Some(t) => t.get(agent_id),
        None => None,
    }
}

/// The card of an agent among the cards written by hand.
pub fn lookup_persona_card(cards: &Json, tenant_id: &str, agent_id: &str) -> (r: Option<Json>)
    ensures
        match r {
            Some(j) => card_entry(cards@, tenant_id@, agent_id@) == Some(j@),
            None => card_entry(cards@, tenant_id@, agent_id@) is None,
        },
{
    match cards.get(tenant_id) {
        Some(tenant) => match tenant.get(agent_id) {
            Some(card) => Some(card.copy()),
            None => None,
        },
        None => None,
    }
}

/// The strings that a value holds: those of an array, or the one it is.
pub open spec fn string_list(v: JsonView) -> Seq<Seq<char>> {
    match v {
        JsonView::Array(items) => crate::mcp::server::string_entries(items),
        JsonView::Text(s) => seq![s],
        _ => Seq::empty(),
    }
}

/// The strings that a value holds.
pub fn value_str_array(v: &Json) -> (r: Vec<String>)
    ensures
        texts(r@) == string_list(v@),
{
    let mut r: Vec<String> = Vec::new();
    assert(texts(r@) =~= Seq::empty());
    match v.as_array() {
        Some(items) => {
            let ghost all = elements(items@);
            let mut i: usize = 0;
            while i < items.len()
                invariant
                    i <= items@.len(),
                    all == elements(items@),
                    texts(r@) == crate::mcp::server::string_entries(all.subrange(0, i as int)),
                decreases items.len() - i,
            {
                let ghost before = texts(r@);
                let ghost now = all.subrange(0, i + 1);
                assert(now.drop_last() == all.subrange(0, i as int));
                assert(now.last() == items@[i as int]@);
                match items[i].as_str() {
                    Some(s) => {
                        r.push(s.to_owned());
                        assert(texts(r@) =~= before.push(s@));
                    },
                    None => {},
                }
                i = i + 1;
            }
            assert(all.subrange(0, all.len() as int) == all);
        },
        None => match v.as_str() {
            Some(s) => {
                r.push(s.to_owned());
                assert(texts(r@) =~= seq![s@]);
            },
            None => {},
        },
    }
    r
}

/// `a` followed by what of `b` is not there yet.
pub open spec fn union(a: Seq<Seq<char>>, b: Seq<Seq<char>>) -> Seq<Seq<char>>
    decreases b.len(),
{
    if b.len() == 0 {
        a
    } else {
        let u = union(a, b.drop_last());
        if u.contains(b.last()) {
            u
        } else {
            u.push(b.last())
        }
    }
}

/// The first `n`, or all when there are fewer.
pub open spec fn at_most(v: Seq<Seq<char>>, n: int) -> Seq<Seq<char>> {
    if v.len() <= n {
        v
    } else {
        v.subrange(0, n)
    }
}

/// The strings of a file's entry, if it has any.
pub open spec fn file_strings(file: JsonView, key: Seq<char>) -> Seq<Seq<char>> {
    match file.get(key) {
        Some(v) => string_list(v),
        None => Seq::empty(),
    }
}

/// The members with one set: its value replaced where the key is there, and
/// else added.
pub open spec fn with_member(
    m: Seq<(Seq<char>, JsonView)>,
    key: Seq<char>,
    value: JsonView,
) -> Seq<(Seq<char>, JsonView)>
    decreases m.len(),
{
    if m.len() == 0 {
        seq![(key, value)]
    } else if m[0].0 == key {
        seq![(key, value)] + m.subrange(1, m.len() as int)
    } else {
        seq![m[0]] + with_member(m.subrange(1, m.len() as int), key, value)
    }
}

/// The members with those of another object set, one after the other.
pub open spec fn with_members(
    m: Seq<(Seq<char>, JsonView)>,
    more: Seq<(Seq<char>, JsonView)>,
) -> Seq<(Seq<char>, JsonView)>
    decreases more.len(),
{
    if more.len() == 0 {
        m
    } else {
        with_member(with_members(m, more.drop_last()), more.last().0, more.last().1)
    }
}

/// The relationship after a file's entry: two objects are joined, and an object
/// is taken over where nothing was learned. Learned statements stay as they
/// are, and anything else in the file changes nothing.
pub open spec fn merged_relationship(base: JsonView, file: Option<JsonView>) -> JsonView {
    match file {
        Some(JsonView::Object(more)) => match base {
            JsonView::Object(m) => JsonView::Object(with_members(m, more)),
            JsonView::Null => JsonView::Object(more),
            _ => base,
        },
        _ => base,
    }
}

/// One of the statements is in the list.
pub open spec fn holds_one_of(v: Seq<Seq<char>>, statements: Seq<Seq<char>>) -> bool {
    exists|k: int| 0 <= k < statements.len() && v.contains(#[trigger] statements[k])
}

/// The lines written by hand and behind them the learned statements, cut at the
/// most that a card holds. When that would leave none of what was learned, one
/// place is kept for it.
pub open spec fn joined_persona(
    file: Seq<Seq<char>>,
    learned: Seq<Seq<char>>,
) -> Seq<Seq<char>> {
    let cut = at_most(union(file, learned), 2 * MAX_PERSONA_ITEMS);
    if learned.len() == 0 || holds_one_of(cut, learned) {
        cut
    } else {
        at_most(
            union(at_most(file, 2 * MAX_PERSONA_ITEMS - 1), learned),
            2 * MAX_PERSONA_ITEMS,
        )
    }
}

/// A card joined with one written by hand: what the file states is pinned or
/// put first, and what was learned is never replaced as a whole.
pub open spec fn merged_card(base: CardView, file: JsonView) -> CardView {
    CardView {
        identity: match file.get("identity"@) {
            Some(JsonView::Text(s)) => if s.len() > 0 {
                s
            } else {
                base.identity
            },
            _ => base.identity,
        },
        persona: if file_strings(file, "persona"@).len() > 0 {
            joined_persona(file_strings(file, "persona"@), base.persona)
        } else {
            base.persona
        },
        style: if file_strings(file, "style"@).len() > 0 {
            file_strings(file, "style"@)
        } else {
            base.style
        },
        taboos: if file_strings(file, "taboos"@).len() > 0 {
            file_strings(file, "taboos"@)
        } else {
            base.taboos
        },
        relationship: merged_relationship(base.relationship, file.get("relationship"@)),
        ..base
    }
}

/// The strings of a file's entry.
fn strings_of(file: &Json, key: &str) -> (r: Vec<String>)
    ensures
        texts(r@) == file_strings(file@, key@),
{
    match file.get(key) {
        Some(v) => value_str_array(v),
        None => {
            let r: Vec<String> = Vec::new();
            assert(texts(r@) =~= Seq::empty());
            r
        },
    }
}

/// Set a member of an object.
fn set_member(m: &mut Vec<(String, Json)>, key: &str, value: &Json)
    ensures
        members(final(m)@) == with_member(members(old(m)@), key@, value@),
{
    let ghost all = members(m@);
    let mut i: usize = 0;
    assert(all.subrange(0, all.len() as int) == all);
    assert(with_member(all, key@, value@) =~= all.subrange(0, 0) + with_member(all, key@, value@));
    while i < m.len()
        invariant
            i <= m@.len() == all.len(),
            all == members(m@),
            all == members(old(m)@),
            with_member(all, key@, value@) == all.subrange(0, i as int) + with_member(
                all.subrange(i as int, all.len() as int),
                key@,
                value@,
            ),
        decreases m.len() - i,
    {
        let ghost rest = all.subrange(i as int, all.len() as int);
        assert(rest[0] == all[i as int]);
        if same_text(m[i].0.as_str(), key) {
            m.set(i, (key.to_owned(), value.copy()));
            assert(members(m@) =~= with_member(all, key@, value@));
            return;
        }
        proof {
            let tail = all.subrange(i + 1, all.len() as int);
            assert(rest.subrange(1, rest.len() as int) == tail);
            let w = with_member(tail, key@, value@);
            assert(with_member(rest, key@, value@) == seq![all[i as int]] + w);
            assert(all.subrange(0, i as int) + (seq![all[i as int]] + w) =~= all.subrange(0, i + 1)
                + w);
        }
        i = i + 1;
    }
    m.push((key.to_owned(), value.copy()));
    assert(members(m@) =~= with_member(all, key@, value@));
}

/// Join the relationship of a card with that of a file.
fn merge_relationship(base: Json, file: Option<&Json>) -> (r: Json)
    ensures
        r@ == merged_relationship(
            base@,
            match file {
                Some(f) => Some(f@),
                None => None,
            },
        ),
{
    match file {
        None => base,
        Some(f) => match f.as_object() {
            None => base,
            Some(more) => match base {
                Json::Object(m) => {
                    proof {
                        crate::json::object_view(m);
                    }
                    let mut joined: Vec<(String, Json)> = m;
                    let ghost start = members(joined@);
                    let ghost all = members(more@);
                    let mut i: usize = 0;
                    while i < more.len()
                        invariant
                            i <= more@.len(),
                            all == members(more@),
                            members(joined@) == with_members(start, all.subrange(0, i as int)),
                        decreases more.len() - i,
                    {
                        let ghost now = all.subrange(0, i + 1);
                        assert(now.drop_last() == all.subrange(0, i as int));
                        assert(now.last() == all[i as int]);
                        set_member(&mut joined, more[i].0.as_str(), &more[i].1);
                        i = i + 1;
                    }
                    assert(all.subrange(0, all.len() as int) == all);
                    object(joined)
                },
                Json::Null => f.copy(),
                other => other,
            },
        },
    }
}

/// Add to a list what of another is not there yet.
fn unite(list: Vec<String>, more: &Vec<String>) -> (r: Vec<String>)
    ensures
        texts(r@) == union(texts(list@), texts(more@)),
{
    let ghost first = texts(list@);
    let ghost all = texts(more@);
    let mut r: Vec<String> = list;
    let mut i: usize = 0;
    while i < more.len()
        invariant
            i <= more@.len(),
            all == texts(more@),
            texts(r@) == union(first, all.subrange(0, i as int)),
        decreases more.len() - i,
    {
        let ghost before = texts(r@);
        let ghost now = all.subrange(0, i + 1);
        assert(now.drop_last() == all.subrange(0, i as int));
        assert(now.last() == more@[i as int]@);
        if !is_listed(&r, more[i].as_str()) {
            r.push(more[i].clone());
            assert(texts(r@) =~= before.push(more@[i as int]@));
        }
        i = i + 1;
    }
    assert(all.subrange(0, all.len() as int) == all);
    r
}

/// Keep the first `n`, or all when there are fewer.
fn keep_first(v: &mut Vec<String>, n: usize)
    ensures
        texts(final(v)@) == at_most(texts(old(v)@), n as int),
{
    let ghost full = texts(v@);
    v.truncate(n);
    assert(texts(v@) =~= at_most(full, n as int));
}

/// Whether one of the statements is in the list.
fn lists_one_of(v: &Vec<String>, statements: &Vec<String>) -> (r: bool)
    ensures
        r == holds_one_of(texts(v@), texts(statements@)),
{
    let ghost all = texts(statements@);
    let mut i: usize = 0;
    while i < statements.len()
        invariant
            i <= statements@.len(),
            all == texts(statements@),
            forall|k: int| 0 <= k < i ==> !texts(v@).contains(#[trigger] all[k]),
        decreases statements.len() - i,
    {
        assert(all[i as int] == statements@[i as int]@);
        if is_listed(v, statements[i].as_str()) {
            return true;
        }
        i = i + 1;
    }
    false
}

/// Join a card with one written by hand.
pub fn merge_persona_card_file(base: PersonaCard, file: &Json) -> (card: PersonaCard)
    ensures
        card@ == merged_card(base@, file@),
{
    let mut card = base;
    let ghost start = card@;
    if let Some(v) = file.get("identity") {
        if let Some(s) = v.as_str() {
            if !s.is_empty() {
                card.identity = s.to_owned();
            }
        }
    }
    let items: Vec<String> = strings_of(file, "persona");
    if items.len() > 0 {
        let mut both: Vec<String> = unite(items, &card.persona);
        keep_first(&mut both, 2 * MAX_PERSONA_ITEMS);
        assert(card.persona@.len() == texts(card.persona@).len());
        if card.persona.len() > 0 && !lists_one_of(&both, &card.persona) {
            let mut few: Vec<String> = strings_of(file, "persona");
            keep_first(&mut few, 2 * MAX_PERSONA_ITEMS - 1);
            both = unite(few, &card.persona);
            keep_first(&mut both, 2 * MAX_PERSONA_ITEMS);
        }
        card.persona = both;
    }
    let style: Vec<String> = strings_of(file, "style");
    if style.len() > 0 {
        card.style = style;
    }
    let taboos: Vec<String> = strings_of(file, "taboos");
    if taboos.len() > 0 {
        card.taboos = taboos;
    }
    let relationship: Json = merge_relationship(card.relationship, file.get("relationship"));
    card.relationship = relationship;
    card
}

/// A heading and its lines; nothing without lines.
pub open spec fn text_block(heading: Seq<char>, v: Seq<Seq<char>>) -> Seq<char> {
    if v.len() == 0 {
        Seq::empty()
    } else {
        heading + dashed(v)
    }
}

/// Each item in a line of its own, with a dash.
pub open spec fn dashed(v: Seq<Seq<char>>) -> Seq<char>
    decreases v.len(),
{
    if v.len() == 0 {
        Seq::empty()
    } else {
        dashed(v.drop_last()) + ("- "@ + v.last() + "\n"@)
    }
}

/// A card as a block of text. The relationship is given in JSON notation.
pub open spec fn card_text(card: CardView, relationship: Seq<char>) -> Seq<char> {
    "[Persona card: "@ + card.agent_id + " (tenant "@ + card.tenant_id + ")]\n"@ + ("Identity: "@
        + card.identity + "\n"@) + text_block("Persona:\n"@, card.persona) + text_block(
        "Style:\n"@,
        card.style,
    ) + text_block("Taboos:\n"@, card.taboos) + (if card.relationship is Null {
        Seq::empty()
    } else {
        "Relationship: "@ + relationship + "\n"@
    })
}

/// Append a heading and its lines.
fn append_block(out: &mut String, heading: &str, v: &Vec<String>)
    ensures
        final(out)@ == old(out)@ + text_block(heading@, texts(v@)),
{
    let ghost start = out@;
    if v.len() == 0 {
        assert(out@ =~= start + text_block(heading@, texts(v@)));
        return;
    }
    out.append(heading);
    let ghost all = texts(v@);
    let mut i: usize = 0;
    assert(out@ =~= start + heading@ + dashed(all.subrange(0, 0)));
    while i < v.len()
        invariant
            i <= v@.len(),
            all == texts(v@),
            out@ == start + heading@ + dashed(all.subrange(0, i as int)),
        decreases v.len() - i,
    {
        let line: String = cat3("- ", v[i].as_str(), "\n");
        let ghost now = all.subrange(0, i + 1);
        assert(now.drop_last() == all.subrange(0, i as int));
        assert(now.last() == v@[i as int]@);
        out.append(line.as_str());
        assert(out@ =~= start + heading@ + dashed(now));
        i = i + 1;
    }
    assert(all.subrange(0, all.len() as int) == all);
    assert(out@ =~= start + text_block(heading@, all));
}

/// A card as a block of text for a system prompt. `relationship` is the card's
/// relationship in JSON notation.
pub fn persona_card_to_text(card: &PersonaCard, relationship: &str) -> (out: String)
    ensures
        out@ == card_text(card@, relationship@),
{
    let mut out: String = cat3("[Persona card: ", card.agent_id.as_str(), " (tenant ");
    out.append(card.tenant_id.as_str());
    out.append(")]\n");
    let line: String = cat3("Identity: ", card.identity.as_str(), "\n");
    out.append(line.as_str());
    append_block(&mut out, "Persona:\n", &card.persona);
    append_block(&mut out, "Style:\n", &card.style);
    append_block(&mut out, "Taboos:\n", &card.taboos);
    if !card.relationship.is_null() {
        let last: String = cat3("Relationship: ", relationship, "\n");
        out.append(last.as_str());
    }
    assert(out@ =~= card_text(card@, relationship@));
    out
}

/// A card stays small, however long the history is.
pub proof fn law_cards_are_bounded(
    v: Seq<FactView>,
    wanted: spec_fn(FactType) -> bool,
    there: Seq<Seq<char>>,
)
    requires
        there.len() <= MAX_PERSONA_ITEMS,
        there.no_duplicates(),
    ensures
        gathered(v, wanted, there).len() <= MAX_PERSONA_ITEMS,
        gathered(v, wanted, there).no_duplicates(),
    decreases v.len(),
{
    if v.len() > 0 {
        let f = v.last();
        let c = content_of(f);
        let next = if wanted(f.fact_type) && c.len() > 0 && there.len() < MAX_PERSONA_ITEMS
            && !there.contains(c) {
            there.push(c)
        } else {
            there
        };
        assert(next.no_duplicates()) by {
            assert forall|i: int, j: int|
                0 <= i < next.len() && 0 <= j < next.len() && i != j implies next[i] != next[j] by {
                if i < there.len() && j < there.len() {
                    assert(there[i] != there[j]);
                } else if i < there.len() {
                    assert(there.contains(there[i]));
                } else if j < there.len() {
                    assert(there.contains(there[j]));
                }
            }
        }
        law_cards_are_bounded(v.drop_last(), wanted, next);
    }
}

/// What was learned stays: a card written by hand drops no learned statement as
/// long as all of them fit beside its lines.
pub proof fn law_learned_persona_stays(base: CardView, file: JsonView, statement: Seq<char>)
    requires
        base.persona.contains(statement),
        union(file_strings(file, "persona"@), base.persona).len() <= 2 * MAX_PERSONA_ITEMS,
    ensures
        merged_card(base, file).persona.contains(statement),
{
    let items = file_strings(file, "persona"@);
    let k = choose|k: int| 0 <= k < base.persona.len() && base.persona[k] == statement;
    if items.len() > 0 {
        lemma_union(items, base.persona);
        assert(union(items, base.persona).contains(base.persona[k]));
        assert(holds_one_of(union(items, base.persona), base.persona));
    }
}

/// A card written by hand never replaces all that was learned, however long it
/// is: of learned statements at least one stays.
pub proof fn law_some_learned_persona_stays(base: CardView, file: JsonView)
    requires
        base.persona.len() > 0,
    ensures
        holds_one_of(merged_card(base, file).persona, base.persona),
{
    let items = file_strings(file, "persona"@);
    let learned = base.persona;
    let most = 2 * MAX_PERSONA_ITEMS;
    if items.len() == 0 {
        assert(learned.contains(learned[0]));
    } else if !holds_one_of(at_most(union(items, learned), most), learned) {
        let few = at_most(items, most - 1);
        let all = union(few, learned);
        lemma_union(few, learned);
        lemma_union_first(few, learned);
        if few.contains(learned[0]) {
            let i = choose|i: int| 0 <= i < few.len() && few[i] == learned[0];
            assert(all[i] == learned[0]);
            assert(at_most(all, most)[i] == learned[0]);
        } else {
            assert(all[few.len() as int] == learned[0]);
            assert(at_most(all, most)[few.len() as int] == learned[0]);
        }
        assert(at_most(all, most).contains(learned[0]));
    }
}

/// The lines written by hand come first, in their order, and a card that has
/// some stays small.
pub proof fn law_file_lines_come_first(base: CardView, file: JsonView, i: int)
    requires
        0 <= i < file_strings(file, "persona"@).len(),
        i < 2 * MAX_PERSONA_ITEMS - 1,
    ensures
        i < merged_card(base, file).persona.len() <= 2 * MAX_PERSONA_ITEMS,
        merged_card(base, file).persona[i] == file_strings(file, "persona"@)[i],
{
    let items = file_strings(file, "persona"@);
    let few = at_most(items, 2 * MAX_PERSONA_ITEMS - 1);
    lemma_union_first(items, base.persona);
    lemma_union_first(few, base.persona);
    assert(few[i] == items[i]);
}

/// A union begins with the first list, and behind it stands the first item of
/// the second that is not in the first.
proof fn lemma_union_first(a: Seq<Seq<char>>, b: Seq<Seq<char>>)
    ensures
        a.len() <= union(a, b).len(),
        forall|i: int| 0 <= i < a.len() ==> #[trigger] union(a, b)[i] == a[i],
        b.len() > 0 && !a.contains(b[0]) ==> a.len() < union(a, b).len() && union(
            a,
            b,
        )[a.len() as int] == b[0],
    decreases b.len(),
{
    if b.len() > 0 {
        let front = b.drop_last();
        lemma_union_first(a, front);
        if front.len() > 0 {
            assert(front[0] == b[0]);
        } else {
            assert(union(a, front) == a);
        }
    }
}

/// What was learned stays: a relationship written by hand leaves every learned
/// statement in place.
pub proof fn law_learned_relationship_stays(
    base: CardView,
    file: JsonView,
    statements: Seq<JsonView>,
)
    requires
        base.relationship == JsonView::Array(statements),
    ensures
        merged_card(base, file).relationship == JsonView::Array(statements),
{
}

/// A union holds both lists and is no longer than both.
proof fn lemma_union(a: Seq<Seq<char>>, b: Seq<Seq<char>>)
    ensures
        union(a, b).len() <= a.len() + b.len(),
        forall|i: int| 0 <= i < a.len() ==> union(a, b).contains(#[trigger] a[i]),
        forall|i: int| 0 <= i < b.len() ==> union(a, b).contains(#[trigger] b[i]),
    decreases b.len(),
{
    let all = union(a, b);
    if b.len() > 0 {
        let front = b.drop_last();
        lemma_union(a, front);
        let u = union(a, front);
        assert forall|s: Seq<char>| u.contains(s) implies all.contains(s) by {
            let k = choose|k: int| 0 <= k < u.len() && u[k] == s;
            assert(all[k] == s);
        }
        assert forall|i: int| 0 <= i < b.len() implies all.contains(#[trigger] b[i]) by {
            if i < front.len() {
                assert(front[i] == b[i]);
            } else if !u.contains(b.last()) {
                assert(all[u.len() as int] == b[i]);
            }
        }
    } else {
        assert forall|i: int| 0 <= i < a.len() implies all.contains(#[trigger] a[i]) by {
            assert(all[i] == a[i]);
        }
    }
}

/// An empty entry of a file changes nothing.
pub proof fn law_empty_file_changes_nothing(base: CardView)
    ensures
        merged_card(base, JsonView::Object(Seq::empty())) == base,
{
}

/// Setting a member changes what is found under its key, and nothing else.
proof fn lemma_lookup_with_member(
    m: Seq<(Seq<char>, JsonView)>,
    key: Seq<char>,
    value: JsonView,
    other: Seq<char>,
)
    ensures
        lookup(with_member(m, key, value), other) == (if other == key {
            Some(value)
        } else {
            lookup(m, other)
        }),
    decreases m.len(),
{
    let r = with_member(m, key, value);
    if m.len() == 0 {
        assert(r.subrange(1, 1) =~= Seq::empty());
        reveal_with_fuel(lookup, 2);
    } else {
        let rest = m.subrange(1, m.len() as int);
        if m[0].0 == key {
            assert(r.subrange(1, r.len() as int) =~= rest);
        } else {
            lemma_lookup_with_member(rest, key, value, other);
            assert(r.subrange(1, r.len() as int) =~= with_member(rest, key, value));
        }
    }
}

/// What is found in a list with one member more.
proof fn lemma_lookup_push(m: Seq<(Seq<char>, JsonView)>, last: (Seq<char>, JsonView), key: Seq<char>)
    ensures
        lookup(m.push(last), key) == (match lookup(m, key) {
            Some(v) => Some(v),
            None => if last.0 == key {
                Some(last.1)
            } else {
                None
            },
        }),
    decreases m.len(),
{
    let r = m.push(last);
    if m.len() == 0 {
        assert(r.subrange(1, 1) =~= Seq::empty());
        reveal_with_fuel(lookup, 2);
    } else {
        let rest = m.subrange(1, m.len() as int);
        lemma_lookup_push(rest, last, key);
        assert(r.subrange(1, r.len() as int) =~= rest.push(last));
    }
}

/// No key occurs twice.
pub open spec fn keys_differ(m: Seq<(Seq<char>, JsonView)>) -> bool {
    forall|i: int, j: int| 0 <= i < j < m.len() ==> (#[trigger] m[i]).0 != (#[trigger] m[j]).0
}

/// What is found under a key is there.
proof fn lemma_lookup_is_there(m: Seq<(Seq<char>, JsonView)>, key: Seq<char>)
    ensures
        lookup(m, key) is Some ==> exists|i: int| 0 <= i < m.len() && (#[trigger] m[i]).0 == key,
    decreases m.len(),
{
    if m.len() > 0 && m[0].0 != key {
        let rest = m.subrange(1, m.len() as int);
        lemma_lookup_is_there(rest, key);
        if lookup(rest, key) is Some {
            let i = choose|i: int| 0 <= i < rest.len() && (#[trigger] rest[i]).0 == key;
            assert(m[i + 1].0 == key);
        }
    } else if m.len() > 0 {
        assert(m[0].0 == key);
    }
}

/// In a joined relationship the file's entry decides every key that it has,
/// and what was learned under other keys stays.
pub proof fn law_file_relationship_wins(
    learned: Seq<(Seq<char>, JsonView)>,
    file: Seq<(Seq<char>, JsonView)>,
    key: Seq<char>,
)
    requires
        keys_differ(file),
    ensures
        lookup(with_members(learned, file), key) == (match lookup(file, key) {
            Some(v) => Some(v),
            None => lookup(learned, key),
        }),
    decreases file.len(),
{
    if file.len() > 0 {
        let rest = file.drop_last();
        let last = file.last();
        assert(keys_differ(rest)) by {
            assert forall|i: int, j: int| 0 <= i < j < rest.len() implies (#[trigger] rest[i]).0
                != (#[trigger] rest[j]).0 by {
                assert(rest[i] == file[i] && rest[j] == file[j]);
            }
        }
        law_file_relationship_wins(learned, rest, key);
        lemma_lookup_with_member(with_members(learned, rest), last.0, last.1, key);
        lemma_lookup_push(rest, last, key);
        assert(file =~= rest.push(last));
        lemma_lookup_is_there(rest, key);
        if key == last.0 && lookup(rest, key) is Some {
            let i = choose|i: int| 0 <= i < rest.len() && (#[trigger] rest[i]).0 == key;
            assert(file[i].0 == file[file.len() - 1].0);
        }
    } else {
        assert(lookup(file, key) is None);
    }
}

/// The list without an item.
pub open spec fn without(v: Seq<Seq<char>>, s: Seq<char>) -> Seq<Seq<char>>
    decreases v.len(),
{
    if v.len() == 0 {
        Seq::empty()
    } else if v.last() == s {
        without(v.drop_last(), s)
    } else {
        without(v.drop_last(), s).push(v.last())
    }
}

/// A statement on top of a list of five at most: where it was further down it
/// moves up, and what has no room falls out at the end.
pub open spec fn put_on_top(s: Seq<char>, v: Seq<Seq<char>>) -> Seq<Seq<char>> {
    let all = seq![s] + without(v, s);
    if all.len() <= 5 {
        all
    } else {
        all.subrange(0, 5)
    }
}

/// What is left without an item is in the list and is not the item.
proof fn lemma_without(v: Seq<Seq<char>>, s: Seq<char>)
    ensures
        forall|x: Seq<char>| #[trigger]
            without(v, s).contains(x) <==> v.contains(x) && x != s,
        without(v, s).len() <= v.len(),
        !v.contains(s) ==> without(v, s) == v,
        v.no_duplicates() ==> without(v, s).len() >= v.len() - 1,
    decreases v.len(),
{
    let w = without(v, s);
    if v.len() > 0 {
        let front = v.drop_last();
        lemma_without(front, s);
        assert forall|x: Seq<char>| #[trigger] w.contains(x) <==> v.contains(x) && x != s by {
            if v.contains(x) {
                let k = choose|k: int| 0 <= k < v.len() && v[k] == x;
                if k < front.len() {
                    assert(front[k] == x);
                    assert(front.contains(x));
                }
            }
            if front.contains(x) {
                let k = choose|k: int| 0 <= k < front.len() && front[k] == x;
                assert(v[k] == x);
            }
            assert(v[v.len() - 1] == v.last());
            let u = without(front, s);
            if u.contains(x) {
                let k = choose|k: int| 0 <= k < u.len() && u[k] == x;
                assert(w[k] == x);
            }
            if w.contains(x) {
                let k = choose|k: int| 0 <= k < w.len() && w[k] == x;
                if k < u.len() {
                    assert(u[k] == x);
                    assert(u.contains(x));
                }
            }
            if v.last() != s {
                assert(w[w.len() - 1] == v.last());
            }
        }
        if !v.contains(s) {
            assert(v[v.len() - 1] == v.last());
            if front.contains(s) {
                let k = choose|k: int| 0 <= k < front.len() && front[k] == s;
                assert(v[k] == s);
            }
            assert(w =~= v);
        }
        if v.no_duplicates() {
            if v.last() == s && front.contains(s) {
                let k = choose|k: int| 0 <= k < front.len() && front[k] == s;
                assert(v[k] == v[v.len() - 1]);
            }
            assert(front.no_duplicates());
        }
    } else {
        assert(w =~= v);
    }
}

/// Gathering with a statement in front gathers what is gathered without it,
/// behind it.
proof fn lemma_gathered_behind(
    v: Seq<FactView>,
    wanted: spec_fn(FactType) -> bool,
    s: Seq<char>,
    there: Seq<Seq<char>>,
)
    requires
        there.len() <= 5,
        there.no_duplicates(),
    ensures
        gathered(v, wanted, put_on_top(s, there)) == put_on_top(s, gathered(v, wanted, there)),
    decreases v.len(),
{
    if v.len() > 0 {
        let f = v.last();
        let c = content_of(f);
        let top = put_on_top(s, there);
        let w = without(there, s);
        let fits = wanted(f.fact_type) && c.len() > 0;
        let next = if fits && there.len() < 5 && !there.contains(c) {
            there.push(c)
        } else {
            there
        };
        let next_top = if fits && top.len() < 5 && !top.contains(c) {
            top.push(c)
        } else {
            top
        };
        lemma_without(there, s);
        assert(top[0] == s);
        assert(top.contains(s));
        assert forall|x: Seq<char>| w.len() <= 4 implies (#[trigger] top.contains(x) <==> x == s
            || w.contains(x)) by {
            if w.contains(x) {
                let k = choose|k: int| 0 <= k < w.len() && w[k] == x;
                assert(top[k + 1] == x);
            }
            if top.contains(x) && x != s {
                let k = choose|k: int| 0 <= k < top.len() && top[k] == x;
                assert(w[k - 1] == x);
            }
        }
        if fits && there.len() < 5 && !there.contains(c) {
            assert(there.push(c).drop_last() =~= there);
            assert(next.no_duplicates()) by {
                assert forall|i: int, j: int|
                    0 <= i < next.len() && 0 <= j < next.len() && i != j implies next[i]
                    != next[j] by {
                    if i < there.len() && j < there.len() {
                        assert(there[i] != there[j]);
                    } else if i < there.len() {
                        assert(there.contains(there[i]));
                    } else if j < there.len() {
                        assert(there.contains(there[j]));
                    }
                }
            }
            if c == s {
                assert(put_on_top(s, next) =~= next_top);
            } else {
                assert(without(next, s) == w.push(c));
                assert(!w.contains(c));
                if w.len() < 4 {
                    assert(!top.contains(c));
                    assert(put_on_top(s, next) =~= next_top);
                } else {
                    assert(top.len() == 5);
                    assert(put_on_top(s, next) =~= next_top);
                }
            }
        } else if fits && top.len() < 5 && !top.contains(c) {
            assert(w.len() < 4);
            assert(!w.contains(c) && c != s);
            assert(!there.contains(c));
            assert(there.len() < 5);
            assert(false);
        }
        assert(put_on_top(s, next) =~= next_top);
        lemma_gathered_behind(v.drop_last(), wanted, s, next);
    }
}

/// What one more fact, the newest, does to what is gathered.
proof fn lemma_gathered_push(v: Seq<FactView>, f: FactView, wanted: spec_fn(FactType) -> bool)
    ensures
        gathered(v.push(f), wanted, Seq::empty()) == (if wanted(f.fact_type) && content_of(f).len()
            > 0 {
            put_on_top(content_of(f), gathered(v, wanted, Seq::empty()))
        } else {
            gathered(v, wanted, Seq::empty())
        }),
{
    let none: Seq<Seq<char>> = Seq::empty();
    assert(v.push(f).drop_last() =~= v);
    if wanted(f.fact_type) && content_of(f).len() > 0 {
        assert(put_on_top(content_of(f), none) =~= none.push(content_of(f)));
        lemma_gathered_behind(v, wanted, content_of(f), none);
    }
}

/// What the identity of a card is before anything is known.
proof fn lemma_identity(persona: Seq<FactView>)
    ensures
        last_where(persona, |f: FactView| affirms_identity(f)) is None && first_where(
            persona,
            |f: FactView| states_identity(f),
        ) is None <==> card_identity(persona).len() == 0,
    decreases persona.len(),
{
    let p = |f: FactView| affirms_identity(f);
    let q = |f: FactView| states_identity(f);
    crate::persona::timeline::lemma_where_contained(persona, p);
    crate::persona::timeline::lemma_where_contained(persona, q);
}

/// How a card changes with one more fact, the newest. A persona fact of what the
/// agent likes, feels or aims at puts its statement on top of the persona. One
/// of who the agent is becomes its identity; one of who it is not only as long
/// as there is no other. One on the relationship puts its statement on top of
/// the relationship. Nothing else changes, and a fact that is no persona fact, or
/// states nothing, changes nothing.
pub proof fn law_newest_statement_on_top(
    tenant_id: Seq<char>,
    agent_id: Seq<char>,
    facts: Seq<FactView>,
    f: FactView,
    said: Seq<char>,
    built_at: i64,
)
    requires
        match f.payload.get("content"@) {
            Some(JsonView::Text(t)) => said == t,
            _ => said.len() == 0,
        },
    ensures
        ({
            let before = card_of(tenant_id, agent_id, facts, built_at);
            let after = card_of(tenant_id, agent_id, facts.push(f), built_at);
            let counts = tagged_as_persona(f) && said.len() > 0;
            &&& after.agent_id == agent_id
            &&& after.tenant_id == tenant_id
            &&& after.built_at == built_at
            &&& after.style.len() == 0
            &&& after.taboos.len() == 0
            &&& after.persona == (if counts && (f.fact_type == FactType::Preference || f.fact_type
                == FactType::Emotion || f.fact_type == FactType::Goal) {
                put_on_top(said, before.persona)
            } else {
                before.persona
            })
            &&& after.identity == (if counts && f.fact_type == FactType::Identity && (
            before.identity.len() == 0 || f.payload.get("negated"@) != Some(
                JsonView::Bool(true),
            )) {
                said
            } else {
                before.identity
            })
            &&& !(counts && f.fact_type == FactType::Relationship) ==> after.relationship
                == before.relationship
            &&& counts && f.fact_type == FactType::Relationship ==> exists|bonds: Seq<Seq<char>>|
                {
                    &&& before.relationship == (if bonds.len() == 0 {
                        JsonView::Null
                    } else {
                        text_array(bonds)
                    })
                    &&& after.relationship == text_array(#[trigger] put_on_top(said, bonds))
                }
        }),
{
    let all = facts.push(f);
    assert(all.drop_last() =~= facts);
    let p = persona_only(facts);
    assert(said == content_of(f) || (said.len() == 0 && content_of(f).len() == 0));
    if tagged_as_persona(f) {
        assert(persona_only(all) == p.push(f));
        let facet = |t: FactType| is_persona_facet(t);
        let bond = |t: FactType| t is Relationship;
        lemma_gathered_push(p, f, facet);
        lemma_gathered_push(p, f, bond);
        let affirmed = |f: FactView| affirms_identity(f);
        let stated = |f: FactView| states_identity(f);
        assert(p.push(f).drop_last() =~= p);
        lemma_identity(p);
        crate::persona::timeline::lemma_where_contained(p, affirmed);
        crate::persona::timeline::lemma_where_contained(p, stated);
        lemma_affirmed_is_stated(p);
        let bonds = gathered(p, bond, Seq::empty());
        if said.len() > 0 && f.fact_type == FactType::Relationship {
            assert(put_on_top(said, bonds).len() > 0);
        }
    }
}

/// An identity that is affirmed is stated.
proof fn lemma_affirmed_is_stated(v: Seq<FactView>)
    ensures
        last_where(v, |f: FactView| affirms_identity(f)) is Some ==> first_where(
            v,
            |f: FactView| states_identity(f),
        ) is Some,
    decreases v.len(),
{
    if v.len() > 0 {
        lemma_affirmed_is_stated(v.drop_last());
    }
}

/// Without facts a card is empty.
pub proof fn law_card_of_nothing(tenant_id: Seq<char>, agent_id: Seq<char>, built_at: i64)
    ensures
        ({
            let card = card_of(tenant_id, agent_id, Seq::empty(), built_at);
            &&& card.identity.len() == 0
            &&& card.persona.len() == 0
            &&& card.style.len() == 0
            &&& card.taboos.len() == 0
            &&& card.relationship == JsonView::Null
        }),
{
    assert(persona_only(Seq::<FactView>::empty()) =~= Seq::empty());
}

/// What a card written by hand pins: who the agent is, where the file says so in
/// words; its style and taboos, where the file lists any. What the file does not
/// say stays, and whose card it is does not change.
pub proof fn law_file_pins_what_it_says(base: CardView, file: JsonView)
    ensures
        ({
            let card = merged_card(base, file);
            &&& card.agent_id == base.agent_id
            &&& card.tenant_id == base.tenant_id
            &&& card.built_at == base.built_at
            &&& match file.get("identity"@) {
                Some(JsonView::Text(s)) if s.len() > 0 => card.identity == s,
                _ => card.identity == base.identity,
            }
            &&& file.get("style"@) matches Some(JsonView::Text(s)) ==> card.style == seq![s]
            &&& file.get("taboos"@) matches Some(JsonView::Text(s)) ==> card.taboos == seq![s]
            &&& file.get("style"@) is None ==> card.style == base.style
            &&& file.get("taboos"@) is None ==> card.taboos == base.taboos
            &&& file.get("persona"@) is None ==> card.persona == base.persona
            &&& file.get("relationship"@) is None ==> card.relationship == base.relationship
        }),
{
}

/// A card joined with one by hand says only what one of the two says, and a
/// learned statement never twice.
pub proof fn law_merged_persona_is_of_both(base: CardView, file: JsonView, i: int)
    requires
        0 <= i < merged_card(base, file).persona.len(),
    ensures
        file_strings(file, "persona"@).contains(merged_card(base, file).persona[i])
            || base.persona.contains(merged_card(base, file).persona[i]),
        file_strings(file, "persona"@).len() == 0 ==> merged_card(base, file).persona
            == base.persona,
{
    let items = file_strings(file, "persona"@);
    if items.len() > 0 {
        lemma_union_is_of_both(items, base.persona);
        let few = at_most(items, 2 * MAX_PERSONA_ITEMS - 1);
        lemma_union_is_of_both(few, base.persona);
        let x = merged_card(base, file).persona[i];
        assert forall|y: Seq<char>| few.contains(y) implies items.contains(y) by {
            let k = choose|k: int| 0 <= k < few.len() && few[k] == y;
            assert(items[k] == y);
        }
        assert(union(items, base.persona).contains(x) || union(few, base.persona).contains(x)) by {
            if i < union(items, base.persona).len() && union(items, base.persona)[i] == x {
                assert(union(items, base.persona).contains(x));
            } else {
                assert(union(few, base.persona)[i] == x);
            }
        }
    } else {
        assert(base.persona.contains(base.persona[i]));
    }
}

/// A union holds nothing else.
proof fn lemma_union_is_of_both(a: Seq<Seq<char>>, b: Seq<Seq<char>>)
    ensures
        forall|x: Seq<char>| #[trigger]
            union(a, b).contains(x) ==> a.contains(x) || b.contains(x),
    decreases b.len(),
{
    if b.len() > 0 {
        let front = b.drop_last();
        lemma_union_is_of_both(a, front);
        assert forall|x: Seq<char>| #[trigger] union(a, b).contains(x) implies a.contains(x)
            || b.contains(x) by {
            let u = union(a, front);
            let k = choose|k: int| 0 <= k < union(a, b).len() && union(a, b)[k] == x;
            if k < u.len() {
                assert(u[k] == x);
                assert(u.contains(x));
                if front.contains(x) {
                    let j = choose|j: int| 0 <= j < front.len() && front[j] == x;
                    assert(b[j] == x);
                }
            } else {
                assert(b[b.len() - 1] == x);
            }
        }
    }
}

/// The strings of an array are its texts, in order; anything else in it is left
/// out.
pub proof fn law_strings_of_an_array(items: Seq<JsonView>, item: JsonView)
    ensures
        string_list(JsonView::Array(items.push(item))) == (match item {
            JsonView::Text(s) => string_list(JsonView::Array(items)).push(s),
            _ => string_list(JsonView::Array(items)),
        }),
        string_list(JsonView::Array(Seq::empty())).len() == 0,
{
    assert(items.push(item).drop_last() =~= items);
}

/// A card in words names the agent and its tenant, says who it is, and lists its
/// persona, its style and its taboos, each in lines of their own under a heading
/// that is there exactly when there is something to list.
pub proof fn law_card_in_words(card: CardView, relationship: Seq<char>)
    ensures
        card_text(card, relationship) == "[Persona card: "@ + card.agent_id + " (tenant "@
            + card.tenant_id + ")]\n"@ + ("Identity: "@ + card.identity + "\n"@) + (
        if card.persona.len() > 0 {
            "Persona:\n"@ + dashed(card.persona)
        } else {
            Seq::empty()
        }) + (if card.style.len() > 0 {
            "Style:\n"@ + dashed(card.style)
        } else {
            Seq::empty()
        }) + (if card.taboos.len() > 0 {
            "Taboos:\n"@ + dashed(card.taboos)
        } else {
            Seq::empty()
        }) + (if card.relationship == JsonView::Null {
            Seq::empty()
        } else {
            "Relationship: "@ + relationship + "\n"@
        }),
{
}

/// One more item is one more line, at the end.
pub proof fn law_one_more_dashed_line(v: Seq<Seq<char>>, s: Seq<char>)
    ensures
        dashed(v.push(s)) == dashed(v) + ("- "@ + s + "\n"@),
        dashed(Seq::empty()).len() == 0,
{
    assert(v.push(s).drop_last() =~= v);
}

/// The card of an agent stands under its tenant, and there under the agent: the
/// card of one tenant's agent is not that of another's.
pub proof fn law_cards_stand_under_their_tenant(
    tenant_id: Seq<char>,
    agent_id: Seq<char>,
    card: JsonView,
    other: Seq<char>,
)
    ensures
        ({
            let cards = JsonView::Object(
                seq![(tenant_id, JsonView::Object(seq![(agent_id, card)]))],
            );
            &&& card_entry(cards, tenant_id, agent_id) == Some(card)
            &&& other != tenant_id ==> card_entry(cards, other, agent_id) is None
            &&& other != agent_id ==> card_entry(cards, tenant_id, other) is None
        }),
{
    reveal_with_fuel(crate::json::lookup, 2);
}

/// Where nothing was learned of the relationship the file's object is taken over
/// as it is. What is no object in the file changes nothing.
pub proof fn law_file_relationship_fills_the_gap(base: CardView, file: JsonView)
    ensures
        base.relationship is Null && file.get("relationship"@) is Some && file.get(
            "relationship"@,
        )->0 is Object ==> merged_card(base, file).relationship == file.get("relationship"@)->0,
        file.get("relationship"@) is Some && !(file.get("relationship"@)->0 is Object)
            ==> merged_card(base, file).relationship == base.relationship,
{
}

} // verus!
