//! Handing an agent's persona card to a prompt.
use vstd::prelude::*;

use crate::error::Error;
use crate::json::{integer, member, object, strings, text, text_array, Json, JsonView};
use crate::mcp::args::{given_text, opt_str, str_or, text_or};
use crate::persona::inject::{card_text, persona_card_to_text, CardView, PersonaCard};
use crate::text::same_text;

verus! {

/// The tool, over a handle to the fact store and the file of persona cards.
pub struct PersonaInjectTool<S> {
    pub fact_store: S,
    pub cards_path: String,
}

impl<S> PersonaInjectTool<S> {
    /// A tool over this store that reads the cards from this file.
    pub fn new(fact_store: S, cards_path: &str) -> (t: PersonaInjectTool<S>)
        ensures
            t.fact_store == fact_store,
            t.cards_path@ == cards_path@,
    {
        PersonaInjectTool { fact_store, cards_path: cards_path.to_owned() }
    }
}

/// A request for a card.
#[derive(Debug)]
pub struct InjectRequest {
    pub agent_id: String,
    pub tenant_id: String,
    /// The card is wanted as text, not as JSON.
    pub as_text: bool,
}

/// Read a request for a card. JSON is the default.
pub fn inject_request(args: &Json) -> (r: Result<InjectRequest, Error>)
    ensures
        match r {
            Ok(q) => {
                &&& given_text(args@, "agent_id"@) == Some(q.agent_id@)
                &&& q.tenant_id@ == text_or(args@, "tenant_id"@, "default"@)
                &&& q.as_text == (text_or(args@, "format"@, "json"@) == "text"@)
            },
            Err(e) => given_text(args@, "agent_id"@) is None && e is InvalidInput && e.text()
                == "missing `agent_id`"@,
        },
{
    match opt_str(args, "agent_id") {
        Some(agent_id) => {
            let format: String = str_or(args, "format", "json");
            Ok(
                InjectRequest {
                    agent_id,
                    tenant_id: str_or(args, "tenant_id", "default"),
                    as_text: same_text(format.as_str(), "text"),
                },
            )
        },
        None => Err(Error::InvalidInput("missing `agent_id`".to_owned())),
    }
}

/// A card on the wire.
pub open spec fn card_wire(c: CardView) -> JsonView {
    JsonView::Object(
        seq![
            ("agent_id"@, JsonView::Text(c.agent_id)),
            ("tenant_id"@, JsonView::Text(c.tenant_id)),
            ("identity"@, JsonView::Text(c.identity)),
            ("persona"@, text_array(c.persona)),
            ("style"@, text_array(c.style)),
            ("taboos"@, text_array(c.taboos)),
            ("relationship"@, c.relationship),
            ("built_at"@, JsonView::Int(c.built_at as int)),
        ],
    )
}

/// A card on the wire.
pub fn card_to_json(c: &PersonaCard) -> (j: Json)
    ensures
        j@ == card_wire(c@),
{
    let j: Json = object(
        vec![
            member("agent_id", text(c.agent_id.as_str())),
            member("tenant_id", text(c.tenant_id.as_str())),
            member("identity", text(c.identity.as_str())),
            member("persona", strings(&c.persona)),
            member("style", strings(&c.style)),
            member("taboos", strings(&c.taboos)),
            member("relationship", c.relationship.copy()),
            member("built_at", integer(c.built_at)),
        ],
    );
    assert(j@->Object_0 =~= card_wire(c@)->Object_0);
    j
}

/// The answer with a card.
pub open spec fn card_answer(tenant_id: Seq<char>, agent_id: Seq<char>, card: CardView) -> JsonView {
    JsonView::Object(
        seq![
            ("tenant_id"@, JsonView::Text(tenant_id)),
            ("agent_id"@, JsonView::Text(agent_id)),
            ("persona_card"@, card_wire(card)),
        ],
    )
}

/// Answer with a card.
pub fn render_json(tenant_id: &str, agent_id: &str, card: &PersonaCard) -> (j: Json)
    ensures
        j@ == card_answer(tenant_id@, agent_id@, card@),
{
    let j: Json = object(
        vec![
            member("tenant_id", text(tenant_id)),
            member("agent_id", text(agent_id)),
            member("persona_card", card_to_json(card)),
        ],
    );
    assert(j@->Object_0 =~= card_answer(tenant_id@, agent_id@, card@)->Object_0);
    j
}

/// The card as a block of text; `relationship` is its relationship in JSON
/// notation.
pub fn render_text(card: &PersonaCard, relationship: &str) -> (s: String)
    ensures
        s@ == card_text(card@, relationship@),
{
    persona_card_to_text(card, relationship)
}

/// A card is told as it is.
pub proof fn law_card_is_told(c: CardView)
    ensures
        ({
            let j = card_wire(c);
            &&& j.get("agent_id"@) == Some(JsonView::Text(c.agent_id))
            &&& j.get("tenant_id"@) == Some(JsonView::Text(c.tenant_id))
            &&& j.get("identity"@) == Some(JsonView::Text(c.identity))
            &&& j.get("persona"@) == Some(text_array(c.persona))
            &&& j.get("style"@) == Some(text_array(c.style))
            &&& j.get("taboos"@) == Some(text_array(c.taboos))
            &&& j.get("relationship"@) == Some(c.relationship)
            &&& j.get("built_at"@) == Some(JsonView::Int(c.built_at as int))
        }),
{
    reveal_strlit("agent_id");
    reveal_strlit("tenant_id");
    reveal_strlit("identity");
    reveal_strlit("persona");
    reveal_strlit("style");
    reveal_strlit("taboos");
    reveal_strlit("relationship");
    reveal_strlit("built_at");
    assert("agent_id"@[0] == 'a');
    assert("built_at"@[0] == 'b');
    assert("identity"@[0] == 'i');
    let m = card_wire(c)->Object_0;
    assert(m[0].0 == "agent_id"@);
    assert(m[1].0 == "tenant_id"@);
    assert(m[2].0 == "identity"@);
    assert(m[3].0 == "persona"@);
    assert(m[4].0 == "style"@);
    assert(m[5].0 == "taboos"@);
    assert(m[6].0 == "relationship"@);
    assert(m[7].0 == "built_at"@);
    crate::json::law_first_member_counts(m, "agent_id"@, 0);
    crate::json::law_first_member_counts(m, "tenant_id"@, 1);
    crate::json::law_first_member_counts(m, "identity"@, 2);
    crate::json::law_first_member_counts(m, "persona"@, 3);
    crate::json::law_first_member_counts(m, "style"@, 4);
    crate::json::law_first_member_counts(m, "taboos"@, 5);
    crate::json::law_first_member_counts(m, "relationship"@, 6);
    crate::json::law_first_member_counts(m, "built_at"@, 7);
}

/// The answer names whose card it is.
pub proof fn law_card_is_answered(tenant_id: Seq<char>, agent_id: Seq<char>, card: CardView)
    ensures
        ({
            let j = card_answer(tenant_id, agent_id, card);
            &&& j.get("tenant_id"@) == Some(JsonView::Text(tenant_id))
            &&& j.get("agent_id"@) == Some(JsonView::Text(agent_id))
            &&& j.get("persona_card"@) == Some(card_wire(card))
        }),
{
    reveal_strlit("tenant_id");
    reveal_strlit("agent_id");
    reveal_strlit("persona_card");
    let m = card_answer(tenant_id, agent_id, card)->Object_0;
    assert(m[0].0 == "tenant_id"@);
    assert(m[1].0 == "agent_id"@);
    assert(m[2].0 == "persona_card"@);
    crate::json::law_first_member_counts(m, "tenant_id"@, 0);
    crate::json::law_first_member_counts(m, "agent_id"@, 1);
    crate::json::law_first_member_counts(m, "persona_card"@, 2);
}

} // verus!
