//! Letting facts fade: which facts are swept, and by which strategy.
use vstd::prelude::*;

use crate::error::Error;
use crate::json::{count, member, object, Json, JsonView};
use crate::mcp::args::{
    flag_arg, flag_given, given_int, given_text, opt_int, opt_str, str_or, text_or,
};
use crate::text::{cat3, same_text};

verus! {

/// How facts fade.
#[derive(Debug, Clone, Copy, PartialEq, Eq, Structural)]
pub enum DecayStrategy {
    TimeBased,
    ImportanceBased,
    AccessFrequencyBased,
    Hybrid,
}

impl DecayStrategy {
    /// The name of the strategy.
    pub open spec fn name(self) -> Seq<char> {
        match self {
            DecayStrategy::TimeBased => "time_based"@,
            DecayStrategy::ImportanceBased => "importance_based"@,
            DecayStrategy::AccessFrequencyBased => "access_frequency_based"@,
            DecayStrategy::Hybrid => "hybrid"@,
        }
    }

    /// The strategy of this name.
    pub fn parse(raw: &str) -> (r: Option<DecayStrategy>)
        ensures
            match r {
                Some(s) => s.name() == raw@,
                None => forall|s: DecayStrategy| #[trigger] s.name() != raw@,
            },
    {
        if same_text(raw, "time_based") {
            Some(DecayStrategy::TimeBased)
        } else if same_text(raw, "importance_based") {
            Some(DecayStrategy::ImportanceBased)
        } else if same_text(raw, "access_frequency_based") {
            Some(DecayStrategy::AccessFrequencyBased)
        } else if same_text(raw, "hybrid") {
            Some(DecayStrategy::Hybrid)
        } else {
            None
        }
    }
}

/// The names of the strategies differ.
pub proof fn law_strategy_names_differ(a: DecayStrategy, b: DecayStrategy)
    requires
        a.name() == b.name(),
    ensures
        a == b,
{
    reveal_strlit("time_based");
    reveal_strlit("importance_based");
    reveal_strlit("access_frequency_based");
    reveal_strlit("hybrid");
    assert("time_based"@.len() == 10);
    assert("importance_based"@.len() == 16);
    assert("access_frequency_based"@.len() == 22);
    assert("hybrid"@.len() == 6);
}

/// A decay policy: the strategy, and the weights it works with.
pub struct DecayConfig<W> {
    pub strategy: DecayStrategy,
    pub weights: W,
}

/// The tool, over a handle to the fact store and a policy.
pub struct MemoryDecayTool<S, W> {
    pub fact_store: S,
    pub config: DecayConfig<W>,
}

impl<S, W> MemoryDecayTool<S, W> {
    /// A tool with the configured policy.
    pub fn new(fact_store: S, configured: DecayConfig<W>) -> (t: MemoryDecayTool<S, W>)
        ensures
            t.fact_store == fact_store,
            t.config == configured,
    {
        MemoryDecayTool::with_config(fact_store, configured)
    }

    /// A tool with this policy.
    pub fn with_config(fact_store: S, config: DecayConfig<W>) -> (t: MemoryDecayTool<S, W>)
        ensures
            t.fact_store == fact_store,
            t.config == config,
    {
        MemoryDecayTool { fact_store, config }
    }
}

/// A request to sweep facts.
#[derive(Debug)]
pub struct DecayRequest {
    /// Only facts of this tenant are swept.
    pub tenant_id: String,
    /// Only facts of this entity, when one is named.
    pub entity_id: Option<i64>,
    pub strategy: DecayStrategy,
    /// Protected facts are swept too.
    pub force: bool,
}

/// Read a request. The strategy is the configured one unless another is
/// named; a sweep never leaves its tenant.
pub fn decay_request(args: &Json, configured: DecayStrategy) -> (r: Result<DecayRequest, Error>)
    ensures
        match r {
            Ok(q) => {
                &&& q.tenant_id@ == text_or(args@, "tenant_id"@, "default"@)
                &&& match q.entity_id {
                    Some(id) => given_int(args@, "entity_id"@) == Some(id as int),
                    None => given_int(args@, "entity_id"@) is None,
                }
                &&& match given_text(args@, "strategy"@) {
                    Some(s) => q.strategy.name() == s,
                    None => q.strategy == configured,
                }
                &&& q.force == flag_given(args@, "force"@)
            },
            Err(e) => {
                &&& e is InvalidInput
                &&& given_text(args@, "strategy"@) matches Some(s) && {
                    &&& forall|d: DecayStrategy| #[trigger] d.name() != s
                    &&& e.text() == "unknown decay strategy `"@ + s + "`"@
                }
            },
        },
{
    let strategy: DecayStrategy = match opt_str(args, "strategy") {
        Some(s) => match DecayStrategy::parse(s.as_str()) {
            Some(d) => d,
            None => {
                return Err(
                    Error::InvalidInput(cat3("unknown decay strategy `", s.as_str(), "`")),
                );
            },
        },
        None => configured,
    };
    Ok(
        DecayRequest {
            tenant_id: str_or(args, "tenant_id", "default"),
            entity_id: opt_int(args, "entity_id"),
            strategy,
            force: flag_arg(args, "force"),
        },
    )
}

/// What a sweep did.
#[derive(Debug, Clone, Copy)]
pub struct DecayStats {
    pub scanned: u64,
    pub archived: u64,
    pub kept: u64,
    pub high_value_protected: u64,
}

/// The report on a sweep.
pub open spec fn decay_report(s: DecayStats) -> JsonView {
    JsonView::Object(
        seq![
            ("scanned"@, JsonView::Int(s.scanned as int)),
            ("archived"@, JsonView::Int(s.archived as int)),
            ("kept"@, JsonView::Int(s.kept as int)),
            ("high_value_protected"@, JsonView::Int(s.high_value_protected as int)),
        ],
    )
}

/// Report on a sweep.
pub fn decay_reply(s: DecayStats) -> (j: Json)
    ensures
        j@ == decay_report(s),
{
    let j: Json = object(
        vec![
            member("scanned", count(s.scanned)),
            member("archived", count(s.archived)),
            member("kept", count(s.kept)),
            member("high_value_protected", count(s.high_value_protected)),
        ],
    );
    assert(j@->Object_0 =~= decay_report(s)->Object_0);
    j
}

/// A sweep is told by its numbers.
pub proof fn law_sweep_is_told(s: DecayStats)
    ensures
        ({
            let j = decay_report(s);
            &&& j.get("scanned"@) == Some(JsonView::Int(s.scanned as int))
            &&& j.get("archived"@) == Some(JsonView::Int(s.archived as int))
            &&& j.get("kept"@) == Some(JsonView::Int(s.kept as int))
            &&& j.get("high_value_protected"@) == Some(JsonView::Int(s.high_value_protected as int))
        }),
{
    reveal_strlit("scanned");
    reveal_strlit("archived");
    reveal_strlit("kept");
    reveal_strlit("high_value_protected");
    let m = decay_report(s)->Object_0;
    assert(m[0].0 == "scanned"@);
    assert(m[1].0 == "archived"@);
    assert(m[2].0 == "kept"@);
    assert(m[3].0 == "high_value_protected"@);
    crate::json::law_first_member_counts(m, "scanned"@, 0);
    crate::json::law_first_member_counts(m, "archived"@, 1);
    crate::json::law_first_member_counts(m, "kept"@, 2);
    crate::json::law_first_member_counts(m, "high_value_protected"@, 3);
}

} // verus!
