//! Tenant scoping of the tools that address their subject by id.
//!
//! An id says nothing about who owns its subject. A caller may name a tenant;
//! the subject must then belong to it, and one that does not is reported as
//! not found, just as one that does not exist.
use vstd::prelude::*;

use crate::error::Error;
use crate::json::{Json, JsonView};
use crate::mcp::http_server::opt_str_view;
use crate::text::{cat3, is_blank, same_text, signed_decimal, signed_text, trimmed};

verus! {

/// What the `tenant_id` argument asks for.
pub enum TenantArgument {
    /// No tenant.
    Unscoped,
    /// This tenant.
    Scoped(Seq<char>),
    /// It is neither absent nor a non-empty string.
    Invalid,
}

/// What the `tenant_id` argument asks for.
pub open spec fn tenant_asked(args: JsonView) -> TenantArgument {
    match args.get("tenant_id"@) {
        None => TenantArgument::Unscoped,
        Some(JsonView::Null) => TenantArgument::Unscoped,
        Some(JsonView::Text(t)) => if trimmed(t).len() == 0 {
            TenantArgument::Invalid
        } else {
            TenantArgument::Scoped(t)
        },
        Some(_) => TenantArgument::Invalid,
    }
}

/// Read the optional `tenant_id` argument.
pub fn tenant_argument(args: &Json) -> (r: Result<Option<String>, Error>)
    ensures
        match r {
            Ok(None) => tenant_asked(args@) is Unscoped,
            Ok(Some(t)) => tenant_asked(args@) == TenantArgument::Scoped(t@),
            Err(e) => tenant_asked(args@) is Invalid && e is InvalidInput && e.text()
                == "`tenant_id` must be a non-empty string"@,
        },
{
    match args.get("tenant_id") {
        None => Ok(None),
        Some(v) => {
            if v.is_null() {
                return Ok(None);
            }
            match v.as_str() {
                Some(t) => if is_blank(t) {
                    Err(Error::InvalidInput("`tenant_id` must be a non-empty string".to_owned()))
                } else {
                    Ok(Some(t.to_owned()))
                },
                None => Err(
                    Error::InvalidInput("`tenant_id` must be a non-empty string".to_owned()),
                ),
            }
        },
    }
}

/// The subject may be read: no tenant was asked for, or it is the owner.
pub open spec fn in_scope(owner: Option<Seq<char>>, tenant: Option<Seq<char>>) -> bool {
    match tenant {
        None => true,
        Some(t) => owner == Some(t),
    }
}

/// The words in which a subject is refused, if it is. They name the tenant that
/// was asked for and say nothing about the owner.
pub open spec fn scope_refusal(
    owner: Option<Seq<char>>,
    entity_id: int,
    tenant: Option<Seq<char>>,
) -> Option<Seq<char>> {
    match tenant {
        Some(t) => if in_scope(owner, tenant) {
            None
        } else {
            Some("no entity "@ + signed_decimal(entity_id) + " in tenant `"@ + t + "`"@)
        },
        None => None,
    }
}

/// Refuse a subject that the tenant does not own. `owner` is the tenant that
/// owns the entity, or none when there is no such entity.
pub fn ensure_entity_tenant(owner: Option<&str>, entity_id: i64, tenant_id: Option<&str>) -> (r:
    Result<(), Error>)
    ensures
        match r {
            Ok(_) => scope_refusal(
                opt_str_view(owner),
                entity_id as int,
                opt_str_view(tenant_id),
            ) is None,
            Err(e) => e is NotFound && scope_refusal(
                opt_str_view(owner),
                entity_id as int,
                opt_str_view(tenant_id),
            ) == Some(e.text()),
        },
{
    let tenant: &str = match tenant_id {
        Some(t) => t,
        None => {
            return Ok(());
        },
    };
    let owned: bool = match owner {
        Some(o) => same_text(o, tenant),
        None => false,
    };
    if owned {
        Ok(())
    } else {
        let digits: String = signed_text(entity_id);
        let head: String = cat3("no entity ", digits.as_str(), " in tenant `");
        Err(Error::NotFound(cat3(head.as_str(), tenant, "`")))
    }
}

/// Read the optional `tenant_id` argument and refuse a subject that the tenant it
/// names does not own.
pub fn let_in(args: &Json, owner: Option<&str>, entity_id: i64) -> (r: Result<(), Error>)
    ensures
        match tenant_asked(args@) {
            TenantArgument::Unscoped => r is Ok,
            TenantArgument::Invalid => r matches Err(e) && e is InvalidInput && e.text()
                == "`tenant_id` must be a non-empty string"@,
            TenantArgument::Scoped(t) => match r {
                Ok(_) => scope_refusal(opt_str_view(owner), entity_id as int, Some(t)) is None,
                Err(e) => e is NotFound && scope_refusal(
                    opt_str_view(owner),
                    entity_id as int,
                    Some(t),
                ) == Some(e.text()),
            },
        },
{
    match tenant_argument(args) {
        Ok(Some(t)) => ensure_entity_tenant(owner, entity_id, Some(t.as_str())),
        Ok(None) => Ok(()),
        Err(e) => Err(e),
    }
}

/// A foreign subject cannot be told from one that does not exist: both are
/// refused in the same words.
pub proof fn law_foreign_and_unknown_look_alike(
    owner: Seq<char>,
    entity_id: int,
    tenant: Seq<char>,
)
    requires
        owner != tenant,
    ensures
        scope_refusal(Some(owner), entity_id, Some(tenant)) is Some,
        scope_refusal(Some(owner), entity_id, Some(tenant)) == scope_refusal(
            None,
            entity_id,
            Some(tenant),
        ),
{
}

/// A tenant sees what it owns and nothing else; who names no tenant is not held
/// to one.
pub proof fn law_a_tenant_sees_its_own(
    owner: Option<Seq<char>>,
    entity_id: int,
    tenant: Seq<char>,
)
    ensures
        scope_refusal(owner, entity_id, Some(tenant)) is None <==> owner == Some(tenant),
        scope_refusal(owner, entity_id, None) is None,
        owner != Some(tenant) ==> scope_refusal(owner, entity_id, Some(tenant)) == Some(
            "no entity "@ + signed_decimal(entity_id) + " in tenant `"@ + tenant + "`"@,
        ),
{
}

/// A tenant is asked for by a text that is not blank, and then exactly that one;
/// without an argument, or with `null`, none is; anything else is refused.
pub proof fn law_tenant_is_asked_for_by_name(args: JsonView)
    ensures
        match args.get("tenant_id"@) {
            Some(JsonView::Text(t)) => if exists|i: int|
                0 <= i < t.len() && !crate::text::is_space(#[trigger] t[i]) {
                tenant_asked(args) == TenantArgument::Scoped(t)
            } else {
                tenant_asked(args) is Invalid
            },
            None => tenant_asked(args) is Unscoped,
            Some(JsonView::Null) => tenant_asked(args) is Unscoped,
            Some(_) => tenant_asked(args) is Invalid,
        },
{
    if args.get("tenant_id"@) is Some && args.get("tenant_id"@)->0 is Text {
        let t = args.get("tenant_id"@)->0->Text_0;
        let cut = crate::text::law_trimming_cuts_only_space(t);
        if trimmed(t).len() > 0 {
            assert(trimmed(t)[0] == t[cut.0]);
        }
    }
}

} // verus!
