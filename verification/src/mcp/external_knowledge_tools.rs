//! Attaching external sources of knowledge, materializing them, and compiling
//! what an agent and its user said into facts.
use vstd::prelude::*;

use crate::error::Error;
use crate::json::{count, elements, integer, member, object, text, Json, JsonView};
use crate::mcp::args::{
    flag_arg, flag_given, given_text, opt_str, req_str, str_or, text_or,
};
use crate::mcp::ingest::{Ingest, IngestView};
use crate::mcp::memory_compile::{are_messages_of, messages_fault, parse_messages};
use crate::mcp::paths::{file_stem, path_stem};
use crate::mcp::types::Refusal;
use crate::text::{cat3, same_text};
use crate::types::Message;

verus! {

/// A name of an entity in an external source, and the name it goes by here.
#[derive(Debug)]
pub struct EntityLink {
    pub external_name: String,
    pub canonical_name: String,
    pub source: String,
}

/// What is wrong with a link, if anything.
pub open spec fn link_fault(raw: JsonView) -> Option<Seq<char>> {
    if !(raw is Object) {
        Some("each entity_link must be an object"@)
    } else if given_text(raw, "external_name"@) is None {
        Some("entity_link missing `external_name`"@)
    } else if given_text(raw, "canonical_name"@) is None {
        Some("entity_link missing `canonical_name`"@)
    } else if given_text(raw, "source"@) is None {
        Some("entity_link missing `source`"@)
    } else {
        None
    }
}

/// The link is what the raw value says.
pub open spec fn is_link_of(link: EntityLink, raw: JsonView) -> bool {
    &&& given_text(raw, "external_name"@) == Some(link.external_name@)
    &&& given_text(raw, "canonical_name"@) == Some(link.canonical_name@)
    &&& given_text(raw, "source"@) == Some(link.source@)
}

/// The first fault among the links.
pub open spec fn links_fault(v: Seq<JsonView>) -> Option<Seq<char>>
    decreases v.len(),
{
    if v.len() == 0 {
        None
    } else {
        match links_fault(v.drop_last()) {
            Some(f) => Some(f),
            None => link_fault(v.last()),
        }
    }
}

/// The links that the arguments hold, raw; none when there is no array.
pub open spec fn raw_links(args: JsonView) -> Seq<JsonView> {
    match args.get("entity_links"@) {
        Some(JsonView::Array(v)) => v,
        _ => Seq::empty(),
    }
}

/// The links are what the raw values say, one for one.
pub open spec fn are_links_of(links: Seq<EntityLink>, raw: Seq<JsonView>) -> bool {
    &&& links.len() == raw.len()
    &&& forall|i: int| 0 <= i < links.len() ==> is_link_of(#[trigger] links[i], raw[i])
}

/// Read one link.
fn parse_link(raw: &Json) -> (r: Result<EntityLink, Error>)
    ensures
        match r {
            Ok(link) => link_fault(raw@) is None && is_link_of(link, raw@),
            Err(e) => e is InvalidInput && link_fault(raw@) == Some(e.text()),
        },
{
    if raw.as_object().is_none() {
        return Err(Error::InvalidInput("each entity_link must be an object".to_owned()));
    }
    let external_name: String = match opt_str(raw, "external_name") {
        Some(s) => s,
        None => {
            return Err(Error::InvalidInput("entity_link missing `external_name`".to_owned()));
        },
    };
    let canonical_name: String = match opt_str(raw, "canonical_name") {
        Some(s) => s,
        None => {
            return Err(Error::InvalidInput("entity_link missing `canonical_name`".to_owned()));
        },
    };
    match opt_str(raw, "source") {
        Some(source) => Ok(EntityLink { external_name, canonical_name, source }),
        None => Err(Error::InvalidInput("entity_link missing `source`".to_owned())),
    }
}

/// A fault among the first links is the fault of all.
proof fn lemma_link_fault_stays(v: Seq<JsonView>, n: int)
    requires
        0 <= n <= v.len(),
        links_fault(v.subrange(0, n)) is Some,
    ensures
        links_fault(v) == links_fault(v.subrange(0, n)),
    decreases v.len() - n,
{
    if n == v.len() {
        assert(v.subrange(0, n) == v);
    } else {
        assert(v.subrange(0, n + 1).drop_last() == v.subrange(0, n));
        lemma_link_fault_stays(v, n + 1);
    }
}

/// Read the links; none when the argument is no array.
pub fn parse_entity_links(args: &Json) -> (r: Result<Vec<EntityLink>, Error>)
    ensures
        match r {
            Ok(v) => links_fault(raw_links(args@)) is None && are_links_of(
                v@,
                raw_links(args@),
            ),
            Err(e) => e is InvalidInput && links_fault(raw_links(args@)) == Some(e.text()),
        },
{
    let mut v: Vec<EntityLink> = Vec::new();
    let list: &Vec<Json> = match args.get("entity_links") {
        Some(l) => match l.as_array() {
            Some(a) => a,
            None => {
                return Ok(v);
            },
        },
        None => {
            return Ok(v);
        },
    };
    let ghost all = elements(list@);
    assert(raw_links(args@) == all);
    let mut i: usize = 0;
    while i < list.len()
        invariant
            i <= list@.len(),
            all == elements(list@),
            all == raw_links(args@),
            v@.len() == i,
            links_fault(all.subrange(0, i as int)) is None,
            forall|k: int| 0 <= k < i ==> is_link_of(#[trigger] v@[k], all[k]),
        decreases list.len() - i,
    {
        let ghost now = all.subrange(0, i + 1);
        assert(now.drop_last() == all.subrange(0, i as int));
        assert(now.last() == list@[i as int]@);
        match parse_link(&list[i]) {
            Ok(link) => {
                v.push(link);
            },
            Err(e) => {
                proof {
                    lemma_link_fault_stays(all, i + 1);
                }
                return Err(e);
            },
        }
        i = i + 1;
    }
    assert(all.subrange(0, all.len() as int) == all);
    Ok(v)
}

/// The kind of an attached source.
#[derive(Debug, Clone, Copy, PartialEq, Eq, Structural)]
pub enum SourceKind {
    /// A document file, to be materialized.
    Document,
    /// A JSON file that queries are forwarded to.
    Db,
}

/// A request to attach a source.
#[derive(Debug)]
pub struct AttachRequest {
    pub kind: SourceKind,
    /// The file, as the client names it.
    pub path: String,
    pub source_name: String,
    pub links: Vec<EntityLink>,
}

/// The argument that names the file of a source.
pub open spec fn path_key(kind: SourceKind) -> Seq<char> {
    match kind {
        SourceKind::Document => "path"@,
        SourceKind::Db => "connection"@,
    }
}

/// The name of a source: the one asked for, else the stem of its file, else
/// what kind it is.
pub open spec fn source_name_of(args: JsonView, kind: SourceKind, path: Seq<char>) -> Seq<char> {
    match given_text(args, "source_name"@) {
        Some(s) => s,
        None => match path_stem(path) {
            Some(s) => s,
            None => match kind {
                SourceKind::Document => "document"@,
                SourceKind::Db => "db"@,
            },
        },
    }
}

/// The kind of source that the arguments ask for.
pub open spec fn kind_asked(args: JsonView) -> Option<SourceKind> {
    match given_text(args, "source_type"@) {
        Some(s) => if s == "document"@ {
            Some(SourceKind::Document)
        } else if s == "db"@ {
            Some(SourceKind::Db)
        } else {
            None
        },
        None => None,
    }
}

/// Why a request to attach is refused, if it is.
pub open spec fn attach_refused(args: JsonView, r: Refusal) -> bool {
    match given_text(args, "source_type"@) {
        None => r.is_invalid("missing required argument `"@ + "source_type"@ + "`"@),
        Some(s) => match kind_asked(args) {
            None => r.says(
                "unknown source_type `"@ + s + "`; expected `document` or `db`"@,
            ),
            Some(kind) => match given_text(args, path_key(kind)) {
                None => r.is_invalid("missing required argument `"@ + path_key(kind) + "`"@),
                Some(_) => match links_fault(raw_links(args)) {
                    Some(f) => r.is_invalid(f),
                    None => false,
                },
            },
        },
    }
}

/// The request is what the arguments say.
pub open spec fn is_attach_of(q: AttachRequest, args: JsonView) -> bool {
    &&& kind_asked(args) == Some(q.kind)
    &&& given_text(args, path_key(q.kind)) == Some(q.path@)
    &&& q.source_name@ == source_name_of(args, q.kind, q.path@)
    &&& links_fault(raw_links(args)) is None
    &&& are_links_of(q.links@, raw_links(args))
}

/// Read a request to attach a source.
pub fn attach_request(args: &Json) -> (r: Result<AttachRequest, Refusal>)
    ensures
        match r {
            Ok(q) => is_attach_of(q, args@),
            Err(refusal) => attach_refused(args@, refusal),
        },
{
    let source_type: String = match req_str(args, "source_type") {
        Ok(s) => s,
        Err(e) => {
            return Err(Refusal::Error(e));
        },
    };
    let kind: SourceKind = if same_text(source_type.as_str(), "document") {
        SourceKind::Document
    } else if same_text(source_type.as_str(), "db") {
        SourceKind::Db
    } else {
        return Err(
            Refusal::Graceful(
                cat3(
                    "unknown source_type `",
                    source_type.as_str(),
                    "`; expected `document` or `db`",
                ),
            ),
        );
    };
    let key: &str = match kind {
        SourceKind::Document => "path",
        SourceKind::Db => "connection",
    };
    let path: String = match req_str(args, key) {
        Ok(s) => s,
        Err(e) => {
            return Err(Refusal::Error(e));
        },
    };
    let source_name: String = match opt_str(args, "source_name") {
        Some(s) => s,
        None => match file_stem(path.as_str()) {
            Some(s) => s,
            None => match kind {
                SourceKind::Document => "document".to_owned(),
                SourceKind::Db => "db".to_owned(),
            },
        },
    };
    match parse_entity_links(args) {
        Ok(links) => Ok(AttachRequest { kind, path, source_name, links }),
        Err(e) => Err(Refusal::Error(e)),
    }
}

/// The format of a document file.
#[derive(Debug, Clone, Copy, PartialEq, Eq, Structural)]
pub enum FormatKind {
    Text,
    Markdown,
    Json,
    Pdf,
}

/// The name of a format.
pub open spec fn format_name(kind: FormatKind) -> Seq<char> {
    match kind {
        FormatKind::Text => "text"@,
        FormatKind::Markdown => "markdown"@,
        FormatKind::Json => "json"@,
        FormatKind::Pdf => "pdf"@,
    }
}

/// The name of a format.
pub fn format_kind_str(kind: FormatKind) -> (s: &'static str)
    ensures
        s@ == format_name(kind),
{
    match kind {
        FormatKind::Text => "text",
        FormatKind::Markdown => "markdown",
        FormatKind::Json => "json",
        FormatKind::Pdf => "pdf",
    }
}

/// The answer after a document was attached.
pub open spec fn document_attached(source_name: Seq<char>, kind: FormatKind, documents: u64, links: u64) -> JsonView {
    JsonView::Object(
        seq![
            ("source_name"@, JsonView::Text(source_name)),
            ("source_type"@, JsonView::Text("document"@)),
            ("format"@, JsonView::Text(format_name(kind))),
            ("documents_loaded"@, JsonView::Int(documents as int)),
            ("entity_links_registered"@, JsonView::Int(links as int)),
            ("mode"@, JsonView::Text("materialize-only (documents are NOT query-forwarded; use knowledge_ingest to materialize into the graph)"@)),
        ],
    )
}

/// Answer after a document was attached; `links` is how many links are known.
pub fn document_attached_reply(q: &AttachRequest, kind: FormatKind, documents: u64, links: u64) -> (j: Json)
    ensures
        j@ == document_attached(q.source_name@, kind, documents, links),
{
    let j: Json = object(
        vec![
            member("source_name", text(q.source_name.as_str())),
            member("source_type", text("document")),
            member("format", text(format_kind_str(kind))),
            member("documents_loaded", count(documents)),
            member("entity_links_registered", count(links)),
            member("mode", text("materialize-only (documents are NOT query-forwarded; use knowledge_ingest to materialize into the graph)")),
        ],
    );
    assert(j@->Object_0 =~= document_attached(q.source_name@, kind, documents, links)->Object_0);
    j
}

/// The answer after a JSON file was attached.
pub open spec fn db_attached(source_name: Seq<char>, connection: Seq<char>, rows: u64, links: u64) -> JsonView {
    JsonView::Object(
        seq![
            ("source_name"@, JsonView::Text(source_name)),
            ("source_type"@, JsonView::Text("db"@)),
            ("connection"@, JsonView::Text(connection)),
            ("rows_indexed"@, JsonView::Int(rows as int)),
            ("entity_links_registered"@, JsonView::Int(links as int)),
            ("mode"@, JsonView::Text("index-mode (query-forwarded into hybrid search via RRF; not materialized by default)"@)),
        ],
    )
}

/// Answer after a JSON file was attached; `links` is how many links are known.
pub fn db_attached_reply(q: &AttachRequest, rows: u64, links: u64) -> (j: Json)
    ensures
        j@ == db_attached(q.source_name@, q.path@, rows, links),
{
    let j: Json = object(
        vec![
            member("source_name", text(q.source_name.as_str())),
            member("source_type", text("db")),
            member("connection", text(q.path.as_str())),
            member("rows_indexed", count(rows)),
            member("entity_links_registered", count(links)),
            member("mode", text("index-mode (query-forwarded into hybrid search via RRF; not materialized by default)")),
        ],
    );
    assert(j@->Object_0 =~= db_attached(q.source_name@, q.path@, rows, links)->Object_0);
    j
}

/// What to do with an attached source.
#[derive(Debug, Clone, Copy, PartialEq, Eq, Structural)]
pub enum IngestMode {
    /// Report only.
    Index,
    /// Materialize its documents.
    Materialize,
}

/// A request to ingest a source.
#[derive(Debug)]
pub struct IngestRequest {
    pub source_name: String,
    pub mode: IngestMode,
}

/// The mode that the arguments ask for; materializing is the default.
pub open spec fn mode_asked(args: JsonView) -> Option<IngestMode> {
    let mode = text_or(args, "mode"@, "materialize"@);
    if mode == "index"@ {
        Some(IngestMode::Index)
    } else if mode == "materialize"@ {
        Some(IngestMode::Materialize)
    } else {
        None
    }
}

/// Read a request to ingest a source.
pub fn ingest_request(args: &Json) -> (r: Result<IngestRequest, Refusal>)
    ensures
        match r {
            Ok(q) => given_text(args@, "source_name"@) == Some(q.source_name@) && mode_asked(args@)
                == Some(q.mode),
            Err(refusal) => if given_text(args@, "source_name"@) is None {
                refusal.is_invalid("missing required argument `"@ + "source_name"@ + "`"@)
            } else {
                mode_asked(args@) is None && refusal.says(
                    "unknown mode `"@ + text_or(args@, "mode"@, "materialize"@)
                        + "`; expected `index` or `materialize`"@,
                )
            },
        },
{
    let source_name: String = match req_str(args, "source_name") {
        Ok(s) => s,
        Err(e) => {
            return Err(Refusal::Error(e));
        },
    };
    let mode: String = str_or(args, "mode", "materialize");
    if same_text(mode.as_str(), "index") {
        Ok(IngestRequest { source_name, mode: IngestMode::Index })
    } else if same_text(mode.as_str(), "materialize") {
        Ok(IngestRequest { source_name, mode: IngestMode::Materialize })
    } else {
        Err(
            Refusal::Graceful(
                cat3("unknown mode `", mode.as_str(), "`; expected `index` or `materialize`"),
            ),
        )
    }
}

/// Whether every attached source is meant.
pub fn is_every_source(source_name: &str) -> (r: bool)
    ensures
        r == (source_name@ == "all"@),
{
    same_text(source_name, "all")
}

/// The failure of a source that has no documents.
pub fn no_documents(source_name: &str) -> (r: Refusal)
    ensures
        r.says("source `"@ + source_name@ + "` has no documents to materialize"@),
{
    Refusal::Graceful(cat3("source `", source_name, "` has no documents to materialize"))
}

/// The report on a source that queries are forwarded to.
pub open spec fn index_status(source_name: Seq<char>, providers: u64) -> JsonView {
    JsonView::Object(
        seq![
            ("source_name"@, JsonView::Text(source_name)),
            ("mode"@, JsonView::Text("index"@)),
            ("status"@, JsonView::Text("index-mode sources are query-forwarded; no materialization performed"@)),
            ("signal_providers"@, JsonView::Int(providers as int)),
        ],
    )
}

/// Report on a source that queries are forwarded to.
pub fn index_reply(source_name: &str, providers: u64) -> (j: Json)
    ensures
        j@ == index_status(source_name@, providers),
{
    let j: Json = object(
        vec![
            member("source_name", text(source_name)),
            member("mode", text("index")),
            member("status", text("index-mode sources are query-forwarded; no materialization performed")),
            member("signal_providers", count(providers)),
        ],
    );
    assert(j@->Object_0 =~= index_status(source_name@, providers)->Object_0);
    j
}

/// The report on a run that materialized documents.
pub open spec fn materialized(source_name: Seq<char>, run: IngestView) -> JsonView {
    JsonView::Object(
        seq![
            ("source_name"@, JsonView::Text(source_name)),
            ("mode"@, JsonView::Text("materialize"@)),
            ("documents_created"@, JsonView::Int(run.documents as int)),
            ("chapters_created"@, JsonView::Int(run.chapters as int)),
            ("evidence_created"@, JsonView::Int(run.passages as int)),
            ("total_materialized"@, JsonView::Int(run.docs.len() as int)),
        ],
    )
}

/// Report on a run that materialized documents.
pub fn materialized_reply(source_name: &str, run: &Ingest) -> (j: Json)
    ensures
        j@ == materialized(source_name@, run@),
{
    let j: Json = object(
        vec![
            member("source_name", text(source_name)),
            member("mode", text("materialize")),
            member("documents_created", count(run.documents_created as u64)),
            member("chapters_created", count(run.chapters_created as u64)),
            member("evidence_created", count(run.passages_created as u64)),
            member("total_materialized", count(run.docs.len() as u64)),
        ],
    );
    assert(j@->Object_0 =~= materialized(source_name@, run@)->Object_0);
    j
}

/// A request to compile a conversation into facts of the user, of the agent,
/// and facts derived from what the agent said.
#[derive(Debug)]
pub struct FactCompileRequest {
    pub messages: Vec<Message>,
    pub tenant_id: String,
    pub user_id: String,
    pub agent_id: String,
    /// The facts of the agent and the derived ones are wanted.
    pub include_agent_facts: bool,
}

/// What is wrong with a request to compile facts, if anything.
pub open spec fn fact_compile_fault(args: JsonView) -> Option<Seq<char>> {
    match args.get("messages"@) {
        Some(JsonView::Array(v)) => messages_fault(v),
        _ => Some("missing `messages` array"@),
    }
}

/// Read a request to compile facts. The agent does not speak for the user:
/// its facts are left out unless they are asked for.
pub fn fact_compile_request(args: &Json) -> (r: Result<FactCompileRequest, Error>)
    ensures
        match r {
            Ok(q) => {
                &&& fact_compile_fault(args@) is None
                &&& args@.get("messages"@) matches Some(JsonView::Array(raw)) && are_messages_of(
                    q.messages@,
                    raw,
                )
                &&& q.tenant_id@ == text_or(args@, "tenant_id"@, "default"@)
                &&& q.user_id@ == text_or(args@, "user_id"@, ""@)
                &&& q.agent_id@ == text_or(args@, "agent_id"@, ""@)
                &&& q.include_agent_facts == flag_given(args@, "include_agent_facts"@)
            },
            Err(e) => e is InvalidInput && fact_compile_fault(args@) == Some(e.text()),
        },
{
    let raw: &Vec<Json> = match args.get("messages") {
        Some(v) => match v.as_array() {
            Some(l) => l,
            None => {
                return Err(Error::InvalidInput("missing `messages` array".to_owned()));
            },
        },
        None => {
            return Err(Error::InvalidInput("missing `messages` array".to_owned()));
        },
    };
    match parse_messages(raw) {
        Ok(messages) => Ok(
            FactCompileRequest {
                messages,
                tenant_id: str_or(args, "tenant_id", "default"),
                user_id: str_or(args, "user_id", ""),
                agent_id: str_or(args, "agent_id", ""),
                include_agent_facts: flag_arg(args, "include_agent_facts"),
            },
        ),
        Err(e) => Err(e),
    }
}

/// Which of the compiled facts are to be stored.
#[derive(Debug)]
pub struct StoragePlan {
    pub user: bool,
    pub agent: bool,
    pub derived: bool,
}

/// Decide which of the compiled facts are to be stored: those of the user
/// always, the others only when asked for; an empty list is not stored.
pub fn storage_plan(
    include_agent_facts: bool,
    user_facts: usize,
    agent_facts: usize,
    derived_facts: usize,
) -> (p: StoragePlan)
    ensures
        p.user == (user_facts > 0),
        p.agent == (include_agent_facts && agent_facts > 0),
        p.derived == (include_agent_facts && derived_facts > 0),
{
    StoragePlan {
        user: user_facts > 0,
        agent: include_agent_facts && agent_facts > 0,
        derived: include_agent_facts && derived_facts > 0,
    }
}

/// What was stored of the compiled facts.
#[derive(Debug)]
pub struct StoredFacts {
    pub user_entity_id: i64,
    pub agent_entity_id: i64,
    pub user: u64,
    pub agent: u64,
    pub derived: u64,
    /// How many facts were compiled, stored or not.
    pub extracted: u64,
}

/// The report on compiled facts.
pub open spec fn facts_compiled(q: FactCompileRequest, stored: StoredFacts) -> JsonView {
    JsonView::Object(
        seq![
            ("tenant_id"@, JsonView::Text(q.tenant_id@)),
            ("user_id"@, JsonView::Text(q.user_id@)),
            ("agent_id"@, JsonView::Text(q.agent_id@)),
            ("user_entity_id"@, JsonView::Int(stored.user_entity_id as int)),
            ("agent_entity_id"@, JsonView::Int(stored.agent_entity_id as int)),
            ("include_agent_facts"@, JsonView::Bool(q.include_agent_facts)),
            ("user_facts_persisted"@, JsonView::Int(stored.user as int)),
            ("agent_facts_persisted"@, JsonView::Int(stored.agent as int)),
            ("derived_facts_persisted"@, JsonView::Int(stored.derived as int)),
            ("total_extracted"@, JsonView::Int(stored.extracted as int)),
            ("note"@, JsonView::Text(if q.include_agent_facts { "agent channel enabled; agent events + derived restatements persisted with attribution"@ } else { "agent channel disabled (default); only user facts persisted. set include_agent_facts=true to enable agent + derived channels"@ })),
        ],
    )
}

/// Report on compiled facts.
pub fn facts_compiled_reply(q: &FactCompileRequest, stored: &StoredFacts) -> (j: Json)
    ensures
        j@ == facts_compiled(*q, *stored),
{
    let note: &str = if q.include_agent_facts {
        "agent channel enabled; agent events + derived restatements persisted with attribution"
    } else {
        "agent channel disabled (default); only user facts persisted. set include_agent_facts=true to enable agent + derived channels"
    };
    let j: Json = object(
        vec![
            member("tenant_id", text(q.tenant_id.as_str())),
            member("user_id", text(q.user_id.as_str())),
            member("agent_id", text(q.agent_id.as_str())),
            member("user_entity_id", integer(stored.user_entity_id)),
            member("agent_entity_id", integer(stored.agent_entity_id)),
            member("include_agent_facts", Json::Bool(q.include_agent_facts)),
            member("user_facts_persisted", count(stored.user)),
            member("agent_facts_persisted", count(stored.agent)),
            member("derived_facts_persisted", count(stored.derived)),
            member("total_extracted", count(stored.extracted)),
            member("note", text(note)),
        ],
    );
    assert(j@->Object_0 =~= facts_compiled(*q, *stored)->Object_0);
    j
}

/// Links pass exactly when each is an object that names the entity there, the
/// entity here and the source.
pub proof fn law_links_need_all_names(v: Seq<JsonView>)
    ensures
        links_fault(v) is None <==> forall|i: int|
            0 <= i < v.len() ==> (#[trigger] v[i]) is Object && given_text(
                v[i],
                "external_name"@,
            ) is Some && given_text(v[i], "canonical_name"@) is Some && given_text(
                v[i],
                "source"@,
            ) is Some,
    decreases v.len(),
{
    if v.len() > 0 {
        let front = v.drop_last();
        law_links_need_all_names(front);
        assert(v[v.len() - 1] == v.last());
        assert forall|k: int| 0 <= k < front.len() implies #[trigger] v[k] == front[k] by {}
        assert forall|k: int| 0 <= k < front.len() implies #[trigger] front[k] == v[k] by {}
    }
}

/// A source goes by the name that it is given, else by the name of its file
/// without the extension.
pub proof fn law_sources_are_named(
    args: JsonView,
    kind: SourceKind,
    names: Seq<Seq<char>>,
    stem: Seq<char>,
    ext: Seq<char>,
)
    requires
        names.len() > 0,
        forall|i: int| 0 <= i < names.len() ==> crate::mcp::paths::is_plain(#[trigger] names[i]),
        names.last() == stem + seq!['.'] + ext,
        stem.len() > 0,
        !ext.contains('.'),
    ensures
        given_text(args, "source_name"@) matches Some(s) ==> source_name_of(
            args,
            kind,
            crate::text::joined(names, "/"@),
        ) == s,
        given_text(args, "source_name"@) is None ==> source_name_of(
            args,
            kind,
            crate::text::joined(names, "/"@),
        ) == stem,
{
    reveal_strlit("/");
    crate::mcp::paths::law_components_of_names(names);
    crate::mcp::paths::law_stem_ends_at_the_last_dot(stem, ext);
    assert(crate::mcp::paths::is_plain(names[names.len() - 1]));
    assert("/"@.contains("/"@[0]));
}

/// What was stored is told channel by channel.
pub proof fn law_stored_facts_are_told(q: FactCompileRequest, stored: StoredFacts)
    ensures
        ({
            let j = facts_compiled(q, stored);
            &&& j.get("tenant_id"@) == Some(JsonView::Text(q.tenant_id@))
            &&& j.get("user_id"@) == Some(JsonView::Text(q.user_id@))
            &&& j.get("agent_id"@) == Some(JsonView::Text(q.agent_id@))
            &&& j.get("user_entity_id"@) == Some(JsonView::Int(stored.user_entity_id as int))
            &&& j.get("agent_entity_id"@) == Some(JsonView::Int(stored.agent_entity_id as int))
            &&& j.get("include_agent_facts"@) == Some(JsonView::Bool(q.include_agent_facts))
            &&& j.get("user_facts_persisted"@) == Some(JsonView::Int(stored.user as int))
            &&& j.get("agent_facts_persisted"@) == Some(JsonView::Int(stored.agent as int))
            &&& j.get("derived_facts_persisted"@) == Some(JsonView::Int(stored.derived as int))
            &&& j.get("total_extracted"@) == Some(JsonView::Int(stored.extracted as int))
        }),
{
    reveal_strlit("tenant_id");
    reveal_strlit("user_id");
    reveal_strlit("agent_id");
    reveal_strlit("user_entity_id");
    reveal_strlit("agent_entity_id");
    reveal_strlit("include_agent_facts");
    reveal_strlit("user_facts_persisted");
    reveal_strlit("agent_facts_persisted");
    reveal_strlit("derived_facts_persisted");
    reveal_strlit("total_extracted");
    assert("agent_entity_id"@[0] == 'a');
    assert("total_extracted"@[0] == 't');
    let m = facts_compiled(q, stored)->Object_0;
    assert(m[0].0 == "tenant_id"@);
    assert(m[1].0 == "user_id"@);
    assert(m[2].0 == "agent_id"@);
    assert(m[3].0 == "user_entity_id"@);
    assert(m[4].0 == "agent_entity_id"@);
    assert(m[5].0 == "include_agent_facts"@);
    assert(m[6].0 == "user_facts_persisted"@);
    assert(m[7].0 == "agent_facts_persisted"@);
    assert(m[8].0 == "derived_facts_persisted"@);
    assert(m[9].0 == "total_extracted"@);
    crate::json::law_first_member_counts(m, "tenant_id"@, 0);
    crate::json::law_first_member_counts(m, "user_id"@, 1);
    crate::json::law_first_member_counts(m, "agent_id"@, 2);
    crate::json::law_first_member_counts(m, "user_entity_id"@, 3);
    crate::json::law_first_member_counts(m, "agent_entity_id"@, 4);
    crate::json::law_first_member_counts(m, "include_agent_facts"@, 5);
    crate::json::law_first_member_counts(m, "user_facts_persisted"@, 6);
    crate::json::law_first_member_counts(m, "agent_facts_persisted"@, 7);
    crate::json::law_first_member_counts(m, "derived_facts_persisted"@, 8);
    crate::json::law_first_member_counts(m, "total_extracted"@, 9);
}

/// Of a source that queries are forwarded to it is told that nothing was
/// materialized, and how many such sources there are.
pub proof fn law_forwarding_is_told(source_name: Seq<char>, providers: u64)
    ensures
        ({
            let j = index_status(source_name, providers);
            &&& j.get("source_name"@) == Some(JsonView::Text(source_name))
            &&& j.get("mode"@) == Some(JsonView::Text("index"@))
            &&& j.get("status"@) == Some(JsonView::Text("index-mode sources are query-forwarded; no materialization performed"@))
            &&& j.get("signal_providers"@) == Some(JsonView::Int(providers as int))
        }),
{
    reveal_strlit("source_name");
    reveal_strlit("mode");
    reveal_strlit("status");
    reveal_strlit("signal_providers");
    let m = index_status(source_name, providers)->Object_0;
    assert(m[0].0 == "source_name"@);
    assert(m[1].0 == "mode"@);
    assert(m[2].0 == "status"@);
    assert(m[3].0 == "signal_providers"@);
    crate::json::law_first_member_counts(m, "source_name"@, 0);
    crate::json::law_first_member_counts(m, "mode"@, 1);
    crate::json::law_first_member_counts(m, "status"@, 2);
    crate::json::law_first_member_counts(m, "signal_providers"@, 3);
}

/// A run is told by what it created and by how many documents it went through.
pub proof fn law_materialization_is_told(source_name: Seq<char>, run: IngestView)
    ensures
        ({
            let j = materialized(source_name, run);
            &&& j.get("source_name"@) == Some(JsonView::Text(source_name))
            &&& j.get("mode"@) == Some(JsonView::Text("materialize"@))
            &&& j.get("documents_created"@) == Some(JsonView::Int(run.documents as int))
            &&& j.get("chapters_created"@) == Some(JsonView::Int(run.chapters as int))
            &&& j.get("evidence_created"@) == Some(JsonView::Int(run.passages as int))
            &&& j.get("total_materialized"@) == Some(JsonView::Int(run.docs.len() as int))
        }),
{
    reveal_strlit("source_name");
    reveal_strlit("mode");
    reveal_strlit("documents_created");
    reveal_strlit("chapters_created");
    reveal_strlit("evidence_created");
    reveal_strlit("total_materialized");
    assert("chapters_created"@[0] == 'c');
    assert("evidence_created"@[0] == 'e');
    let m = materialized(source_name, run)->Object_0;
    assert(m[0].0 == "source_name"@);
    assert(m[1].0 == "mode"@);
    assert(m[2].0 == "documents_created"@);
    assert(m[3].0 == "chapters_created"@);
    assert(m[4].0 == "evidence_created"@);
    assert(m[5].0 == "total_materialized"@);
    crate::json::law_first_member_counts(m, "source_name"@, 0);
    crate::json::law_first_member_counts(m, "mode"@, 1);
    crate::json::law_first_member_counts(m, "documents_created"@, 2);
    crate::json::law_first_member_counts(m, "chapters_created"@, 3);
    crate::json::law_first_member_counts(m, "evidence_created"@, 4);
    crate::json::law_first_member_counts(m, "total_materialized"@, 5);
}

/// Of an attached JSON file its rows and links are counted.
pub proof fn law_attached_file_is_told(source_name: Seq<char>, connection: Seq<char>, rows: u64, links: u64)
    ensures
        ({
            let j = db_attached(source_name, connection, rows, links);
            &&& j.get("source_name"@) == Some(JsonView::Text(source_name))
            &&& j.get("source_type"@) == Some(JsonView::Text("db"@))
            &&& j.get("connection"@) == Some(JsonView::Text(connection))
            &&& j.get("rows_indexed"@) == Some(JsonView::Int(rows as int))
            &&& j.get("entity_links_registered"@) == Some(JsonView::Int(links as int))
        }),
{
    reveal_strlit("source_name");
    reveal_strlit("source_type");
    reveal_strlit("connection");
    reveal_strlit("rows_indexed");
    reveal_strlit("entity_links_registered");
    assert("source_name"@[7] == 'n');
    assert("source_type"@[7] == 't');
    let m = db_attached(source_name, connection, rows, links)->Object_0;
    assert(m[0].0 == "source_name"@);
    assert(m[1].0 == "source_type"@);
    assert(m[2].0 == "connection"@);
    assert(m[3].0 == "rows_indexed"@);
    assert(m[4].0 == "entity_links_registered"@);
    crate::json::law_first_member_counts(m, "source_name"@, 0);
    crate::json::law_first_member_counts(m, "source_type"@, 1);
    crate::json::law_first_member_counts(m, "connection"@, 2);
    crate::json::law_first_member_counts(m, "rows_indexed"@, 3);
    crate::json::law_first_member_counts(m, "entity_links_registered"@, 4);
}

/// Of an attached document its parts and links are counted.
pub proof fn law_attached_document_is_told(source_name: Seq<char>, kind: FormatKind, documents: u64, links: u64)
    ensures
        ({
            let j = document_attached(source_name, kind, documents, links);
            &&& j.get("source_name"@) == Some(JsonView::Text(source_name))
            &&& j.get("source_type"@) == Some(JsonView::Text("document"@))
            &&& j.get("format"@) == Some(JsonView::Text(format_name(kind)))
            &&& j.get("documents_loaded"@) == Some(JsonView::Int(documents as int))
            &&& j.get("entity_links_registered"@) == Some(JsonView::Int(links as int))
        }),
{
    reveal_strlit("source_name");
    reveal_strlit("source_type");
    reveal_strlit("format");
    reveal_strlit("documents_loaded");
    reveal_strlit("entity_links_registered");
    assert("source_name"@[7] == 'n');
    assert("source_type"@[7] == 't');
    let m = document_attached(source_name, kind, documents, links)->Object_0;
    assert(m[0].0 == "source_name"@);
    assert(m[1].0 == "source_type"@);
    assert(m[2].0 == "format"@);
    assert(m[3].0 == "documents_loaded"@);
    assert(m[4].0 == "entity_links_registered"@);
    crate::json::law_first_member_counts(m, "source_name"@, 0);
    crate::json::law_first_member_counts(m, "source_type"@, 1);
    crate::json::law_first_member_counts(m, "format"@, 2);
    crate::json::law_first_member_counts(m, "documents_loaded"@, 3);
    crate::json::law_first_member_counts(m, "entity_links_registered"@, 4);
}

/// A source is attached when its kind is known and its file is named under the
/// argument of that kind; without links there is then nothing to refuse. A
/// kind that is not known is refused whatever else is given, and so is a request
/// without one.
pub proof fn law_named_sources_are_attached(args: JsonView, s: Seq<char>, r: Refusal)
    requires
        args.get("entity_links"@) is None,
    ensures
        args.get("source_type"@) == Some(JsonView::Text("document"@)) ==> (attach_refused(args, r)
            ==> !(args.get("path"@) is Some && args.get("path"@)->0 is Text)),
        args.get("source_type"@) == Some(JsonView::Text("db"@)) ==> (attach_refused(args, r)
            ==> !(args.get("connection"@) is Some && args.get("connection"@)->0 is Text)),
        args.get("source_type"@) == Some(JsonView::Text("document"@)) && !(args.get(
            "path"@,
        ) is Some && args.get("path"@)->0 is Text) ==> (attach_refused(args, r) <==> r.is_invalid(
            "missing required argument `"@ + "path"@ + "`"@,
        )),
        args.get("source_type"@) == Some(JsonView::Text("db"@)) && !(args.get(
            "connection"@,
        ) is Some && args.get("connection"@)->0 is Text) ==> (attach_refused(args, r)
            <==> r.is_invalid("missing required argument `"@ + "connection"@ + "`"@)),
        args.get("source_type"@) is None ==> (attach_refused(args, r) <==> r.is_invalid(
            "missing required argument `"@ + "source_type"@ + "`"@,
        )),
        args.get("source_type"@) == Some(JsonView::Text(s)) && s != "document"@ && s
                != "db"@ ==> (attach_refused(args, r) <==> r.says(
                "unknown source_type `"@ + s + "`; expected `document` or `db`"@,
            )),
{
    reveal_strlit("document");
    reveal_strlit("db");
    assert("document"@ != "db"@) by {
        assert("document"@.len() != "db"@.len());
    }
}

/// What is attached is what was asked for: the file under the argument of its
/// kind, the name that was given, and each link in its place.
pub proof fn law_attached_source_is_the_one_asked_for(
    q: AttachRequest,
    args: JsonView,
    s: Seq<char>,
    i: int,
)
    requires
        is_attach_of(q, args),
        args.get("entity_links"@) is Some,
        args.get("entity_links"@)->0 is Array,
        0 <= i < args.get("entity_links"@)->0->Array_0.len(),
    ensures
        q.kind is Db <==> args.get("source_type"@) == Some(JsonView::Text("db"@)),
        q.kind is Document <==> args.get("source_type"@) == Some(JsonView::Text("document"@)),
        q.kind is Db ==> args.get("connection"@) == Some(JsonView::Text(q.path@)),
        q.kind is Document ==> args.get("path"@) == Some(JsonView::Text(q.path@)),
        args.get("source_name"@) == Some(JsonView::Text(s)) ==> q.source_name@ == s,
        q.links@.len() == args.get("entity_links"@)->0->Array_0.len(),
        ({
            let raw = args.get("entity_links"@)->0->Array_0[i];
            &&& raw.get("external_name"@) == Some(JsonView::Text(q.links@[i].external_name@))
            &&& raw.get("canonical_name"@) == Some(JsonView::Text(q.links@[i].canonical_name@))
            &&& raw.get("source"@) == Some(JsonView::Text(q.links@[i].source@))
        }),
{
    reveal_strlit("document");
    reveal_strlit("db");
    assert("document"@ != "db"@) by {
        assert("document"@.len() != "db"@.len());
    }
    assert(is_link_of(q.links@[i], raw_links(args)[i]));
}

/// Documents are materialized unless the index mode is asked for; another mode
/// is not known.
pub proof fn law_materializing_is_the_default(args: JsonView, s: Seq<char>)
    ensures
        args.get("mode"@) is None ==> mode_asked(args) == Some(IngestMode::Materialize),
        args.get("mode"@) == Some(JsonView::Text("materialize"@)) ==> mode_asked(args) == Some(
            IngestMode::Materialize,
        ),
        args.get("mode"@) == Some(JsonView::Text("index"@)) ==> mode_asked(args) == Some(
            IngestMode::Index,
        ),
        args.get("mode"@) == Some(JsonView::Text(s)) && s != "index"@ && s
                != "materialize"@ ==> mode_asked(args) is None,
{
    reveal_strlit("index");
    reveal_strlit("materialize");
    assert("index"@ != "materialize"@) by {
        assert("index"@.len() != "materialize"@.len());
    }
}

} // verus!
