//! Exporting the knowledge graph and importing it again.
use vstd::prelude::*;

use crate::json::{count, member, object, text, Json, JsonView};
use crate::mcp::args::{given_text, opt_str};
use crate::mcp::types::Refusal;
use crate::text::{cat, cat3};

verus! {

/// The exporting tool, over a handle to the knowledge store.
pub struct MemoryExportHandler<S> {
    pub store: S,
}

/// The importing tool, over a handle to the knowledge store.
pub struct MemoryImportHandler<S> {
    pub store: S,
}

/// How much a snapshot holds.
#[derive(Debug, Clone, Copy)]
pub struct SnapshotSize {
    pub documents: u64,
    pub objects: u64,
    pub edges: u64,
    pub evidence: u64,
}

/// The file that a snapshot is to be written to; none when it is to be
/// returned.
pub fn export_path(args: &Json) -> (r: Option<String>)
    ensures
        match r {
            Some(p) => given_text(args@, "path"@) == Some(p@),
            None => given_text(args@, "path"@) is None,
        },
{
    opt_str(args, "path")
}

/// The answer after a snapshot was written to a file.
pub open spec fn written_answer(path: Seq<char>, size: SnapshotSize) -> JsonView {
    JsonView::Object(
        seq![
            ("exported"@, JsonView::Bool(true)),
            ("path"@, JsonView::Text(path)),
            ("documents"@, JsonView::Int(size.documents as int)),
            ("objects"@, JsonView::Int(size.objects as int)),
            ("edges"@, JsonView::Int(size.edges as int)),
            ("evidence"@, JsonView::Int(size.evidence as int)),
        ],
    )
}

/// Answer after a snapshot was written to a file.
pub fn written_reply(path: &str, size: SnapshotSize) -> (j: Json)
    ensures
        j@ == written_answer(path@, size),
{
    let j: Json = object(
        vec![
            member("exported", Json::Bool(true)),
            member("path", text(path)),
            member("documents", count(size.documents)),
            member("objects", count(size.objects)),
            member("edges", count(size.edges)),
            member("evidence", count(size.evidence)),
        ],
    );
    assert(j@->Object_0 =~= written_answer(path@, size)->Object_0);
    j
}

/// The answer that holds a snapshot.
pub open spec fn inline_answer(size: SnapshotSize, bundle: JsonView) -> JsonView {
    JsonView::Object(
        seq![
            ("exported"@, JsonView::Bool(true)),
            ("inline"@, JsonView::Bool(true)),
            ("documents"@, JsonView::Int(size.documents as int)),
            ("objects"@, JsonView::Int(size.objects as int)),
            ("edges"@, JsonView::Int(size.edges as int)),
            ("evidence"@, JsonView::Int(size.evidence as int)),
            ("bundle"@, bundle),
        ],
    )
}

/// Answer with the snapshot itself.
pub fn inline_reply(size: SnapshotSize, bundle: Json) -> (j: Json)
    ensures
        j@ == inline_answer(size, bundle@),
{
    let j: Json = object(
        vec![
            member("exported", Json::Bool(true)),
            member("inline", Json::Bool(true)),
            member("documents", count(size.documents)),
            member("objects", count(size.objects)),
            member("edges", count(size.edges)),
            member("evidence", count(size.evidence)),
            member("bundle", bundle),
        ],
    );
    assert(j@->Object_0 =~= inline_answer(size, bundle@)->Object_0);
    j
}

/// Where a snapshot to import comes from.
#[derive(Debug)]
pub enum ImportSource {
    /// A file.
    File(String),
    /// The request itself.
    Inline(String),
}

/// Find the snapshot to import: the file that is named, else the content that
/// is given.
pub fn import_source(args: &Json) -> (r: Result<ImportSource, Refusal>)
    ensures
        match r {
            Ok(ImportSource::File(p)) => given_text(args@, "path"@) == Some(p@),
            Ok(ImportSource::Inline(c)) => given_text(args@, "path"@) is None && given_text(
                args@,
                "content"@,
            ) == Some(c@),
            Err(refusal) => {
                &&& given_text(args@, "path"@) is None
                &&& given_text(args@, "content"@) is None
                &&& refusal.says("memory_import requires `content` or `path`"@)
            },
        },
{
    match opt_str(args, "path") {
        Some(p) => Ok(ImportSource::File(p)),
        None => match opt_str(args, "content") {
            Some(c) => Ok(ImportSource::Inline(c)),
            None => Err(
                Refusal::Graceful("memory_import requires `content` or `path`".to_owned()),
            ),
        },
    }
}

/// Report that the file could not be read.
pub fn unreadable_file(path: &str, why: &str) -> (r: Refusal)
    ensures
        r.says("read import file "@ + path@ + ": "@ + why@),
{
    let head: String = cat3("read import file ", path, ": ");
    Refusal::Graceful(cat(head.as_str(), why))
}

/// Report that the snapshot is none.
pub fn invalid_bundle(why: &str) -> (r: Refusal)
    ensures
        r.says("invalid memory bundle: "@ + why@),
{
    Refusal::Graceful(cat("invalid memory bundle: ", why))
}

/// Report that the snapshot could not be imported.
pub fn import_failure(why: &str) -> (r: Refusal)
    ensures
        r.says("import failed: "@ + why@),
{
    Refusal::Graceful(cat("import failed: ", why))
}

/// What an import did.
#[derive(Debug, Clone, Copy)]
pub struct ImportStats {
    pub documents_created: u64,
    pub objects_created: u64,
    pub objects_merged: u64,
    pub evidence_created: u64,
    pub edges_created: u64,
    pub links_created: u64,
}

/// The answer after an import.
pub open spec fn imported_answer(s: ImportStats) -> JsonView {
    JsonView::Object(
        seq![
            ("imported"@, JsonView::Bool(true)),
            ("documents_created"@, JsonView::Int(s.documents_created as int)),
            ("objects_created"@, JsonView::Int(s.objects_created as int)),
            ("objects_merged"@, JsonView::Int(s.objects_merged as int)),
            ("evidence_created"@, JsonView::Int(s.evidence_created as int)),
            ("edges_created"@, JsonView::Int(s.edges_created as int)),
            ("links_created"@, JsonView::Int(s.links_created as int)),
        ],
    )
}

/// Answer after an import.
pub fn imported_reply(s: ImportStats) -> (j: Json)
    ensures
        j@ == imported_answer(s),
{
    let j: Json = object(
        vec![
            member("imported", Json::Bool(true)),
            member("documents_created", count(s.documents_created)),
            member("objects_created", count(s.objects_created)),
            member("objects_merged", count(s.objects_merged)),
            member("evidence_created", count(s.evidence_created)),
            member("edges_created", count(s.edges_created)),
            member("links_created", count(s.links_created)),
        ],
    );
    assert(j@->Object_0 =~= imported_answer(s)->Object_0);
    j
}

/// An import is told by what it created and merged.
pub proof fn law_import_is_told(s: ImportStats)
    ensures
        ({
            let j = imported_answer(s);
            &&& j.get("imported"@) == Some(JsonView::Bool(true))
            &&& j.get("documents_created"@) == Some(JsonView::Int(s.documents_created as int))
            &&& j.get("objects_created"@) == Some(JsonView::Int(s.objects_created as int))
            &&& j.get("objects_merged"@) == Some(JsonView::Int(s.objects_merged as int))
            &&& j.get("evidence_created"@) == Some(JsonView::Int(s.evidence_created as int))
            &&& j.get("edges_created"@) == Some(JsonView::Int(s.edges_created as int))
            &&& j.get("links_created"@) == Some(JsonView::Int(s.links_created as int))
        }),
{
    reveal_strlit("imported");
    reveal_strlit("documents_created");
    reveal_strlit("objects_created");
    reveal_strlit("objects_merged");
    reveal_strlit("evidence_created");
    reveal_strlit("edges_created");
    reveal_strlit("links_created");
    assert("edges_created"@[0] == 'e');
    assert("links_created"@[0] == 'l');
    let m = imported_answer(s)->Object_0;
    assert(m[0].0 == "imported"@);
    assert(m[1].0 == "documents_created"@);
    assert(m[2].0 == "objects_created"@);
    assert(m[3].0 == "objects_merged"@);
    assert(m[4].0 == "evidence_created"@);
    assert(m[5].0 == "edges_created"@);
    assert(m[6].0 == "links_created"@);
    crate::json::law_first_member_counts(m, "imported"@, 0);
    crate::json::law_first_member_counts(m, "documents_created"@, 1);
    crate::json::law_first_member_counts(m, "objects_created"@, 2);
    crate::json::law_first_member_counts(m, "objects_merged"@, 3);
    crate::json::law_first_member_counts(m, "evidence_created"@, 4);
    crate::json::law_first_member_counts(m, "edges_created"@, 5);
    crate::json::law_first_member_counts(m, "links_created"@, 6);
}

/// A snapshot that is not written to a file is part of the answer.
pub proof fn law_snapshot_is_handed_out(size: SnapshotSize, bundle: JsonView)
    ensures
        ({
            let j = inline_answer(size, bundle);
            &&& j.get("exported"@) == Some(JsonView::Bool(true))
            &&& j.get("inline"@) == Some(JsonView::Bool(true))
            &&& j.get("documents"@) == Some(JsonView::Int(size.documents as int))
            &&& j.get("objects"@) == Some(JsonView::Int(size.objects as int))
            &&& j.get("edges"@) == Some(JsonView::Int(size.edges as int))
            &&& j.get("evidence"@) == Some(JsonView::Int(size.evidence as int))
            &&& j.get("bundle"@) == Some(bundle)
        }),
{
    reveal_strlit("exported");
    reveal_strlit("inline");
    reveal_strlit("documents");
    reveal_strlit("objects");
    reveal_strlit("edges");
    reveal_strlit("evidence");
    reveal_strlit("bundle");
    assert("bundle"@[0] == 'b');
    assert("evidence"@[1] == 'v');
    assert("exported"@[1] == 'x');
    assert("inline"@[0] == 'i');
    let m = inline_answer(size, bundle)->Object_0;
    assert(m[0].0 == "exported"@);
    assert(m[1].0 == "inline"@);
    assert(m[2].0 == "documents"@);
    assert(m[3].0 == "objects"@);
    assert(m[4].0 == "edges"@);
    assert(m[5].0 == "evidence"@);
    assert(m[6].0 == "bundle"@);
    crate::json::law_first_member_counts(m, "exported"@, 0);
    crate::json::law_first_member_counts(m, "inline"@, 1);
    crate::json::law_first_member_counts(m, "documents"@, 2);
    crate::json::law_first_member_counts(m, "objects"@, 3);
    crate::json::law_first_member_counts(m, "edges"@, 4);
    crate::json::law_first_member_counts(m, "evidence"@, 5);
    crate::json::law_first_member_counts(m, "bundle"@, 6);
}

/// A snapshot that is written to a file is told by its path and its size.
pub proof fn law_written_snapshot_is_told(path: Seq<char>, size: SnapshotSize)
    ensures
        ({
            let j = written_answer(path, size);
            &&& j.get("exported"@) == Some(JsonView::Bool(true))
            &&& j.get("path"@) == Some(JsonView::Text(path))
            &&& j.get("documents"@) == Some(JsonView::Int(size.documents as int))
            &&& j.get("objects"@) == Some(JsonView::Int(size.objects as int))
            &&& j.get("edges"@) == Some(JsonView::Int(size.edges as int))
            &&& j.get("evidence"@) == Some(JsonView::Int(size.evidence as int))
        }),
{
    reveal_strlit("exported");
    reveal_strlit("path");
    reveal_strlit("documents");
    reveal_strlit("objects");
    reveal_strlit("edges");
    reveal_strlit("evidence");
    assert("evidence"@[1] == 'v');
    assert("exported"@[1] == 'x');
    let m = written_answer(path, size)->Object_0;
    assert(m[0].0 == "exported"@);
    assert(m[1].0 == "path"@);
    assert(m[2].0 == "documents"@);
    assert(m[3].0 == "objects"@);
    assert(m[4].0 == "edges"@);
    assert(m[5].0 == "evidence"@);
    crate::json::law_first_member_counts(m, "exported"@, 0);
    crate::json::law_first_member_counts(m, "path"@, 1);
    crate::json::law_first_member_counts(m, "documents"@, 2);
    crate::json::law_first_member_counts(m, "objects"@, 3);
    crate::json::law_first_member_counts(m, "edges"@, 4);
    crate::json::law_first_member_counts(m, "evidence"@, 5);
}

} // verus!
