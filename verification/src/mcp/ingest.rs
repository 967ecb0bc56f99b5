//! Materializing documents into the knowledge graph.
//!
//! Reading and writing the graph is outside work, so the run is a state
//! machine: [`Ingest::action`] says what to do next, and [`Ingest::step`]
//! takes what came of it. A document, chapter or passage that is there
//! already is used again, so that a second run adds nothing.
use vstd::prelude::*;

use crate::mcp::types::opt_text;
use crate::text::{byte_len, len_in_bytes, same_text, texts};

verus! {

/// A document read from an external source.
#[derive(Debug)]
pub struct ExternalDoc {
    pub title: String,
    pub author: Option<String>,
    pub doc_type: String,
    pub source: String,
    /// The number of the chapter that the text is, when it is one.
    pub chapter: Option<i64>,
    pub text: String,
}

/// The value of an external document.
pub struct DocView {
    pub title: Seq<char>,
    pub author: Option<Seq<char>>,
    pub doc_type: Seq<char>,
    pub source: Seq<char>,
    pub chapter: Option<i64>,
    pub text: Seq<char>,
}

impl View for ExternalDoc {
    type V = DocView;

    open spec fn view(&self) -> DocView {
        DocView {
            title: self.title@,
            author: opt_text(self.author),
            doc_type: self.doc_type@,
            source: self.source@,
            chapter: self.chapter,
            text: self.text@,
        }
    }
}

impl DocView {
    /// The number of the chapter that the text becomes.
    pub open spec fn chapter_no(self) -> i64 {
        match self.chapter {
            Some(n) => n,
            None => 1,
        }
    }
}

/// The values of a list of documents.
pub open spec fn doc_views(v: Seq<ExternalDoc>) -> Seq<DocView> {
    Seq::new(v.len(), |i: int| v[i]@)
}

/// Where the run is with the document at hand.
#[derive(Debug, Clone, Copy)]
pub enum Stage {
    /// The document is to be looked up.
    Document,
    /// It is to be created.
    NewDocument,
    /// Its chapter is to be looked up.
    Chapter { doc_id: i64 },
    /// The chapter is to be created.
    NewChapter { doc_id: i64 },
    /// The passages of the document are to be listed.
    Passages { doc_id: i64, chapter_id: i64 },
    /// The text is to be added as a passage.
    NewPassage { doc_id: i64, chapter_id: i64 },
}

/// What to do next.
pub enum Action<'a> {
    /// Look up the document of this title and source.
    FindDocument { title: &'a str, source: &'a str },
    /// Create the document.
    CreateDocument { doc: &'a ExternalDoc },
    /// Look up the chapter of this number.
    FindChapter { doc_id: i64, chapter_no: i64 },
    /// Create the chapter; it spans the bytes from 0 to `end_offset`.
    CreateChapter { doc_id: i64, chapter_no: i64, end_offset: u64, doc: &'a ExternalDoc },
    /// List the passages of the document.
    ListPassages { doc_id: i64 },
    /// Add the text as a passage; it spans the bytes from 0 to `end_offset`.
    CreatePassage { doc_id: i64, chapter_id: i64, end_offset: u64, doc: &'a ExternalDoc },
    /// Nothing: the run is over.
    Finished,
}

/// The value of an action.
pub enum ActionView {
    FindDocument { title: Seq<char>, source: Seq<char> },
    CreateDocument { doc: DocView },
    FindChapter { doc_id: i64, chapter_no: i64 },
    CreateChapter { doc_id: i64, chapter_no: i64, end_offset: int, doc: DocView },
    ListPassages { doc_id: i64 },
    CreatePassage { doc_id: i64, chapter_id: i64, end_offset: int, doc: DocView },
    Finished,
}

impl<'a> View for Action<'a> {
    type V = ActionView;

    open spec fn view(&self) -> ActionView {
        match *self {
            Action::FindDocument { title, source } => ActionView::FindDocument {
                title: title@,
                source: source@,
            },
            Action::CreateDocument { doc } => ActionView::CreateDocument { doc: doc@ },
            Action::FindChapter { doc_id, chapter_no } => ActionView::FindChapter {
                doc_id,
                chapter_no,
            },
            Action::CreateChapter { doc_id, chapter_no, end_offset, doc } =>
                ActionView::CreateChapter {
                doc_id,
                chapter_no,
                end_offset: end_offset as int,
                doc: doc@,
            },
            Action::ListPassages { doc_id } => ActionView::ListPassages { doc_id },
            Action::CreatePassage { doc_id, chapter_id, end_offset, doc } =>
                ActionView::CreatePassage {
                doc_id,
                chapter_id,
                end_offset: end_offset as int,
                doc: doc@,
            },
            Action::Finished => ActionView::Finished,
        }
    }
}

/// What came of an action.
#[derive(Debug)]
pub enum Event {
    /// The document was looked up.
    DocumentFound(Option<i64>),
    /// The document was created under this id.
    DocumentCreated(i64),
    /// The chapter was looked up.
    ChapterFound(Option<i64>),
    /// The chapter was created under this id.
    ChapterCreated(i64),
    /// The passages were listed.
    PassagesListed(Vec<String>),
    /// The passage was added.
    PassageCreated,
}

/// The value of an event.
pub enum EventView {
    DocumentFound(Option<i64>),
    DocumentCreated(i64),
    ChapterFound(Option<i64>),
    ChapterCreated(i64),
    PassagesListed(Seq<Seq<char>>),
    PassageCreated,
}

impl View for Event {
    type V = EventView;

    open spec fn view(&self) -> EventView {
        match *self {
            Event::DocumentFound(id) => EventView::DocumentFound(id),
            Event::DocumentCreated(id) => EventView::DocumentCreated(id),
            Event::ChapterFound(id) => EventView::ChapterFound(id),
            Event::ChapterCreated(id) => EventView::ChapterCreated(id),
            Event::PassagesListed(v) => EventView::PassagesListed(texts(v@)),
            Event::PassageCreated => EventView::PassageCreated,
        }
    }
}

/// A run.
#[derive(Debug)]
pub struct Ingest {
    pub docs: Vec<ExternalDoc>,
    /// How many documents are done.
    pub at: usize,
    pub stage: Stage,
    pub documents_created: usize,
    pub chapters_created: usize,
    pub passages_created: usize,
}

/// The value of a run.
pub struct IngestView {
    pub docs: Seq<DocView>,
    pub at: int,
    pub stage: Stage,
    pub documents: int,
    pub chapters: int,
    pub passages: int,
}

impl View for Ingest {
    type V = IngestView;

    open spec fn view(&self) -> IngestView {
        IngestView {
            docs: doc_views(self.docs@),
            at: self.at as int,
            stage: self.stage,
            documents: self.documents_created as int,
            chapters: self.chapters_created as int,
            passages: self.passages_created as int,
        }
    }
}

impl IngestView {
    /// A run over these documents that has done nothing yet.
    pub open spec fn start(docs: Seq<DocView>) -> IngestView {
        IngestView {
            docs,
            at: 0,
            stage: Stage::Document,
            documents: 0,
            chapters: 0,
            passages: 0,
        }
    }

    /// At most one of each kind has been created for each document.
    pub open spec fn wf(self) -> bool {
        &&& 0 <= self.at <= self.docs.len()
        &&& self.at == self.docs.len() ==> self.stage is Document
        &&& 0 <= self.documents <= self.at + (if self.stage is Document
            || self.stage is NewDocument {
            0int
        } else {
            1int
        })
        &&& 0 <= self.chapters <= self.at + (if self.stage is Passages
            || self.stage is NewPassage {
            1int
        } else {
            0int
        })
        &&& 0 <= self.passages <= self.at
    }

    /// The run is over.
    pub open spec fn finished(self) -> bool {
        self.at >= self.docs.len()
    }

    /// What to do next.
    pub open spec fn next_action(self) -> ActionView {
        if self.finished() {
            ActionView::Finished
        } else {
            let doc = self.docs[self.at];
            match self.stage {
                Stage::Document => ActionView::FindDocument {
                    title: doc.title,
                    source: doc.source,
                },
                Stage::NewDocument => ActionView::CreateDocument { doc },
                Stage::Chapter { doc_id } => ActionView::FindChapter {
                    doc_id,
                    chapter_no: doc.chapter_no(),
                },
                Stage::NewChapter { doc_id } => ActionView::CreateChapter {
                    doc_id,
                    chapter_no: doc.chapter_no(),
                    end_offset: byte_len(doc.text) as int,
                    doc,
                },
                Stage::Passages { doc_id, chapter_id } => ActionView::ListPassages { doc_id },
                Stage::NewPassage { doc_id, chapter_id } => ActionView::CreatePassage {
                    doc_id,
                    chapter_id,
                    end_offset: byte_len(doc.text) as int,
                    doc,
                },
            }
        }
    }

    /// The event is one that the next action can have.
    pub open spec fn expects(self, event: EventView) -> bool {
        &&& !self.finished()
        &&& match self.stage {
            Stage::Document => event is DocumentFound,
            Stage::NewDocument => event is DocumentCreated,
            Stage::Chapter { .. } => event is ChapterFound,
            Stage::NewChapter { .. } => event is ChapterCreated,
            Stage::Passages { .. } => event is PassagesListed,
            Stage::NewPassage { .. } => event is PassageCreated,
        }
    }

    /// The run at another stage of the same document.
    pub open spec fn at_stage(self, stage: Stage) -> IngestView {
        IngestView { stage, ..self }
    }

    /// The run at the next document.
    pub open spec fn at_next(self) -> IngestView {
        IngestView { at: self.at + 1, stage: Stage::Document, ..self }
    }

    /// The run after an event.
    pub open spec fn after(self, event: EventView) -> IngestView {
        match (self.stage, event) {
            (Stage::Document, EventView::DocumentFound(Some(id))) => self.at_stage(
                Stage::Chapter { doc_id: id },
            ),
            (Stage::Document, EventView::DocumentFound(None)) => self.at_stage(Stage::NewDocument),
            (Stage::NewDocument, EventView::DocumentCreated(id)) => IngestView {
                documents: self.documents + 1,
                stage: Stage::Chapter { doc_id: id },
                ..self
            },
            (Stage::Chapter { doc_id }, EventView::ChapterFound(Some(id))) => self.at_stage(
                Stage::Passages { doc_id, chapter_id: id },
            ),
            (Stage::Chapter { doc_id }, EventView::ChapterFound(None)) => self.at_stage(
                Stage::NewChapter { doc_id },
            ),
            (Stage::NewChapter { doc_id }, EventView::ChapterCreated(id)) => IngestView {
                chapters: self.chapters + 1,
                stage: Stage::Passages { doc_id, chapter_id: id },
                ..self
            },
            (Stage::Passages { doc_id, chapter_id }, EventView::PassagesListed(v)) => if v.contains(
                self.docs[self.at].text,
            ) {
                self.at_next()
            } else {
                self.at_stage(Stage::NewPassage { doc_id, chapter_id })
            },
            (Stage::NewPassage { .. }, EventView::PassageCreated) => IngestView {
                passages: self.passages + 1,
                ..self.at_next()
            },
            _ => self,
        }
    }
}

impl Ingest {
    /// A run over these documents.
    pub fn start(docs: Vec<ExternalDoc>) -> (r: Ingest)
        ensures
            r@ == IngestView::start(doc_views(docs@)),
            r@.wf(),
    {
        Ingest {
            docs,
            at: 0,
            stage: Stage::Document,
            documents_created: 0,
            chapters_created: 0,
            passages_created: 0,
        }
    }

    /// What to do next.
    pub fn action(&self) -> (a: Action<'_>)
        ensures
            a@ == self@.next_action(),
    {
        if self.at >= self.docs.len() {
            return Action::Finished;
        }
        let doc: &ExternalDoc = &self.docs[self.at];
        assert(self@.docs[self@.at] == doc@);
        let chapter_no: i64 = match doc.chapter {
            Some(n) => n,
            None => 1,
        };
        match self.stage {
            Stage::Document => Action::FindDocument {
                title: doc.title.as_str(),
                source: doc.source.as_str(),
            },
            Stage::NewDocument => Action::CreateDocument { doc },
            Stage::Chapter { doc_id } => Action::FindChapter { doc_id, chapter_no },
            Stage::NewChapter { doc_id } => {
                let end_offset: u64 = len_in_bytes(doc.text.as_str()) as u64;
                Action::CreateChapter { doc_id, chapter_no, end_offset, doc }
            },
            Stage::Passages { doc_id, chapter_id: _ } => Action::ListPassages { doc_id },
            Stage::NewPassage { doc_id, chapter_id } => {
                let end_offset: u64 = len_in_bytes(doc.text.as_str()) as u64;
                Action::CreatePassage { doc_id, chapter_id, end_offset, doc }
            },
        }
    }

    /// Whether the event is one that the next action can have.
    pub fn expects(&self, event: &Event) -> (r: bool)
        ensures
            r == self@.expects(event@),
    {
        if self.at >= self.docs.len() {
            return false;
        }
        match (self.stage, event) {
            (Stage::Document, Event::DocumentFound(_)) => true,
            (Stage::NewDocument, Event::DocumentCreated(_)) => true,
            (Stage::Chapter { .. }, Event::ChapterFound(_)) => true,
            (Stage::NewChapter { .. }, Event::ChapterCreated(_)) => true,
            (Stage::Passages { .. }, Event::PassagesListed(_)) => true,
            (Stage::NewPassage { .. }, Event::PassageCreated) => true,
            _ => false,
        }
    }

    /// Go on after an event.
    pub fn step(&mut self, event: Event)
        requires
            old(self)@.wf(),
            old(self)@.expects(event@),
        ensures
            final(self)@ == old(self)@.after(event@),
            final(self)@.wf(),
    {
        let total: usize = self.docs.len();
        assert(self.at < total);
        match (self.stage, event) {
            (Stage::Document, Event::DocumentFound(found)) => match found {
                Some(doc_id) => {
                    self.stage = Stage::Chapter { doc_id };
                },
                None => {
                    self.stage = Stage::NewDocument;
                },
            },
            (Stage::NewDocument, Event::DocumentCreated(doc_id)) => {
                self.documents_created = self.documents_created + 1;
                self.stage = Stage::Chapter { doc_id };
            },
            (Stage::Chapter { doc_id }, Event::ChapterFound(found)) => match found {
                Some(chapter_id) => {
                    self.stage = Stage::Passages { doc_id, chapter_id };
                },
                None => {
                    self.stage = Stage::NewChapter { doc_id };
                },
            },
            (Stage::NewChapter { doc_id }, Event::ChapterCreated(chapter_id)) => {
                self.chapters_created = self.chapters_created + 1;
                self.stage = Stage::Passages { doc_id, chapter_id };
            },
            (Stage::Passages { doc_id, chapter_id }, Event::PassagesListed(v)) => {
                let known: bool = {
                    let doc: &ExternalDoc = &self.docs[self.at];
                    assert(self@.docs[self@.at] == doc@);
                    holds(&v, doc.text.as_str())
                };
                if known {
                    self.at = self.at + 1;
                    self.stage = Stage::Document;
                } else {
                    self.stage = Stage::NewPassage { doc_id, chapter_id };
                }
            },
            (Stage::NewPassage { .. }, Event::PassageCreated) => {
                self.passages_created = self.passages_created + 1;
                self.at = self.at + 1;
                self.stage = Stage::Document;
            },
            _ => {},
        }
    }
}

/// Whether the text is in the list.
fn holds(v: &Vec<String>, s: &str) -> (r: bool)
    ensures
        r == texts(v@).contains(s@),
{
    let ghost all = texts(v@);
    let mut i: usize = 0;
    while i < v.len()
        invariant
            i <= v@.len(),
            all == texts(v@),
            forall|k: int| 0 <= k < i ==> #[trigger] all[k] != s@,
        decreases v.len() - i,
    {
        assert(all[i as int] == v@[i as int]@);
        if same_text(v[i].as_str(), s) {
            return true;
        }
        i = i + 1;
    }
    false
}

/// A document of the graph.
pub struct DocumentRow {
    pub id: i64,
    pub title: Seq<char>,
    pub source: Seq<char>,
}

/// A chapter of the graph.
#[derive(Debug)]
pub struct ChapterRow {
    pub id: i64,
    pub doc_id: i64,
    pub chapter_no: i64,
}

/// A passage of the graph.
pub struct PassageRow {
    pub doc_id: i64,
    pub content: Seq<char>,
}

/// A graph that is read and added to row by row.
pub struct Graph {
    pub documents: Seq<DocumentRow>,
    pub chapters: Seq<ChapterRow>,
    pub passages: Seq<PassageRow>,
}

/// The first document of this title and source.
pub open spec fn find_document(rows: Seq<DocumentRow>, title: Seq<char>, source: Seq<char>) -> Option<
    i64,
>
    decreases rows.len(),
{
    if rows.len() == 0 {
        None
    } else {
        match find_document(rows.drop_last(), title, source) {
            Some(id) => Some(id),
            None => if rows.last().title == title && rows.last().source == source {
                Some(rows.last().id)
            } else {
                None
            },
        }
    }
}

/// The first chapter of this number.
pub open spec fn find_chapter(rows: Seq<ChapterRow>, doc_id: i64, chapter_no: i64) -> Option<i64>
    decreases rows.len(),
{
    if rows.len() == 0 {
        None
    } else {
        match find_chapter(rows.drop_last(), doc_id, chapter_no) {
            Some(id) => Some(id),
            None => if rows.last().doc_id == doc_id && rows.last().chapter_no == chapter_no {
                Some(rows.last().id)
            } else {
                None
            },
        }
    }
}

/// The passages of a document.
pub open spec fn passages_of(rows: Seq<PassageRow>, doc_id: i64) -> Seq<Seq<char>>
    decreases rows.len(),
{
    if rows.len() == 0 {
        Seq::empty()
    } else {
        let before = passages_of(rows.drop_last(), doc_id);
        if rows.last().doc_id == doc_id {
            before.push(rows.last().content)
        } else {
            before
        }
    }
}

impl Graph {
    /// The graph after an action, and what came of it. `fresh` is the id that
    /// a row created by it gets.
    pub open spec fn respond(self, action: ActionView, fresh: i64) -> (Graph, EventView) {
        match action {
            ActionView::FindDocument { title, source } => (
                self,
                EventView::DocumentFound(find_document(self.documents, title, source)),
            ),
            ActionView::CreateDocument { doc } => (
                Graph {
                    documents: self.documents.push(
                        DocumentRow { id: fresh, title: doc.title, source: doc.source },
                    ),
                    ..self
                },
                EventView::DocumentCreated(fresh),
            ),
            ActionView::FindChapter { doc_id, chapter_no } => (
                self,
                EventView::ChapterFound(find_chapter(self.chapters, doc_id, chapter_no)),
            ),
            ActionView::CreateChapter { doc_id, chapter_no, end_offset, doc } => (
                Graph {
                    chapters: self.chapters.push(ChapterRow { id: fresh, doc_id, chapter_no }),
                    ..self
                },
                EventView::ChapterCreated(fresh),
            ),
            ActionView::ListPassages { doc_id } => (
                self,
                EventView::PassagesListed(passages_of(self.passages, doc_id)),
            ),
            ActionView::CreatePassage { doc_id, chapter_id, end_offset, doc } => (
                Graph {
                    passages: self.passages.push(PassageRow { doc_id, content: doc.text }),
                    ..self
                },
                EventView::PassageCreated,
            ),
            ActionView::Finished => (self, EventView::PassageCreated),
        }
    }

    /// The document is there, with its chapter and its passage.
    pub open spec fn has(self, doc: DocView) -> bool {
        match find_document(self.documents, doc.title, doc.source) {
            Some(id) => find_chapter(self.chapters, id, doc.chapter_no()) is Some && passages_of(
                self.passages,
                id,
            ).contains(doc.text),
            None => false,
        }
    }
}

/// A graph and a run over it, after at most `steps` more actions. The row
/// created with `n` steps to go gets the id `ids(n)`.
pub open spec fn drive(
    graph: Graph,
    run: IngestView,
    ids: spec_fn(nat) -> i64,
    steps: nat,
) -> (Graph, IngestView)
    decreases steps,
{
    if steps == 0 || run.finished() {
        (graph, run)
    } else {
        let reply = graph.respond(run.next_action(), ids(steps));
        drive(reply.0, run.after(reply.1), ids, (steps - 1) as nat)
    }
}

/// One more action.
proof fn lemma_drive_one(graph: Graph, run: IngestView, ids: spec_fn(nat) -> i64, steps: nat)
    requires
        steps > 0,
        !run.finished(),
    ensures
        ({
            let reply = graph.respond(run.next_action(), ids(steps));
            drive(graph, run, ids, steps) == drive(
                reply.0,
                run.after(reply.1),
                ids,
                (steps - 1) as nat,
            )
        }),
{
}

/// Rows that are added at the end hide nothing.
proof fn lemma_document_stays(rows: Seq<DocumentRow>, row: DocumentRow, title: Seq<char>, source: Seq<char>)
    ensures
        find_document(rows, title, source) matches Some(id) ==> find_document(
            rows.push(row),
            title,
            source,
        ) == Some(id),
        find_document(rows, row.title, row.source) is None ==> find_document(
            rows.push(row),
            row.title,
            row.source,
        ) == Some(row.id),
{
    assert(rows.push(row).drop_last() == rows);
}

proof fn lemma_chapter_stays(rows: Seq<ChapterRow>, row: ChapterRow, doc_id: i64, chapter_no: i64)
    ensures
        find_chapter(rows, doc_id, chapter_no) is Some ==> find_chapter(
            rows.push(row),
            doc_id,
            chapter_no,
        ) is Some,
        find_chapter(rows.push(row), row.doc_id, row.chapter_no) is Some,
{
    assert(rows.push(row).drop_last() == rows);
}

proof fn lemma_passage_stays(rows: Seq<PassageRow>, row: PassageRow, doc_id: i64, content: Seq<char>)
    ensures
        passages_of(rows, doc_id).contains(content) ==> passages_of(
            rows.push(row),
            doc_id,
        ).contains(content),
        passages_of(rows.push(row), row.doc_id).contains(row.content),
{
    assert(rows.push(row).drop_last() == rows);
    let before = passages_of(rows, doc_id);
    if before.contains(content) {
        let k = choose|k: int| 0 <= k < before.len() && before[k] == content;
        assert(passages_of(rows.push(row), doc_id)[k] == content);
    }
    let own = passages_of(rows, row.doc_id);
    assert(passages_of(rows.push(row), row.doc_id)[own.len() as int] == row.content);
}

/// No action takes a document away.
proof fn lemma_presence_stays(graph: Graph, action: ActionView, fresh: i64, doc: DocView)
    requires
        graph.has(doc),
    ensures
        graph.respond(action, fresh).0.has(doc),
{
    let id = find_document(graph.documents, doc.title, doc.source)->0;
    match action {
        ActionView::CreateDocument { doc: d } => {
            lemma_document_stays(
                graph.documents,
                DocumentRow { id: fresh, title: d.title, source: d.source },
                doc.title,
                doc.source,
            );
        },
        ActionView::CreateChapter { doc_id, chapter_no, end_offset, doc: d } => {
            lemma_chapter_stays(
                graph.chapters,
                ChapterRow { id: fresh, doc_id, chapter_no },
                id,
                doc.chapter_no(),
            );
        },
        ActionView::CreatePassage { doc_id, chapter_id, end_offset, doc: d } => {
            lemma_passage_stays(
                graph.passages,
                PassageRow { doc_id, content: d.text },
                id,
                doc.text,
            );
        },
        _ => {},
    }
}

/// What is known of the document at hand at each stage.
pub open spec fn on_track(graph: Graph, run: IngestView) -> bool {
    let doc = run.docs[run.at];
    match run.stage {
        Stage::Document => true,
        Stage::NewDocument => find_document(graph.documents, doc.title, doc.source) is None,
        Stage::Chapter { doc_id } => find_document(graph.documents, doc.title, doc.source) == Some(
            doc_id,
        ),
        Stage::NewChapter { doc_id } => find_document(graph.documents, doc.title, doc.source)
            == Some(doc_id),
        Stage::Passages { doc_id, .. } => find_document(graph.documents, doc.title, doc.source)
            == Some(doc_id) && find_chapter(graph.chapters, doc_id, doc.chapter_no()) is Some,
        Stage::NewPassage { doc_id, .. } => find_document(graph.documents, doc.title, doc.source)
            == Some(doc_id) && find_chapter(graph.chapters, doc_id, doc.chapter_no()) is Some,
    }
}

/// How many actions a run needs at most.
pub open spec fn steps_left(run: IngestView) -> int {
    6 * (run.docs.len() - run.at) - (match run.stage {
        Stage::Document => 0int,
        Stage::NewDocument => 1int,
        Stage::Chapter { .. } => 2int,
        Stage::NewChapter { .. } => 3int,
        Stage::Passages { .. } => 4int,
        Stage::NewPassage { .. } => 5int,
    })
}

/// The documents that are done are there.
pub open spec fn done_is_there(graph: Graph, run: IngestView) -> bool {
    forall|k: int| 0 <= k < run.at ==> graph.has(#[trigger] run.docs[k])
}

/// An action brings the run forward and keeps what is done.
proof fn lemma_step(graph: Graph, run: IngestView, fresh: i64)
    requires
        run.wf(),
        !run.finished(),
        on_track(graph, run),
        done_is_there(graph, run),
    ensures
        ({
            let reply = graph.respond(run.next_action(), fresh);
            let next = run.after(reply.1);
            &&& next.wf()
            &&& next.docs == run.docs
            &&& next.finished() || on_track(reply.0, next)
            &&& done_is_there(reply.0, next)
            &&& steps_left(next) < steps_left(run)
        }),
{
    let doc = run.docs[run.at];
    let action = run.next_action();
    let reply = graph.respond(action, fresh);
    let next = run.after(reply.1);
    assert forall|k: int| 0 <= k < run.at implies reply.0.has(#[trigger] run.docs[k]) by {
        lemma_presence_stays(graph, action, fresh, run.docs[k]);
    }
    match run.stage {
        Stage::NewDocument => {
            lemma_document_stays(
                graph.documents,
                DocumentRow { id: fresh, title: doc.title, source: doc.source },
                doc.title,
                doc.source,
            );
        },
        Stage::NewChapter { doc_id } => {
            lemma_chapter_stays(
                graph.chapters,
                ChapterRow { id: fresh, doc_id, chapter_no: doc.chapter_no() },
                doc_id,
                doc.chapter_no(),
            );
        },
        Stage::NewPassage { doc_id, chapter_id } => {
            lemma_passage_stays(
                graph.passages,
                PassageRow { doc_id, content: doc.text },
                doc_id,
                doc.text,
            );
            assert(reply.0.has(doc));
        },
        _ => {},
    }
}

/// A run comes to its end, and then every document is there.
proof fn lemma_run(graph: Graph, run: IngestView, ids: spec_fn(nat) -> i64, steps: nat)
    requires
        run.wf(),
        run.finished() || on_track(graph, run),
        done_is_there(graph, run),
        steps >= steps_left(run),
    ensures
        ({
            let end = drive(graph, run, ids, steps);
            &&& end.1.finished()
            &&& end.1.docs == run.docs
            &&& end.1.at == run.docs.len()
            &&& done_is_there(end.0, end.1)
        }),
    decreases steps,
{
    if !run.finished() {
        let reply = graph.respond(run.next_action(), ids(steps));
        let next = run.after(reply.1);
        lemma_step(graph, run, ids(steps));
        lemma_run(reply.0, next, ids, (steps - 1) as nat);
        lemma_drive_one(graph, run, ids, steps);
    }
}

/// A run over a graph that has every document creates nothing.
proof fn lemma_quiet_run(graph: Graph, run: IngestView, ids: spec_fn(nat) -> i64, steps: nat)
    requires
        run.wf(),
        run.stage is Document || run.stage is Chapter || run.stage is Passages,
        run.finished() || on_track(graph, run),
        forall|k: int| 0 <= k < run.docs.len() ==> graph.has(#[trigger] run.docs[k]),
        steps >= steps_left(run),
    ensures
        ({
            let end = drive(graph, run, ids, steps);
            &&& end.0 == graph
            &&& end.1.finished()
            &&& end.1.documents == run.documents
            &&& end.1.chapters == run.chapters
            &&& end.1.passages == run.passages
        }),
    decreases steps,
{
    if !run.finished() {
        let reply = graph.respond(run.next_action(), ids(steps));
        let next = run.after(reply.1);
        assert(graph.has(run.docs[run.at]));
        lemma_step(graph, run, ids(steps));
        lemma_quiet_run(reply.0, next, ids, (steps - 1) as nat);
        lemma_drive_one(graph, run, ids, steps);
    }
}

/// A run ends, and every document is in the graph then, with its chapter and
/// its passage.
pub proof fn law_ingest_is_complete(
    graph: Graph,
    docs: Seq<DocView>,
    ids: spec_fn(nat) -> i64,
)
    ensures
        ({
            let end = drive(graph, IngestView::start(docs), ids, 6 * docs.len());
            &&& end.1.finished()
            &&& forall|k: int| 0 <= k < docs.len() ==> end.0.has(#[trigger] docs[k])
        }),
{
    let run = IngestView::start(docs);
    lemma_run(graph, run, ids, 6 * docs.len());
    let end = drive(graph, run, ids, 6 * docs.len());
    assert forall|k: int| 0 <= k < docs.len() implies end.0.has(#[trigger] docs[k]) by {
        assert(end.1.docs[k] == docs[k]);
    }
}

/// A second run over the same documents creates nothing and leaves the graph
/// as it is.
pub proof fn law_reingest_creates_nothing(
    graph: Graph,
    docs: Seq<DocView>,
    ids: spec_fn(nat) -> i64,
    later_ids: spec_fn(nat) -> i64,
)
    ensures
        ({
            let first = drive(graph, IngestView::start(docs), ids, 6 * docs.len());
            let second = drive(first.0, IngestView::start(docs), later_ids, 6 * docs.len());
            &&& second.0 == first.0
            &&& second.1.finished()
            &&& second.1.documents == 0
            &&& second.1.chapters == 0
            &&& second.1.passages == 0
        }),
{
    law_ingest_is_complete(graph, docs, ids);
    let first = drive(graph, IngestView::start(docs), ids, 6 * docs.len());
    lemma_quiet_run(first.0, IngestView::start(docs), later_ids, 6 * docs.len());
}

/// What is created is what the document says: the document itself where none of
/// its title and source is there, its chapter, the first where it names none, and
/// its whole text as a passage of that chapter. Chapter and passage span its
/// bytes.
pub proof fn law_created_rows_say_what_the_document_says(run: IngestView, id: i64, no: i64)
    requires
        0 <= run.at < run.docs.len(),
    ensures
        ({
            let doc = run.docs[run.at];
            let found = run.at_stage(Stage::Document).after(EventView::DocumentFound(Some(id)));
            let made = run.at_stage(Stage::Document).after(EventView::DocumentFound(None)).after(
                EventView::DocumentCreated(id),
            );
            let chapter = if doc.chapter is Some {
                doc.chapter->0
            } else {
                1
            };
            let none = found.after(EventView::ChapterFound(None));
            let there = found.after(EventView::ChapterFound(Some(no)));
            let new = none.after(EventView::ChapterCreated(no));
            &&& run.at_stage(Stage::Document).next_action() == ActionView::FindDocument {
                title: doc.title,
                source: doc.source,
            }
            &&& run.at_stage(Stage::Document).after(EventView::DocumentFound(None)).next_action()
                == ActionView::CreateDocument { doc }
            &&& found.next_action() == ActionView::FindChapter { doc_id: id, chapter_no: chapter }
            &&& made.next_action() == found.next_action()
            &&& made.documents == run.documents + 1
            &&& found.documents == run.documents
            &&& none.next_action() == ActionView::CreateChapter {
                doc_id: id,
                chapter_no: chapter,
                end_offset: byte_len(doc.text) as int,
                doc,
            }
            &&& there.next_action() == ActionView::ListPassages { doc_id: id }
            &&& new.next_action() == ActionView::ListPassages { doc_id: id }
            &&& there.chapters == run.chapters
            &&& new.chapters == run.chapters + 1
            &&& forall|v: Seq<Seq<char>>|
                !v.contains(doc.text) ==> (
                #[trigger] there.after(EventView::PassagesListed(v))).next_action()
                    == ActionView::CreatePassage {
                    doc_id: id,
                    chapter_id: no,
                    end_offset: byte_len(doc.text) as int,
                    doc,
                }
            &&& forall|v: Seq<Seq<char>>|
                v.contains(doc.text) ==> (#[trigger] there.after(EventView::PassagesListed(v)))
                    == (IngestView { at: run.at + 1, stage: Stage::Document, ..run })
        }),
{
}

/// The run counts what it creates: after each action the numbers have grown by
/// as many rows as the graph has.
pub proof fn law_created_rows_are_counted(graph: Graph, run: IngestView, fresh: i64)
    requires
        run.wf(),
        !run.finished(),
    ensures
        ({
            let (after, event) = graph.respond(run.next_action(), fresh);
            let next = run.after(event);
            &&& after.documents.len() - graph.documents.len() == next.documents - run.documents
            &&& after.chapters.len() - graph.chapters.len() == next.chapters - run.chapters
            &&& after.passages.len() - graph.passages.len() == next.passages - run.passages
        }),
{
}

/// What is found is what was looked for: a document of that title and source, a
/// chapter of that number in that document, the passages of that document.
pub proof fn law_rows_are_found_by_their_keys(
    documents: Seq<DocumentRow>,
    d: DocumentRow,
    chapters: Seq<ChapterRow>,
    c: ChapterRow,
    passages: Seq<PassageRow>,
    p: PassageRow,
    title: Seq<char>,
    source: Seq<char>,
    doc_id: i64,
    chapter_no: i64,
)
    ensures
        find_document(Seq::empty(), title, source) is None,
        d.title != title || d.source != source ==> find_document(documents.push(d), title, source)
            == find_document(documents, title, source),
        find_document(documents, title, source) is None && d.title == title && d.source == source
            ==> find_document(documents.push(d), title, source) == Some(d.id),
        find_document(documents, title, source) is Some ==> find_document(
            documents.push(d),
            title,
            source,
        ) == find_document(documents, title, source),
        find_chapter(Seq::empty(), doc_id, chapter_no) is None,
        c.doc_id != doc_id || c.chapter_no != chapter_no ==> find_chapter(
            chapters.push(c),
            doc_id,
            chapter_no,
        ) == find_chapter(chapters, doc_id, chapter_no),
        find_chapter(chapters, doc_id, chapter_no) is None && c.doc_id == doc_id && c.chapter_no
            == chapter_no ==> find_chapter(chapters.push(c), doc_id, chapter_no) == Some(c.id),
        passages_of(Seq::empty(), doc_id).len() == 0,
        p.doc_id == doc_id ==> passages_of(passages.push(p), doc_id) == passages_of(
            passages,
            doc_id,
        ).push(p.content),
        p.doc_id != doc_id ==> passages_of(passages.push(p), doc_id) == passages_of(
            passages,
            doc_id,
        ),
{
    assert(documents.push(d).drop_last() =~= documents);
    assert(chapters.push(c).drop_last() =~= chapters);
    assert(passages.push(p).drop_last() =~= passages);
}

} // verus!
