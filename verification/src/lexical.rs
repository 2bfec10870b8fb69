use vstd::prelude::*;

use tantivy::schema::Value;

verus! {

use vstd::multiset::Multiset;

use crate::rpc::CodeChunk;
use crate::update::{to_code_chunk, IndexedChunk, IndexedProject};

/// The plain content of one indexed document: the four stored fields.
pub struct LexDoc {
    pub id: Seq<char>,
    pub path: Seq<char>,
    pub symbol: Seq<char>,
    pub content: Seq<char>,
}

/// The document a chunk turns into: an empty symbol is stored as the empty
/// string.
pub open spec fn doc_of(c: CodeChunk) -> LexDoc {
    LexDoc {
        id: c.id@,
        path: c.file_path@,
        symbol: match c.symbol {
            Some(s) => s@,
            None => Seq::<char>::empty(),
        },
        content: c.content@,
    }
}

/// An index handle of the lexical search engine.
#[verifier::external_type_specification]
#[verifier::external_body]
pub struct ExTantivyIndex(tantivy::Index);

/// The field schema of the lexical search engine.
#[verifier::external_type_specification]
#[verifier::external_body]
pub struct ExTantivySchema(tantivy::schema::Schema);

/// The persistent inverted index over chunk documents.  The handle wraps
/// the index, its single writer and its reader; Verus sees it only through
/// the two content functions below.
#[verifier::external_body]
pub struct TantivyLexicalIndex {
    index: tantivy::Index,
    reader: tantivy::IndexReader,
    writer: tantivy::IndexWriter,
    id_field: tantivy::schema::Field,
    path_field: tantivy::schema::Field,
    symbol_field: tantivy::schema::Field,
    content_field: tantivy::schema::Field,
}

/// The documents visible to searches (committed).
pub uninterp spec fn lexical_committed(ix: TantivyLexicalIndex) -> Multiset<LexDoc>;

/// The documents added since the last commit.
pub uninterp spec fn lexical_pending(ix: TantivyLexicalIndex) -> Multiset<LexDoc>;

#[verifier::external_body]
fn build_index_parts(index: tantivy::Index) -> Option<TantivyLexicalIndex> {
    let schema = index.schema();
    let id_field = schema.get_field("id").ok()?;
    let path_field = schema.get_field("path").ok()?;
    let symbol_field = schema.get_field("symbol").ok()?;
    let content_field = schema.get_field("content").ok()?;
    let writer = index.writer(50_000_000).ok()?;
    let reader = index.reader().ok()?;
    Some(TantivyLexicalIndex { index, reader, writer, id_field, path_field, symbol_field, content_field })
}

#[verifier::external_body]
fn build_schema() -> tantivy::schema::Schema {
    let mut schema_builder = tantivy::schema::Schema::builder();
    let _ = schema_builder.add_text_field("id", tantivy::schema::STRING | tantivy::schema::STORED);
    let _ = schema_builder.add_text_field("path", tantivy::schema::STRING | tantivy::schema::STORED);
    let _ = schema_builder.add_text_field("symbol", tantivy::schema::TEXT | tantivy::schema::STORED);
    let _ = schema_builder.add_text_field("content", tantivy::schema::TEXT | tantivy::schema::STORED);
    schema_builder.build()
}

impl TantivyLexicalIndex {
    /// Relies on `tantivy::Index::create_in_ram`: a fresh volatile index
    /// holds no documents.
    #[verifier::external_body]
    pub fn new_in_memory() -> (r: Option<TantivyLexicalIndex>)
        ensures
            r matches Some(ix) ==> lexical_committed(ix) == Multiset::<LexDoc>::empty()
                && lexical_pending(ix) == Multiset::<LexDoc>::empty(),
    {
        let index = tantivy::Index::create_in_ram(build_schema());
        build_index_parts(index)
    }

    /// Relies on `tantivy::Index::open_or_create` over an existing
    /// directory: opens the index when its metadata is present, creates a
    /// fresh one otherwise.  Nothing is promised of the opened committed
    /// contents, but the handle's writer is freshly created, so nothing is
    /// pending on it.
    #[verifier::external_body]
    pub fn open_or_create_on_disk(index_dir: &str) -> (r: Option<TantivyLexicalIndex>)
        ensures
            r matches Some(ix) ==> lexical_pending(ix) == Multiset::<LexDoc>::empty(),
    {
        let dir = tantivy::directory::MmapDirectory::open(index_dir).ok()?;
        let index = tantivy::Index::open_or_create(dir, build_schema()).ok()?;
        build_index_parts(index)
    }

    /// Relies on `tantivy::IndexWriter::delete_all_documents` followed by a
    /// commit and a reader reload.  The deletion removes every segment the
    /// writer has registered, committed or queued, but documents still in
    /// the writer's pipeline can be registered afterwards and the commit
    /// then publishes them: on success nothing stays pending and nothing
    /// survives but possibly documents that were pending before the call.
    #[verifier::external_body]
    pub fn reset(&mut self) -> (r: bool)
        ensures
            r ==> lexical_pending(*final(self)) == Multiset::<LexDoc>::empty(),
            r ==> lexical_committed(*final(self)).subset_of(lexical_pending(*old(self))),
    {
        if self.writer.delete_all_documents().is_err() {
            return false;
        }
        if self.writer.commit().is_err() {
            return false;
        }
        self.reader.reload().is_ok()
    }

    /// Relies on `tantivy::IndexWriter::add_document`: on success the
    /// chunk's four fields join the pending documents; committed documents
    /// are untouched.
    #[verifier::external_body]
    pub fn add_chunk(&mut self, chunk: &CodeChunk) -> (r: bool)
        ensures
            r ==> lexical_pending(*final(self)) == lexical_pending(*old(self)).insert(
                doc_of(*chunk),
            ) && lexical_committed(*final(self)) == lexical_committed(*old(self)),
    {
        let mut doc = tantivy::TantivyDocument::default();
        doc.add_text(self.id_field, &chunk.id);
        doc.add_text(self.path_field, &chunk.file_path);
        doc.add_text(self.symbol_field, chunk.symbol.as_deref().unwrap_or(""));
        doc.add_text(self.content_field, &chunk.content);
        self.writer.add_document(doc).is_ok()
    }

    /// Relies on `tantivy::IndexWriter::commit` and a reader reload: on
    /// success the pending documents become visible.
    #[verifier::external_body]
    pub fn commit(&mut self) -> (r: bool)
        ensures
            r ==> lexical_committed(*final(self)) == lexical_committed(*old(self)).add(
                lexical_pending(*old(self)),
            ) && lexical_pending(*final(self)) == Multiset::<LexDoc>::empty(),
    {
        if self.writer.commit().is_err() {
            return false;
        }
        self.reader.reload().is_ok()
    }

    /// Relies on `tantivy`'s query parser and searcher: at most `top_k`
    /// ids come back, each the id field of some committed document, in
    /// descending score order (the scoring itself is tantivy's).
    #[verifier::external_body]
    pub fn search_ids(&self, query: &str, top_k: usize) -> (r: Vec<String>)
        ensures
            r@.len() <= top_k,
            forall|j: int| 0 <= j < r@.len() ==> committed_has_id(*self, (#[trigger] r@[j])@),
    {
        let searcher = self.reader.searcher();
        let fields = vec![self.symbol_field, self.content_field, self.path_field];
        let parser = tantivy::query::QueryParser::for_index(&self.index, fields);
        let Ok(q) = parser.parse_query(query) else { return Vec::new() };
        let limit = tantivy::collector::TopDocs::with_limit(top_k.max(1));
        let Ok(docs) = searcher.search(&q, &limit) else { return Vec::new() };
        docs.iter()
            .filter_map(|(_, a)| searcher.doc::<tantivy::TantivyDocument>(*a).ok())
            .filter_map(|d| d.get_first(self.id_field).and_then(|v| v.as_value().as_str().map(String::from)))
            .take(top_k)
            .collect()
    }
}

/// Some committed document carries the id.
pub open spec fn committed_has_id(ix: TantivyLexicalIndex, id: Seq<char>) -> bool {
    exists|d: LexDoc| #[trigger] lexical_committed(ix).contains(d) && d.id == id
}

/// Some chunk of the sequence indexes under the id.
pub open spec fn docs_have_id(chunks: Seq<IndexedChunk>, id: Seq<char>) -> bool {
    exists|d: LexDoc| #[trigger] docs_of(chunks).contains(d) && d.id == id
}

/// The documents of a chunk sequence, as a multiset.
pub open spec fn docs_of(chunks: Seq<IndexedChunk>) -> Multiset<LexDoc>
    decreases chunks.len(),
{
    if chunks.len() == 0 {
        Multiset::<LexDoc>::empty()
    } else {
        docs_of(chunks.drop_last()).insert(doc_of_indexed(chunks.last()))
    }
}

/// The document an on-disk chunk turns into after its rebuild.
pub open spec fn doc_of_indexed(c: IndexedChunk) -> LexDoc {
    LexDoc {
        id: crate::update::stable_id_spec(c),
        path: c.file@,
        symbol: match c.symbol {
            Some(s) => s@,
            None => Seq::<char>::empty(),
        },
        content: c.content@,
    }
}

/// Empties the index and fills it with the snapshot's chunks; on success
/// exactly the snapshot's documents are committed.  The handle must carry
/// no pending documents, as both constructors guarantee of a fresh one.
pub fn rebuild_index(ix: &mut TantivyLexicalIndex, indexed: &IndexedProject) -> (r: bool)
    requires
        lexical_pending(*old(ix)) == Multiset::<LexDoc>::empty(),
    ensures
        r ==> lexical_committed(*final(ix)) == docs_of(indexed.chunks@) && lexical_pending(
            *final(ix),
        ) == Multiset::<LexDoc>::empty(),
{
    if !ix.reset() {
        return false;
    }
    proof {
        assert forall|d: LexDoc| #[trigger] lexical_committed(*ix).count(d) == 0 by {
            assert(lexical_committed(*ix).count(d) <= Multiset::<LexDoc>::empty().count(d));
        }
        assert(lexical_committed(*ix) =~= Multiset::<LexDoc>::empty());
    }
    let n = indexed.chunks.len();
    let mut i: usize = 0;
    while i < n
        invariant
            n == indexed.chunks@.len(),
            i <= n,
            lexical_committed(*ix) == Multiset::<LexDoc>::empty(),
            lexical_pending(*ix) == docs_of(indexed.chunks@.take(i as int)),
        decreases n - i,
    {
        let chunk = to_code_chunk(&indexed.chunks[i]);
        if !ix.add_chunk(&chunk) {
            return false;
        }
        proof {
            assert(indexed.chunks@.take(i + 1 as int).drop_last() =~= indexed.chunks@.take(
                i as int,
            ));
            assert(indexed.chunks@.take(i + 1 as int).last() == indexed.chunks@[i as int]);
            assert(doc_of(chunk) == doc_of_indexed(indexed.chunks@[i as int]));
        }
        i = i + 1;
    }
    proof {
        assert(indexed.chunks@.take(n as int) =~= indexed.chunks@);
    }
    if !ix.commit() {
        return false;
    }
    proof {
        assert(lexical_committed(*ix) =~= docs_of(indexed.chunks@));
    }
    true
}

/// Rebuilds the on-disk lexical index for one project snapshot and hands
/// the open handle back: on success exactly the snapshot's documents are
/// committed under the directory.  The directory must already exist; the
/// caller creates it.
pub fn persist_tantivy_index(index_dir: &str, indexed: &IndexedProject) -> (r: Option<
    TantivyLexicalIndex,
>)
    ensures
        r matches Some(ix) ==> lexical_committed(ix) == docs_of(indexed.chunks@)
            && lexical_pending(ix) == Multiset::<LexDoc>::empty(),
{
    let mut ix = match TantivyLexicalIndex::open_or_create_on_disk(index_dir) {
        Some(ix) => ix,
        None => {
            return None;
        },
    };
    if !rebuild_index(&mut ix, indexed) {
        return None;
    }
    Some(ix)
}

/// Ranks a snapshot's chunks for a query in a freshly built in-memory
/// index: every returned id is the stable id of some chunk of the
/// snapshot, at most `top_k` of them.
pub fn lexical_ranked_ids(indexed: &IndexedProject, query: &str, top_k: usize) -> (r: Vec<String>)
    ensures
        r@.len() <= top_k,
        forall|j: int| 0 <= j < r@.len() ==> docs_have_id(indexed.chunks@, (#[trigger] r@[j])@),
{
    let mut ix = match TantivyLexicalIndex::new_in_memory() {
        Some(ix) => ix,
        None => {
            return Vec::new();
        },
    };
    if !rebuild_index(&mut ix, indexed) {
        return Vec::new();
    }
    let r = ix.search_ids(query, top_k);
    proof {
        assert forall|j: int| 0 <= j < r@.len() implies docs_have_id(
            indexed.chunks@,
            (#[trigger] r@[j])@,
        ) by {
            assert(committed_has_id(ix, (r@[j])@));
            let d = choose|d: LexDoc|
                #[trigger] lexical_committed(ix).contains(d) && d.id == (r@[j])@;
            assert(docs_of(indexed.chunks@).contains(d) && d.id == (r@[j])@);
        }
    }
    r
}

} // verus!
