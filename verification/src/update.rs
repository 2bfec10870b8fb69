use vstd::prelude::*;

verus! {

use vstd::seq_lib::*;

use crate::languages::{language_from_path, language_tag_spec};
use crate::paths::is_absolute_spec;
use crate::rpc::CodeChunk;
use crate::strutil::{chars_of, dec_str_of, extend_chars, string_from_chars, usize_to_dec_chars};

/// The reduced, authoritative on-disk form of a chunk.
#[derive(Debug, Clone, PartialEq, Eq)]
pub struct IndexedChunk {
    pub file: String,
    pub symbol: Option<String>,
    pub start_line: usize,
    pub end_line: usize,
    pub content: String,
}

/// A project-level snapshot persisted as one document.
#[derive(Debug, Clone, PartialEq, Eq)]
pub struct IndexedProject {
    pub project_path: String,
    pub files_scanned: usize,
    pub chunks_extracted: usize,
    pub indexed_at_unix: u64,
    pub chunks: Vec<IndexedChunk>,
}

/// Backslashes unified to forward slashes.
pub open spec fn normalize_path_spec(p: Seq<char>) -> Seq<char> {
    p.map_values(|c: char| if c == '\\' { '/' } else { c })
}

pub fn normalize_path(path: &str) -> (r: String)
    ensures
        r@ == normalize_path_spec(path@),
{
    let cs = chars_of(path);
    let mut out: Vec<char> = Vec::new();
    let mut i: usize = 0;
    while i < cs.len()
        invariant
            i <= cs@.len(),
            cs@ == path@,
            out@ == normalize_path_spec(cs@.take(i as int)),
        decreases cs@.len() - i,
    {
        if cs[i] == '\\' {
            out.push('/');
        } else {
            out.push(cs[i]);
        }
        proof {
            assert(out@ =~= normalize_path_spec(cs@.take(i + 1 as int)));
        }
        i = i + 1;
    }
    proof {
        assert(cs@.take(cs@.len() as int) =~= cs@);
    }
    string_from_chars(&out)
}

fn normalize_chars(cs: &Vec<char>) -> (r: Vec<char>)
    ensures
        r@ == normalize_path_spec(cs@),
{
    let mut out: Vec<char> = Vec::new();
    let mut i: usize = 0;
    while i < cs.len()
        invariant
            i <= cs@.len(),
            out@ == normalize_path_spec(cs@.take(i as int)),
        decreases cs@.len() - i,
    {
        if cs[i] == '\\' {
            out.push('/');
        } else {
            out.push(cs[i]);
        }
        proof {
            assert(out@ =~= normalize_path_spec(cs@.take(i + 1 as int)));
        }
        i = i + 1;
    }
    proof {
        assert(cs@.take(cs@.len() as int) =~= cs@);
    }
    out
}

/// A relative chunk file joined onto the project root.
pub open spec fn join_path_spec(base: Seq<char>, rel: Seq<char>) -> Seq<char> {
    if base.len() > 0 && base[base.len() - 1] == '/' {
        base + rel
    } else {
        base + "/"@ + rel
    }
}

/// Whether a snapshot chunk's `file` names the changed path: the chunk file
/// is normalized, joined onto the project root when relative, and compared
/// to the normalized changed path.
pub open spec fn same_file_spec(
    project_path: Seq<char>,
    changed_path: Seq<char>,
    chunk_file: Seq<char>,
) -> bool {
    normalize_path_spec(changed_path) == if is_absolute_spec(chunk_file) {
        normalize_path_spec(chunk_file)
    } else {
        normalize_path_spec(join_path_spec(project_path, chunk_file))
    }
}

pub fn same_file(project_path: &str, changed_path: &str, chunk_file: &str) -> (r: bool)
    ensures
        r == same_file_spec(project_path@, changed_path@, chunk_file@),
{
    let changed = chars_of(changed_path);
    let changed_norm = normalize_chars(&changed);
    let file = chars_of(chunk_file);
    let is_abs = file.len() > 0 && file[0] == '/';
    let joined: Vec<char> = if is_abs {
        file
    } else {
        let base = chars_of(project_path);
        let mut j: Vec<char> = Vec::new();
        extend_chars(&mut j, &base);
        if base.len() == 0 || base[base.len() - 1] != '/' {
            j.push('/');
        }
        extend_chars(&mut j, &file);
        proof {
            reveal_strlit("/");
            assert(j@ =~= join_path_spec(project_path@, chunk_file@));
        }
        j
    };
    let joined_norm = normalize_chars(&joined);
    crate::strutil::chars_eq(&changed_norm, &joined_norm)
}

/// The stable id of a reloaded chunk:
/// `<file>:<start_line>:<end_line>:<symbol or empty>`.
pub open spec fn stable_id_spec(c: IndexedChunk) -> Seq<char> {
    c.file@ + ":"@ + dec_str_of(c.start_line as nat) + ":"@ + dec_str_of(c.end_line as nat) + ":"@
        + (match c.symbol {
        Some(s) => s@,
        None => Seq::<char>::empty(),
    })
}

pub fn chunk_stable_id(chunk: &IndexedChunk) -> (r: String)
    ensures
        r@ == stable_id_spec(*chunk),
{
    let mut out = chars_of(chunk.file.as_str());
    out.push(':');
    let sl = usize_to_dec_chars(chunk.start_line);
    extend_chars(&mut out, &sl);
    out.push(':');
    let el = usize_to_dec_chars(chunk.end_line);
    extend_chars(&mut out, &el);
    out.push(':');
    match &chunk.symbol {
        Some(s) => {
            let sv = chars_of(s.as_str());
            extend_chars(&mut out, &sv);
        },
        None => {},
    }
    proof {
        reveal_strlit(":");
        assert(out@ =~= stable_id_spec(*chunk));
    }
    string_from_chars(&out)
}

/// The full chunk rebuilt from its on-disk form: byte offsets are lost, so
/// `start_char` is zero and `end_char` is the content's byte length; the
/// stable id doubles as the fingerprint.
pub fn to_code_chunk(chunk: &IndexedChunk) -> (r: CodeChunk)
    ensures
        r.id@ == stable_id_spec(*chunk),
        r.fingerprint@ == stable_id_spec(*chunk),
        r.file_path == chunk.file,
        r.language@ == language_tag_spec(chunk.file@),
        r.symbol == chunk.symbol,
        r.start_line == chunk.start_line,
        r.end_line == chunk.end_line,
        r.start_char == 0,
        r.end_char == vstd::utf8::encode_utf8(chunk.content@).len() as usize,
        r.content == chunk.content,
{
    let id = chunk_stable_id(chunk);
    let fingerprint = chunk_stable_id(chunk);
    let symbol: Option<String> = match &chunk.symbol {
        Some(s) => Some(s.clone()),
        None => None,
    };
    CodeChunk {
        id,
        fingerprint,
        file_path: chunk.file.clone(),
        language: language_from_path(chunk.file.as_str()),
        symbol,
        start_line: chunk.start_line,
        end_line: chunk.end_line,
        start_char: 0,
        end_char: chunk.content.as_str().len(),
        content: chunk.content.clone(),
    }
}

/// The on-disk form of a freshly extracted chunk.
pub open spec fn to_indexed_spec(c: CodeChunk) -> IndexedChunk {
    IndexedChunk {
        file: c.file_path,
        symbol: c.symbol,
        start_line: c.start_line,
        end_line: c.end_line,
        content: c.content,
    }
}

pub fn to_indexed_chunk(c: &CodeChunk) -> (r: IndexedChunk)
    ensures
        r == to_indexed_spec(*c),
{
    let symbol: Option<String> = match &c.symbol {
        Some(s) => Some(s.clone()),
        None => None,
    };
    IndexedChunk {
        file: c.file_path.clone(),
        symbol,
        start_line: c.start_line,
        end_line: c.end_line,
        content: c.content.clone(),
    }
}

/// The views of a vector of strings.
pub open spec fn views_of(ss: Seq<String>) -> Seq<Seq<char>> {
    ss.map_values(|s: String| s@)
}

/// The stable ids of a chunk sequence, in order.
pub open spec fn ids_of(cs: Seq<IndexedChunk>) -> Seq<Seq<char>> {
    cs.map_values(|c: IndexedChunk| stable_id_spec(c))
}

/// The on-disk forms of freshly extracted chunks, in order.
pub open spec fn indexed_of(cs: Seq<CodeChunk>) -> Seq<IndexedChunk> {
    cs.map_values(|c: CodeChunk| to_indexed_spec(c))
}

/// Chunks of the snapshot that do not belong to the changed file.
pub open spec fn kept_chunks_spec(
    chunks: Seq<IndexedChunk>,
    project_path: Seq<char>,
    changed_path: Seq<char>,
) -> Seq<IndexedChunk> {
    chunks.filter(|c: IndexedChunk| !same_file_spec(project_path, changed_path, c.file@))
}

/// Chunks of the snapshot that belong to the changed file, in order.
pub open spec fn dropped_chunks_spec(
    chunks: Seq<IndexedChunk>,
    project_path: Seq<char>,
    changed_path: Seq<char>,
) -> Seq<IndexedChunk> {
    chunks.filter(|c: IndexedChunk| same_file_spec(project_path, changed_path, c.file@))
}

proof fn lemma_filter_take_step<A>(s: Seq<A>, i: int, pred: spec_fn(A) -> bool)
    requires
        0 <= i < s.len(),
    ensures
        s.take(i + 1).filter(pred) == if pred(s[i]) {
            s.take(i).filter(pred).push(s[i])
        } else {
            s.take(i).filter(pred)
        },
{
    reveal(Seq::filter);
    assert(s.take(i + 1).drop_last() =~= s.take(i));
    assert(s.take(i + 1).last() == s[i]);
}

/// One incremental update applied to a snapshot: every chunk of the changed
/// file is dropped (its stable id collected, in order), the freshly
/// extracted chunks are appended, and the counters are refreshed.
pub fn apply_incremental_update(
    indexed: IndexedProject,
    project_path: &str,
    changed_path: &str,
    new_chunks: &Vec<CodeChunk>,
    now: u64,
) -> (r: (IndexedProject, Vec<String>))
    ensures
        r.0.project_path == indexed.project_path,
        r.0.files_scanned == indexed.files_scanned,
        r.0.indexed_at_unix == now,
        r.0.chunks@ == kept_chunks_spec(indexed.chunks@, project_path@, changed_path@)
            + indexed_of(new_chunks@),
        r.0.chunks_extracted == r.0.chunks@.len(),
        views_of(r.1@) == ids_of(
            dropped_chunks_spec(indexed.chunks@, project_path@, changed_path@),
        ),
{
    let ghost orig = indexed.chunks@;
    let ghost keep_pred = |c: IndexedChunk| !same_file_spec(project_path@, changed_path@, c.file@);
    let ghost drop_pred = |c: IndexedChunk| same_file_spec(project_path@, changed_path@, c.file@);
    let mut remaining = indexed.chunks;
    let mut kept: Vec<IndexedChunk> = Vec::new();
    let mut deleted_ids: Vec<String> = Vec::new();
    let n = remaining.len();
    let mut i: usize = 0;
    while i < n
        invariant
            n == orig.len(),
            remaining@ == orig,
            i <= n,
            kept@ == orig.take(i as int).filter(keep_pred),
            views_of(deleted_ids@) == ids_of(orig.take(i as int).filter(drop_pred)),
            keep_pred == (|c: IndexedChunk| !same_file_spec(
                project_path@,
                changed_path@,
                c.file@,
            )),
            drop_pred == (|c: IndexedChunk| same_file_spec(project_path@, changed_path@, c.file@)),
        decreases n - i,
    {
        proof {
            lemma_filter_take_step(orig, i as int, keep_pred);
            lemma_filter_take_step(orig, i as int, drop_pred);
        }
        let chunk = &remaining[i];
        if same_file(project_path, changed_path, chunk.file.as_str()) {
            let id = chunk_stable_id(chunk);
            let ghost before = deleted_ids@;
            deleted_ids.push(id);
            proof {
                let old_ids = ids_of(orig.take(i as int).filter(drop_pred));
                let new_ids = ids_of(orig.take(i + 1 as int).filter(drop_pred));
                assert(views_of(before) == old_ids);
                assert(drop_pred(orig[i as int]));
                assert(orig.take(i + 1 as int).filter(drop_pred) == orig.take(i as int).filter(
                    drop_pred,
                ).push(orig[i as int]));
                assert(deleted_ids@ == before.push(id));
                assert forall|k: int| 0 <= k < new_ids.len() implies views_of(deleted_ids@)[k]
                    == new_ids[k] by {
                    assert(views_of(deleted_ids@)[k] == deleted_ids@[k]@);
                    if k < old_ids.len() {
                        assert(deleted_ids@[k] == before[k]);
                        assert(before[k]@ == views_of(before)[k]);
                    } else {
                        assert(deleted_ids@[k] == id);
                        assert(new_ids[k] == stable_id_spec(orig[i as int]));
                    }
                }
                assert(views_of(deleted_ids@) =~= new_ids);
            }
        } else {
            let copy = IndexedChunk {
                file: chunk.file.clone(),
                symbol: match &chunk.symbol {
                    Some(s) => Some(s.clone()),
                    None => None,
                },
                start_line: chunk.start_line,
                end_line: chunk.end_line,
                content: chunk.content.clone(),
            };
            proof {
                assert(copy == orig[i as int]);
            }
            kept.push(copy);
        }
        i = i + 1;
    }
    proof {
        assert(orig.take(n as int) =~= orig);
    }
    let mut j: usize = 0;
    let m = new_chunks.len();
    while j < m
        invariant
            m == new_chunks@.len(),
            j <= m,
            kept@ == orig.filter(keep_pred) + indexed_of(new_chunks@.take(j as int)),
            keep_pred == (|c: IndexedChunk| !same_file_spec(
                project_path@,
                changed_path@,
                c.file@,
            )),
        decreases m - j,
    {
        let ic = to_indexed_chunk(&new_chunks[j]);
        kept.push(ic);
        proof {
            assert(kept@ =~= orig.filter(keep_pred) + indexed_of(new_chunks@.take(j + 1 as int)));
        }
        j = j + 1;
    }
    proof {
        assert(new_chunks@.take(m as int) =~= new_chunks@);
    }
    let count = kept.len();
    let snapshot = IndexedProject {
        project_path: indexed.project_path,
        files_scanned: indexed.files_scanned,
        chunks_extracted: count,
        indexed_at_unix: now,
        chunks: kept,
    };
    (snapshot, deleted_ids)
}

/// After an update, a chunk of the changed file can only be one of the
/// freshly extracted chunks: everything before the appended tail is not of
/// that file.
pub proof fn lemma_update_replaces_file_chunks(
    chunks: Seq<IndexedChunk>,
    new_chunks: Seq<CodeChunk>,
    project_path: Seq<char>,
    changed_path: Seq<char>,
    result: Seq<IndexedChunk>,
)
    requires
        result == kept_chunks_spec(chunks, project_path, changed_path) + indexed_of(new_chunks),
    ensures
        forall|i: int|
            0 <= i < kept_chunks_spec(chunks, project_path, changed_path).len()
                ==> !same_file_spec(project_path, changed_path, #[trigger] result[i].file@),
{
    let kept = kept_chunks_spec(chunks, project_path, changed_path);
    assert forall|i: int| 0 <= i < kept.len() implies !same_file_spec(
        project_path,
        changed_path,
        #[trigger] result[i].file@,
    ) by {
        chunks.lemma_filter_pred(
            |c: IndexedChunk| !same_file_spec(project_path, changed_path, c.file@),
            i,
        );
        assert(result[i] == kept[i]);
    }
}

proof fn lemma_filter_all_pos<A>(s: Seq<A>, pred: spec_fn(A) -> bool)
    requires
        forall|i: int| 0 <= i < s.len() ==> pred(s[i]),
    ensures
        s.filter(pred) == s,
    decreases s.len(),
{
    reveal(Seq::filter);
    if s.len() > 0 {
        lemma_filter_all_pos(s.drop_last(), pred);
        assert(s.drop_last().push(s.last()) =~= s);
    }
}

/// A chunk freshly extracted from the changed file names that file: the
/// extractor stamps the path it was handed, and an absolute changed path
/// (as the watcher passes it) is its own normal form on both sides of the
/// comparison.
pub proof fn lemma_extracted_chunk_is_of_changed_file(
    project_path: Seq<char>,
    changed_path: Seq<char>,
    c: CodeChunk,
)
    requires
        is_absolute_spec(changed_path),
        c.file_path@ == changed_path,
    ensures
        same_file_spec(project_path, changed_path, c.file_path@),
{
}

/// Applying the same update twice gives the same snapshot chunks: the
/// second pass drops exactly the chunks the first pass appended and appends
/// them again.
pub proof fn lemma_apply_update_idempotent(
    chunks: Seq<IndexedChunk>,
    new_chunks: Seq<CodeChunk>,
    project_path: Seq<char>,
    changed_path: Seq<char>,
)
    requires
        forall|i: int|
            0 <= i < new_chunks.len() ==> same_file_spec(
                project_path,
                changed_path,
                #[trigger] new_chunks[i].file_path@,
            ),
    ensures
        kept_chunks_spec(
            kept_chunks_spec(chunks, project_path, changed_path) + indexed_of(new_chunks),
            project_path,
            changed_path,
        ) + indexed_of(new_chunks) == kept_chunks_spec(chunks, project_path, changed_path)
            + indexed_of(new_chunks),
{
    let keep_pred = |c: IndexedChunk| !same_file_spec(project_path, changed_path, c.file@);
    let kept = chunks.filter(keep_pred);
    let tail = indexed_of(new_chunks);
    Seq::filter_distributes_over_add(kept, tail, keep_pred);
    assert forall|i: int| 0 <= i < kept.len() implies keep_pred(kept[i]) by {
        chunks.lemma_filter_pred(keep_pred, i);
    }
    lemma_filter_all_pos(kept, keep_pred);
    assert forall|i: int| 0 <= i < tail.len() implies !keep_pred(tail[i]) by {
        assert(tail[i] == to_indexed_spec(new_chunks[i]));
    }
    tail.lemma_all_neg_filter_empty(keep_pred);
    assert(kept.filter(keep_pred) + tail.filter(keep_pred) =~= kept);
}

} // verus!
