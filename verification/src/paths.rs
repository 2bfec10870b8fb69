use vstd::prelude::*;

verus! {

use vstd::string::StringSliceAdditionalSpecFns;

use crate::hashing::{sha256_hex, sha256_hex_of};
use crate::strutil::{chars_of, extend_chars, starts_with_seq, string_from_chars};

/// The state directory: `<cwd>/.codivex`.
pub open spec fn codivex_dir_spec(cwd: Seq<char>) -> Seq<char> {
    cwd + "/.codivex"@
}

/// The project key: the first 24 hex characters of the SHA-256 digest of
/// the project path.  Stable and deterministic.
pub open spec fn project_key_spec(project_path: Seq<char>) -> Seq<char> {
    sha256_hex_of(vstd::utf8::encode_utf8(project_path)).take(24)
}

pub open spec fn project_storage_dir_spec(cwd: Seq<char>, project_path: Seq<char>) -> Seq<char> {
    codivex_dir_spec(cwd) + "/storage/"@ + project_key_spec(project_path)
}

pub open spec fn project_lexical_index_dir_spec(cwd: Seq<char>, project_path: Seq<char>) -> Seq<
    char,
> {
    project_storage_dir_spec(cwd, project_path) + "/tantivy"@
}

pub open spec fn project_vector_collection_spec(project_path: Seq<char>) -> Seq<char> {
    "code_chunks_"@ + project_key_spec(project_path)
}

pub open spec fn project_indexes_dir_spec(cwd: Seq<char>) -> Seq<char> {
    codivex_dir_spec(cwd) + "/project-indexes"@
}

pub open spec fn project_index_file_spec(cwd: Seq<char>, project_path: Seq<char>) -> Seq<char> {
    project_indexes_dir_spec(cwd) + "/"@ + project_key_spec(project_path) + ".json"@
}

pub open spec fn selected_project_file_spec(cwd: Seq<char>) -> Seq<char> {
    codivex_dir_spec(cwd) + "/selected-project.txt"@
}

pub open spec fn project_catalog_file_spec(cwd: Seq<char>) -> Seq<char> {
    codivex_dir_spec(cwd) + "/project-catalog.json"@
}

fn join_literal(base: &Vec<char>, tail: &'static str) -> (r: Vec<char>)
    ensures
        r@ == base@ + tail@,
{
    let mut r: Vec<char> = Vec::new();
    extend_chars(&mut r, base);
    let t = chars_of(tail);
    extend_chars(&mut r, &t);
    r
}

pub fn codivex_dir(cwd: &str) -> (r: String)
    ensures
        r@ == codivex_dir_spec(cwd@),
{
    let base = chars_of(cwd);
    let out = join_literal(&base, "/.codivex");
    string_from_chars(&out)
}

pub fn project_storage_key(project_path: &str) -> (r: String)
    ensures
        r@ == project_key_spec(project_path@),
{
    let full = sha256_hex(project_path);
    let cs = chars_of(full.as_str());
    let mut out: Vec<char> = Vec::new();
    let mut i: usize = 0;
    while i < 24
        invariant
            cs@.len() == 64,
            cs@ == sha256_hex_of(vstd::utf8::encode_utf8(project_path@)),
            i <= 24,
            out@ == cs@.take(i as int),
        decreases 24 - i,
    {
        out.push(cs[i]);
        proof {
            assert(out@ =~= cs@.take(i + 1 as int));
        }
        i = i + 1;
    }
    string_from_chars(&out)
}

pub fn project_storage_dir(cwd: &str, project_path: &str) -> (r: String)
    ensures
        r@ == project_storage_dir_spec(cwd@, project_path@),
{
    let base = chars_of(cwd);
    let state = join_literal(&base, "/.codivex");
    let mut out = join_literal(&state, "/storage/");
    let key = project_storage_key(project_path);
    let kv = chars_of(key.as_str());
    extend_chars(&mut out, &kv);
    proof {
        assert(out@ =~= project_storage_dir_spec(cwd@, project_path@));
    }
    string_from_chars(&out)
}

pub fn project_lexical_index_dir(cwd: &str, project_path: &str) -> (r: String)
    ensures
        r@ == project_lexical_index_dir_spec(cwd@, project_path@),
{
    let dir = project_storage_dir(cwd, project_path);
    let base = chars_of(dir.as_str());
    let out = join_literal(&base, "/tantivy");
    proof {
        assert(out@ =~= project_lexical_index_dir_spec(cwd@, project_path@));
    }
    string_from_chars(&out)
}

pub fn project_vector_collection(project_path: &str) -> (r: String)
    ensures
        r@ == project_vector_collection_spec(project_path@),
{
    let prefix = chars_of("code_chunks_");
    let mut out: Vec<char> = Vec::new();
    extend_chars(&mut out, &prefix);
    let key = project_storage_key(project_path);
    let kv = chars_of(key.as_str());
    extend_chars(&mut out, &kv);
    string_from_chars(&out)
}

pub fn project_indexes_dir(cwd: &str) -> (r: String)
    ensures
        r@ == project_indexes_dir_spec(cwd@),
{
    let base = chars_of(cwd);
    let state = join_literal(&base, "/.codivex");
    let out = join_literal(&state, "/project-indexes");
    proof {
        assert(out@ =~= project_indexes_dir_spec(cwd@));
    }
    string_from_chars(&out)
}

pub fn project_index_file(cwd: &str, project_path: &str) -> (r: String)
    ensures
        r@ == project_index_file_spec(cwd@, project_path@),
{
    let base = chars_of(cwd);
    let state = join_literal(&base, "/.codivex");
    let dir = join_literal(&state, "/project-indexes");
    let mut out = join_literal(&dir, "/");
    let key = project_storage_key(project_path);
    let kv = chars_of(key.as_str());
    extend_chars(&mut out, &kv);
    let suffix = chars_of(".json");
    extend_chars(&mut out, &suffix);
    proof {
        assert(out@ =~= project_index_file_spec(cwd@, project_path@));
    }
    string_from_chars(&out)
}

pub fn selected_project_file(cwd: &str) -> (r: String)
    ensures
        r@ == selected_project_file_spec(cwd@),
{
    let base = chars_of(cwd);
    let state = join_literal(&base, "/.codivex");
    let out = join_literal(&state, "/selected-project.txt");
    proof {
        assert(out@ =~= selected_project_file_spec(cwd@));
    }
    string_from_chars(&out)
}

pub fn project_catalog_file(cwd: &str) -> (r: String)
    ensures
        r@ == project_catalog_file_spec(cwd@),
{
    let base = chars_of(cwd);
    let state = join_literal(&base, "/.codivex");
    let out = join_literal(&state, "/project-catalog.json");
    proof {
        assert(out@ =~= project_catalog_file_spec(cwd@));
    }
    string_from_chars(&out)
}

/// Component-wise path prefix on `/`-separated paths: `root` is a prefix
/// of `target` and the prefix stops at a component boundary.
pub open spec fn path_starts_with_spec(target: Seq<char>, root: Seq<char>) -> bool {
    starts_with_seq(target, root) && (target.len() == root.len() || target[root.len() as int]
        == '/')
}

/// An absolute path on the platform the store runs on.
pub open spec fn is_absolute_spec(p: Seq<char>) -> bool {
    p.len() > 0 && p[0] == '/'
}

pub fn path_starts_with(target: &Vec<char>, root: &Vec<char>) -> (r: bool)
    ensures
        r == path_starts_with_spec(target@, root@),
{
    if !crate::strutil::chars_starts_with(target, root) {
        return false;
    }
    if target.len() == root.len() {
        return true;
    }
    proof {
        assert(root@.len() < target@.len());
    }
    target[root.len()] == '/'
}

pub fn is_absolute_path(p: &Vec<char>) -> (r: bool)
    ensures
        r == is_absolute_spec(p@),
{
    p.len() > 0 && p[0] == '/'
}

/// A write target is safe exactly when it lies inside the state directory
/// and not inside an absolute project path.
pub open spec fn safe_write_target_spec(
    cwd: Seq<char>,
    project_path: Seq<char>,
    target: Seq<char>,
) -> bool {
    path_starts_with_spec(target, codivex_dir_spec(cwd)) && !(is_absolute_spec(project_path)
        && path_starts_with_spec(target, project_path))
}

/// The errors the project store can raise.
#[derive(Debug, Clone, PartialEq, Eq)]
pub enum StoreError {
    /// A write target outside `<cwd>/.codivex`.
    WriteOutsideStateDir { target: String },
    /// A write target inside the repository being indexed.
    WriteInsideRepository { target: String },
    /// The project has no snapshot yet.
    NotIndexed,
}

impl StoreError {
    pub open spec fn message_spec(self) -> Seq<char> {
        match self {
            StoreError::WriteOutsideStateDir { target } => "unsafe write target outside state directory: "@
                + target@,
            StoreError::WriteInsideRepository { target } => "unsafe write target inside indexed repository: "@
                + target@,
            StoreError::NotIndexed => "project not indexed yet"@,
        }
    }

    pub fn message(&self) -> (r: String)
        ensures
            r@ == self.message_spec(),
    {
        match self {
            StoreError::WriteOutsideStateDir { target } => {
                let base = chars_of("unsafe write target outside state directory: ");
                let mut out: Vec<char> = Vec::new();
                extend_chars(&mut out, &base);
                let t = chars_of(target.as_str());
                extend_chars(&mut out, &t);
                string_from_chars(&out)
            },
            StoreError::WriteInsideRepository { target } => {
                let base = chars_of("unsafe write target inside indexed repository: ");
                let mut out: Vec<char> = Vec::new();
                extend_chars(&mut out, &base);
                let t = chars_of(target.as_str());
                extend_chars(&mut out, &t);
                string_from_chars(&out)
            },
            StoreError::NotIndexed => {
                let base = chars_of("project not indexed yet");
                string_from_chars(&base)
            },
        }
    }
}

/// The hard write-target guard: a target outside the state directory, or
/// inside an absolute project path, aborts the write.
pub fn assert_state_write_target(cwd: &str, project_path: &str, target: &str) -> (r: Result<
    (),
    StoreError,
>)
    ensures
        r is Ok <==> safe_write_target_spec(cwd@, project_path@, target@),
        !path_starts_with_spec(target@, codivex_dir_spec(cwd@)) ==> (r matches Err(
            StoreError::WriteOutsideStateDir { target: t },
        ) && t@ == target@),
        path_starts_with_spec(target@, codivex_dir_spec(cwd@)) && is_absolute_spec(project_path@)
            && path_starts_with_spec(target@, project_path@) ==> (r matches Err(
            StoreError::WriteInsideRepository { target: t },
        ) && t@ == target@),
{
    let tv = chars_of(target);
    let state_base = chars_of(cwd);
    let state_root = join_literal(&state_base, "/.codivex");
    if !path_starts_with(&tv, &state_root) {
        let owned = crate::strutil::string_from_chars(&tv);
        return Err(StoreError::WriteOutsideStateDir { target: owned });
    }
    let pv = chars_of(project_path);
    if is_absolute_path(&pv) && path_starts_with(&tv, &pv) {
        let owned = crate::strutil::string_from_chars(&tv);
        return Err(StoreError::WriteInsideRepository { target: owned });
    }
    Ok(())
}

/// Every path the store derives lies inside the state directory.
pub proof fn lemma_derived_targets_in_state_dir(cwd: Seq<char>, project_path: Seq<char>)
    ensures
        path_starts_with_spec(project_index_file_spec(cwd, project_path), codivex_dir_spec(cwd)),
        path_starts_with_spec(project_storage_dir_spec(cwd, project_path), codivex_dir_spec(cwd)),
        path_starts_with_spec(project_lexical_index_dir_spec(cwd, project_path), codivex_dir_spec(cwd)),
        path_starts_with_spec(project_catalog_file_spec(cwd), codivex_dir_spec(cwd)),
        path_starts_with_spec(selected_project_file_spec(cwd), codivex_dir_spec(cwd)),
{
    reveal_strlit("/project-indexes");
    reveal_strlit("/storage/");
    reveal_strlit("/project-catalog.json");
    reveal_strlit("/selected-project.txt");
    let root = codivex_dir_spec(cwd);
    assert(project_index_file_spec(cwd, project_path).subrange(0, root.len() as int) =~= root);
    assert(project_index_file_spec(cwd, project_path)[root.len() as int] == "/project-indexes"@[0]);
    assert(project_storage_dir_spec(cwd, project_path).subrange(0, root.len() as int) =~= root);
    assert(project_storage_dir_spec(cwd, project_path)[root.len() as int] == "/storage/"@[0]);
    assert(project_lexical_index_dir_spec(cwd, project_path).subrange(0, root.len() as int)
        =~= root);
    assert(project_lexical_index_dir_spec(cwd, project_path)[root.len() as int] == "/storage/"@[0]);
    assert(project_catalog_file_spec(cwd).subrange(0, root.len() as int) =~= root);
    assert(project_catalog_file_spec(cwd)[root.len() as int] == "/project-catalog.json"@[0]);
    assert(selected_project_file_spec(cwd).subrange(0, root.len() as int) =~= root);
    assert(selected_project_file_spec(cwd)[root.len() as int] == "/selected-project.txt"@[0]);
}

} // verus!
