use vstd::prelude::*;

verus! {

use vstd::string::{StringSliceAdditionalSpecFns, StrSliceExecFns, StringExecFns};

use crate::hashing::fingerprint_content;
use crate::languages::{is_chunk_candidate, LanguageKind};
use crate::rpc::CodeChunk;
use crate::strutil::{chars_of, dec_str_of, extend_chars, string_from_chars, usize_to_dec_chars};

/// A tree-sitter grammar handle.
#[verifier::external_type_specification]
#[verifier::external_body]
pub struct ExLanguage(tree_sitter::Language);

/// A parsed syntax tree.
#[verifier::external_type_specification]
#[verifier::external_body]
pub struct ExTree(tree_sitter::Tree);

/// A cursor over a syntax tree.
#[verifier::external_type_specification]
#[verifier::external_body]
pub struct ExTreeCursor<'a>(tree_sitter::TreeCursor<'a>);

/// Relies on `tree_sitter_rust::LANGUAGE`: the Rust grammar.
#[verifier::external_body]
fn rust_language() -> tree_sitter::Language {
    tree_sitter_rust::LANGUAGE.into()
}

/// Relies on `tree_sitter_c::LANGUAGE`: the C grammar.
#[verifier::external_body]
fn c_language() -> tree_sitter::Language {
    tree_sitter_c::LANGUAGE.into()
}

/// Relies on `tree_sitter_cpp::LANGUAGE`: the C++ grammar.
#[verifier::external_body]
fn cpp_language() -> tree_sitter::Language {
    tree_sitter_cpp::LANGUAGE.into()
}

/// Relies on `tree_sitter_javascript::LANGUAGE`: the JavaScript grammar.
#[verifier::external_body]
fn javascript_language() -> tree_sitter::Language {
    tree_sitter_javascript::LANGUAGE.into()
}

/// Relies on `tree_sitter_typescript::LANGUAGE_TYPESCRIPT`: the TypeScript
/// grammar.
#[verifier::external_body]
fn typescript_language() -> tree_sitter::Language {
    tree_sitter_typescript::LANGUAGE_TYPESCRIPT.into()
}

/// Relies on `tree_sitter_python::LANGUAGE`: the Python grammar.
#[verifier::external_body]
fn python_language() -> tree_sitter::Language {
    tree_sitter_python::LANGUAGE.into()
}

/// Relies on `tree_sitter_go::LANGUAGE`: the Go grammar.
#[verifier::external_body]
fn go_language() -> tree_sitter::Language {
    tree_sitter_go::LANGUAGE.into()
}

/// Relies on `tree_sitter_haskell::LANGUAGE`: the Haskell grammar.
#[verifier::external_body]
fn haskell_language() -> tree_sitter::Language {
    tree_sitter_haskell::LANGUAGE.into()
}

/// Relies on `tree_sitter_java::LANGUAGE`: the Java grammar.
#[verifier::external_body]
fn java_language() -> tree_sitter::Language {
    tree_sitter_java::LANGUAGE.into()
}

/// Relies on `tree_sitter_c_sharp::LANGUAGE`: the C# grammar.
#[verifier::external_body]
fn csharp_language() -> tree_sitter::Language {
    tree_sitter_c_sharp::LANGUAGE.into()
}

/// Relies on `tree_sitter_php::LANGUAGE_PHP`: the PHP grammar.
#[verifier::external_body]
fn php_language() -> tree_sitter::Language {
    tree_sitter_php::LANGUAGE_PHP.into()
}

/// Relies on `tree_sitter_ruby::LANGUAGE`: the Ruby grammar.
#[verifier::external_body]
fn ruby_language() -> tree_sitter::Language {
    tree_sitter_ruby::LANGUAGE.into()
}

/// Relies on `tree_sitter_kotlin_ng::LANGUAGE`: the Kotlin grammar.
#[verifier::external_body]
fn kotlin_language() -> tree_sitter::Language {
    tree_sitter_kotlin_ng::LANGUAGE.into()
}

/// Relies on `tree_sitter_swift::LANGUAGE`: the Swift grammar.
#[verifier::external_body]
fn swift_language() -> tree_sitter::Language {
    tree_sitter_swift::LANGUAGE.into()
}

/// The grammar of one language kind.
pub(crate) fn language_for(kind: LanguageKind) -> tree_sitter::Language {
    match kind {
        LanguageKind::Rust => rust_language(),
        LanguageKind::C => c_language(),
        LanguageKind::Cpp => cpp_language(),
        LanguageKind::JavaScript => javascript_language(),
        LanguageKind::TypeScript => typescript_language(),
        LanguageKind::Python => python_language(),
        LanguageKind::Go => go_language(),
        LanguageKind::Haskell => haskell_language(),
        LanguageKind::Java => java_language(),
        LanguageKind::CSharp => csharp_language(),
        LanguageKind::Php => php_language(),
        LanguageKind::Ruby => ruby_language(),
        LanguageKind::Kotlin => kotlin_language(),
        LanguageKind::Swift => swift_language(),
    }
}

/// Whether the grammar of the kind accepts the text: `Parser::parse`
/// returns a tree or not depending only on the grammar (language version)
/// and the text, never on an old tree, a clock or the machine.
pub uninterp spec fn parses(kind: LanguageKind, s: Seq<char>) -> bool;

/// Relies on `tree_sitter::Parser`: builds a parser for the kind's grammar
/// and parses the source.  Whether a tree comes back is a function of the
/// grammar and the text alone (no cancellation or timeout is set here).
#[verifier::external_body]
pub(crate) fn parse_source(kind: LanguageKind, content: &str) -> (r: Option<tree_sitter::Tree>)
    ensures
        r is Some <==> parses(kind, content@),
{
    let mut parser = tree_sitter::Parser::new();
    parser.set_language(&language_for(kind)).ok()?;
    parser.parse(content, None)
}

/// Relies on `tree_sitter::Parser::parse` with an edited old tree as
/// context: the old tree only speeds the parse up; whether a tree comes
/// back depends on the grammar and the new text alone.
#[verifier::external_body]
pub(crate) fn parse_source_with(
    kind: LanguageKind,
    content: &str,
    old_tree: &tree_sitter::Tree,
) -> (r: Option<tree_sitter::Tree>)
    ensures
        r is Some <==> parses(kind, content@),
{
    let mut parser = tree_sitter::Parser::new();
    parser.set_language(&language_for(kind)).ok()?;
    parser.parse(content, Some(old_tree))
}

/// A byte-and-point edit span, as the incremental reparser takes it.
#[derive(Debug, Clone, Copy, PartialEq, Eq, Structural)]
pub struct ByteEdit {
    pub start_byte: usize,
    pub old_end_byte: usize,
    pub new_end_byte: usize,
    pub start_row: usize,
    pub start_col: usize,
    pub old_end_row: usize,
    pub old_end_col: usize,
    pub new_end_row: usize,
    pub new_end_col: usize,
}

/// Relies on `tree_sitter::Tree::edit`: marks the edited span on the old
/// tree so a later parse can reuse it.
#[verifier::external_body]
pub(crate) fn tree_edit(tree: &mut tree_sitter::Tree, edit: &ByteEdit) {
    tree.edit(&tree_sitter::InputEdit {
        start_byte: edit.start_byte,
        old_end_byte: edit.old_end_byte,
        new_end_byte: edit.new_end_byte,
        start_position: tree_sitter::Point { row: edit.start_row, column: edit.start_col },
        old_end_position: tree_sitter::Point { row: edit.old_end_row, column: edit.old_end_col },
        new_end_position: tree_sitter::Point { row: edit.new_end_row, column: edit.new_end_col },
    });
}

/// The plain record of one syntax node: everything the chunker reads.
#[derive(Debug, Clone, PartialEq, Eq)]
pub struct NodeRec {
    pub kind: String,
    pub start_byte: usize,
    pub end_byte: usize,
    pub start_row: usize,
    pub end_row: usize,
    pub symbol: Option<String>,
}

/// Relies on `tree_sitter::Tree::walk`: a cursor at the root node.
#[verifier::external_body]
pub(crate) fn tree_cursor<'a>(tree: &'a tree_sitter::Tree) -> tree_sitter::TreeCursor<'a> {
    tree.walk()
}

/// Relies on the `tree_sitter::Node` accessors: converts the node under
/// the cursor into plain values (kind, byte span, row span, and the text
/// of its `name` field if it has one); the name span is sliced with a
/// checked lookup, so a span outside the text yields no symbol.
#[verifier::external_body]
pub(crate) fn cursor_node_record(cursor: &tree_sitter::TreeCursor<'_>, content: &str) -> NodeRec {
    let node = cursor.node();
    let span = node.child_by_field_name("name").map(|n| (n.start_byte(), n.end_byte()));
    let symbol = span.and_then(|(a, b)| content.as_bytes().get(a..b))
        .and_then(|b| std::str::from_utf8(b).ok())
        .map(|s| s.to_string());
    NodeRec {
        kind: node.kind().to_string(),
        start_byte: node.start_byte(),
        end_byte: node.end_byte(),
        start_row: node.start_position().row,
        end_row: node.end_position().row,
        symbol,
    }
}

/// Relies on `tree_sitter::TreeCursor::goto_first_child`.
#[verifier::external_body]
pub(crate) fn cursor_goto_first_child(cursor: &mut tree_sitter::TreeCursor<'_>) -> bool {
    cursor.goto_first_child()
}

/// Relies on `tree_sitter::TreeCursor::goto_next_sibling`.
#[verifier::external_body]
pub(crate) fn cursor_goto_next_sibling(cursor: &mut tree_sitter::TreeCursor<'_>) -> bool {
    cursor.goto_next_sibling()
}

/// Relies on `tree_sitter::TreeCursor::goto_parent`.
#[verifier::external_body]
pub(crate) fn cursor_goto_parent(cursor: &mut tree_sitter::TreeCursor<'_>) -> bool {
    cursor.goto_parent()
}

/// Walks the tree in document (pre-)order and records every node.  The
/// walk carries a step budget of eight steps per source byte (plus a small
/// floor) so that it provably ends even though the tree itself is opaque;
/// a parse tree with more nodes than that - which a text of this length
/// cannot produce under these grammars - would be recorded only up to the
/// budget.  Nothing downstream assumes completeness: the extraction
/// contract holds of whatever records come back.
fn collect_node_records(tree: &tree_sitter::Tree, content: &str) -> Vec<NodeRec> {
    let mut cursor = tree_cursor(tree);
    let mut out: Vec<NodeRec> = Vec::new();
    let n = content.len();
    let budget: usize = if n < usize::MAX / 8 - 64 {
        n * 8 + 64
    } else {
        usize::MAX
    };
    let mut steps: usize = 0;
    let mut depth: usize = 0;
    let mut done = false;
    while !done && steps < budget
        invariant
            steps <= budget,
        decreases budget - steps,
    {
        steps = steps + 1;
        let ghost steps0 = steps;
        out.push(cursor_node_record(&cursor, content));
        if cursor_goto_first_child(&mut cursor) {
            if depth < usize::MAX {
                depth = depth + 1;
            }
        } else {
            let mut climbing = true;
            while climbing && steps < budget
                invariant
                    steps0 <= steps <= budget,
                decreases budget - steps, climbing as int,
            {
                if cursor_goto_next_sibling(&mut cursor) {
                    climbing = false;
                } else if depth == 0 {
                    climbing = false;
                    done = true;
                } else {
                    let _ = cursor_goto_parent(&mut cursor);
                    depth = depth - 1;
                    steps = steps + 1;
                }
            }
        }
    }
    out
}

/// The errors extraction can raise.
#[derive(Debug, Clone, Copy, PartialEq, Eq, Structural)]
pub enum ExtractError {
    /// The path has no recognized source extension.
    UnsupportedExtension,
    /// The grammar refused the source.
    ParseFailed,
}

impl ExtractError {
    pub open spec fn message_spec(self) -> Seq<char> {
        match self {
            ExtractError::UnsupportedExtension => "unsupported file extension"@,
            ExtractError::ParseFailed => "failed to parse source"@,
        }
    }

    pub fn message(&self) -> (r: String)
        ensures
            r@ == self.message_spec(),
    {
        match self {
            ExtractError::UnsupportedExtension => {
                let cs = chars_of("unsupported file extension");
                string_from_chars(&cs)
            },
            ExtractError::ParseFailed => {
                let cs = chars_of("failed to parse source");
                string_from_chars(&cs)
            },
        }
    }
}

/// A byte that counts as blank when deciding whether a line is empty.
pub open spec fn is_ascii_ws_byte(b: u8) -> bool {
    b == 32u8 || b == 9u8 || b == 13u8 || b == 11u8 || b == 12u8
}

/// The run `[start, end)` is blank, or starts (after blanks) with `//`.
pub open spec fn blank_or_comment_span(bytes: Seq<u8>, start: int, end: int) -> bool
    decreases end - start,
{
    if start >= end {
        true
    } else if is_ascii_ws_byte(bytes[start]) {
        blank_or_comment_span(bytes, start + 1, end)
    } else {
        bytes[start] == 47u8 && start + 1 < end && bytes[start + 1] == 47u8
    }
}

fn is_blank_or_comment_line(bytes: &Vec<u8>, start: usize, end: usize) -> (r: bool)
    requires
        start <= end <= bytes@.len(),
    ensures
        r == blank_or_comment_span(bytes@, start as int, end as int),
{
    let mut i = start;
    while i < end
        invariant
            start <= i <= end <= bytes@.len(),
            blank_or_comment_span(bytes@, start as int, end as int) == blank_or_comment_span(
                bytes@,
                i as int,
                end as int,
            ),
        decreases end - i,
    {
        let b = bytes[i];
        if b == 32u8 || b == 9u8 || b == 13u8 || b == 11u8 || b == 12u8 {
            i = i + 1;
        } else {
            return b == 47u8 && i + 1 < end && bytes[i + 1] == 47u8;
        }
    }
    true
}

/// The start of the line whose bytes run up to `end` (exclusive): the
/// position after the previous newline, or the start of the text.
pub open spec fn line_start(bytes: Seq<u8>, end: int) -> int
    decreases end,
{
    if end <= 0 {
        0
    } else if bytes[end - 1] == 10u8 {
        end
    } else {
        line_start(bytes, end - 1)
    }
}

proof fn lemma_line_start_bounds(bytes: Seq<u8>, end: int)
    requires
        end >= 0,
    ensures
        0 <= line_start(bytes, end) <= end,
    decreases end,
{
    if end > 0 && bytes[end - 1] != 10u8 {
        lemma_line_start_bounds(bytes, end - 1);
    }
}

/// The backward walk of the leading-comment extension, exactly as spec'd:
/// line by line above the node, while a line is blank or a `//` comment it
/// is included; the result is the start of the last included line, or
/// `best` (initially the node start) when the first line already fails.
pub open spec fn comment_scan(bytes: Seq<u8>, end: int, best: int) -> int
    decreases end + 1,
{
    if end < 0 {
        best
    } else {
        let ls0 = line_start(bytes, end);
        let ls = if ls0 < 0 {
            0
        } else if ls0 > end {
            end
        } else {
            ls0
        };
        if blank_or_comment_span(bytes, ls, end) {
            if ls == 0 {
                0
            } else {
                comment_scan(bytes, ls - 1, ls)
            }
        } else {
            best
        }
    }
}

/// The start byte of a chunk extended backwards over the run of blank and
/// `//`-comment lines directly above the node: exactly the backward
/// line-by-line walk of `comment_scan`.
pub fn with_leading_comment_start(bytes: &Vec<u8>, node_start: usize) -> (r: usize)
    requires
        node_start <= bytes@.len(),
    ensures
        r <= node_start,
        r == node_start || r == 0 || bytes@[r - 1] == 10u8,
        r == comment_scan(bytes@, node_start as int, node_start as int),
{
    let mut best = node_start;
    let mut end = node_start;
    let mut scanning = true;
    while scanning
        invariant
            end <= node_start <= bytes@.len(),
            best <= node_start,
            best == node_start || best == 0 || bytes@[best as int - 1] == 10u8,
            comment_scan(bytes@, node_start as int, node_start as int) == (if scanning {
                comment_scan(bytes@, end as int, best as int)
            } else {
                best as int
            }),
        decreases end + 1, scanning as int,
    {
        let ghost end0 = end as int;
        let mut ls = end;
        while ls > 0 && bytes[ls - 1] != 10u8
            invariant
                ls <= end <= bytes@.len(),
                line_start(bytes@, end0) == line_start(bytes@, ls as int),
                end as int == end0,
            decreases ls,
        {
            ls = ls - 1;
        }
        proof {
            assert(line_start(bytes@, ls as int) == ls as int);
            lemma_line_start_bounds(bytes@, end0);
        }
        if is_blank_or_comment_line(bytes, ls, end) {
            best = ls;
            if ls == 0 {
                scanning = false;
            } else {
                end = ls - 1;
            }
        } else {
            scanning = false;
        }
    }
    best
}

/// Both span ends sit on character boundaries of the text, the far end
/// measured inside the tail that starts at `start`.
pub open spec fn span_ok(bytes: Seq<u8>, start: int, end: int) -> bool {
    &&& vstd::utf8::is_char_boundary(bytes, start)
    &&& vstd::utf8::is_char_boundary(bytes.subrange(start, bytes.len() as int), end - start)
}

/// The byte slice `s[start..end]`, exactly when both ends are character
/// boundaries.
fn slice_str<'a>(s: &'a str, start: usize, end: usize) -> (r: Option<&'a str>)
    requires
        start <= end,
        end <= s.spec_bytes().len(),
    ensures
        (r is Some) <==> span_ok(s.spec_bytes(), start as int, end as int),
        r matches Some(t) ==> t.spec_bytes() == s.spec_bytes().subrange(start as int, end as int),
{
    if !s.is_char_boundary(start) {
        return None;
    }
    let (_, rest) = s.split_at(start);
    if !rest.is_char_boundary(end - start) {
        proof {
            assert(rest.spec_bytes() =~= s.spec_bytes().subrange(
                start as int,
                s.spec_bytes().len() as int,
            ));
        }
        return None;
    }
    let (mid, _) = rest.split_at(end - start);
    proof {
        assert(rest.spec_bytes() =~= s.spec_bytes().subrange(
            start as int,
            s.spec_bytes().len() as int,
        ));
        assert(mid.spec_bytes() =~= s.spec_bytes().subrange(start as int, end as int));
    }
    Some(mid)
}

/// A chunk that satisfies the extraction invariant against its source.
pub open spec fn chunk_wf(c: CodeChunk, source_bytes: Seq<u8>) -> bool {
    &&& c.start_line >= 1
    &&& c.end_line >= c.start_line
    &&& c.start_char <= c.end_char <= source_bytes.len()
    &&& vstd::utf8::encode_utf8(c.content@) == source_bytes.subrange(
        c.start_char as int,
        c.end_char as int,
    )
}

/// The chunk id of the initial extraction: `<path>:<start_row>:<end_row>`
/// with zero-based rows.
pub open spec fn extraction_id_spec(path: Seq<char>, start_row: nat, end_row: nat) -> Seq<char> {
    path + ":"@ + dec_str_of(start_row) + ":"@ + dec_str_of(end_row)
}

fn extraction_id(path: &str, start_row: usize, end_row: usize) -> (r: String)
    ensures
        r@ == extraction_id_spec(path@, start_row as nat, end_row as nat),
{
    let mut out = chars_of(path);
    out.push(':');
    let sr = usize_to_dec_chars(start_row);
    extend_chars(&mut out, &sr);
    out.push(':');
    let er = usize_to_dec_chars(end_row);
    extend_chars(&mut out, &er);
    proof {
        reveal_strlit(":");
        assert(out@ =~= extraction_id_spec(path@, start_row as nat, end_row as nat));
    }
    string_from_chars(&out)
}

/// The zero-based row a node reports, clamped so adding one cannot
/// overflow.
pub open spec fn clamped_row(row: usize) -> int {
    if row < usize::MAX {
        row as int
    } else {
        usize::MAX - 1
    }
}

/// The comment-extended start byte of a node chunk.
pub open spec fn node_span_start(bytes: Seq<u8>, start_byte: usize) -> int {
    let ns = if (start_byte as int) < bytes.len() {
        start_byte as int
    } else {
        bytes.len() as int
    };
    comment_scan(bytes, ns, ns)
}

/// The end byte of a node chunk, clamped into the source and never before
/// the extended start.
pub open spec fn node_span_end(bytes: Seq<u8>, start_byte: usize, end_byte: usize) -> int {
    let start = node_span_start(bytes, start_byte);
    let e = if (end_byte as int) < bytes.len() {
        end_byte as int
    } else {
        bytes.len() as int
    };
    if e < start {
        start
    } else {
        e
    }
}

/// Builds one chunk from a node record, clamping every coordinate to the
/// source so the extraction invariant holds whatever the parser returned.
/// The id, the one-based lines, the comment-extended span and the
/// fingerprint are all fixed as functions of the record and the source.
fn node_chunk(path: &str, kind: LanguageKind, content: &str, bytes: &Vec<u8>, rec: &NodeRec) -> (r:
    CodeChunk)
    requires
        bytes@ == content.spec_bytes(),
    ensures
        chunk_wf(r, content.spec_bytes()),
        r.file_path@ == path@,
        r.language@ == kind.label_spec(),
        r.symbol == rec.symbol,
        r.fingerprint@ == crate::hashing::fingerprint_of(r.content@),
        ({
            let sb = content.spec_bytes();
            let start = node_span_start(sb, rec.start_byte);
            let e = node_span_end(sb, rec.start_byte, rec.end_byte);
            &&& r.start_char == start
            &&& r.end_char == (if span_ok(sb, start, e) {
                e
            } else {
                start
            })
        }),
        ({
            let sr = clamped_row(rec.start_row);
            let er0 = clamped_row(rec.end_row);
            let er = if er0 < sr {
                sr
            } else {
                er0
            };
            &&& r.start_line == sr + 1
            &&& r.end_line == er + 1
            &&& r.id@ == extraction_id_spec(path@, sr as nat, er as nat)
        }),
{
    let len = bytes.len();
    let node_start = if rec.start_byte < len {
        rec.start_byte
    } else {
        len
    };
    let start = with_leading_comment_start(bytes, node_start);
    let mut end = if rec.end_byte < len {
        rec.end_byte
    } else {
        len
    };
    if end < start {
        end = start;
    }
    let (snippet, start_char, end_char): (String, usize, usize) = match slice_str(
        content,
        start,
        end,
    ) {
        Some(t) => (String::from_str(t), start, end),
        None => {
            proof {
                assert(content.spec_bytes().subrange(start as int, start as int)
                    =~= Seq::<u8>::empty());
                assert(vstd::utf8::encode_utf8(Seq::<char>::empty()) =~= Seq::<u8>::empty());
            }
            (String::new(), start, start)
        },
    };
    let start_row = if rec.start_row < usize::MAX {
        rec.start_row
    } else {
        usize::MAX - 1
    };
    let mut end_row = if rec.end_row < usize::MAX {
        rec.end_row
    } else {
        usize::MAX - 1
    };
    if end_row < start_row {
        end_row = start_row;
    }
    let symbol: Option<String> = match &rec.symbol {
        Some(s) => Some(s.clone()),
        None => None,
    };
    let fingerprint = fingerprint_content(snippet.as_str());
    CodeChunk {
        id: extraction_id(path, start_row, end_row),
        fingerprint,
        file_path: String::from_str(path),
        language: {
            let l = kind.label();
            String::from_str(l)
        },
        symbol,
        start_line: start_row + 1,
        end_line: end_row + 1,
        start_char,
        end_char,
        content: snippet,
    }
}

/// The single whole-file chunk emitted when no candidate node matched.
fn file_chunk(path: &str, kind: LanguageKind, content: &str, bytes: &Vec<u8>, root: &NodeRec) -> (r:
    CodeChunk)
    requires
        bytes@ == content.spec_bytes(),
    ensures
        chunk_wf(r, content.spec_bytes()),
        r.file_path@ == path@,
        r.language@ == kind.label_spec(),
        r.symbol is None,
        r.fingerprint@ == crate::hashing::fingerprint_of(r.content@),
{
    let len = bytes.len();
    let start_row = if root.start_row < usize::MAX {
        root.start_row
    } else {
        usize::MAX - 1
    };
    let mut end_row = if root.end_row < usize::MAX {
        root.end_row
    } else {
        usize::MAX - 1
    };
    if end_row < start_row {
        end_row = start_row;
    }
    let (snippet, start_char, end_char): (String, usize, usize) = match slice_str(
        content,
        0,
        len,
    ) {
        Some(t) => (String::from_str(t), 0, len),
        None => {
            proof {
                assert(content.spec_bytes().subrange(0, 0) =~= Seq::<u8>::empty());
                assert(vstd::utf8::encode_utf8(Seq::<char>::empty()) =~= Seq::<u8>::empty());
            }
            (String::new(), 0, 0)
        },
    };
    let fingerprint = fingerprint_content(snippet.as_str());
    CodeChunk {
        id: extraction_id(path, start_row, end_row),
        fingerprint,
        file_path: String::from_str(path),
        language: {
            let l = kind.label();
            String::from_str(l)
        },
        symbol: None,
        start_line: start_row + 1,
        end_line: end_row + 1,
        start_char,
        end_char,
        content: snippet,
    }
}

/// Parses one file and emits a chunk for every candidate syntax node, in
/// document order, falling back to a single whole-file chunk when nothing
/// matched.  Every emitted chunk comes from a visited node record of the
/// parse (see `collect_node_records` for the walk's step budget), carries
/// the given path, and satisfies the extraction invariant: one-based lines
/// in order, and the content equal to the byte span
/// `start_char..end_char` of the source.
pub fn extract_chunks_for_file(path: &str, content: &str) -> (r: Result<Vec<CodeChunk>, ExtractError>)
    ensures
        (LanguageKind::from_path_spec(crate::strutil::lower_of(path@)) is None) <==> r == Err::<
            Vec<CodeChunk>,
            ExtractError,
        >(ExtractError::UnsupportedExtension),
        (LanguageKind::from_path_spec(crate::strutil::lower_of(path@)) matches Some(kind)
            && !parses(kind, content@)) <==> r == Err::<Vec<CodeChunk>, ExtractError>(
            ExtractError::ParseFailed,
        ),
        r matches Ok(chunks) ==> chunks@.len() >= 1 && forall|i: int|
            0 <= i < chunks@.len() ==> chunk_wf(#[trigger] chunks@[i], content.spec_bytes()),
        r matches Ok(chunks) ==> forall|i: int|
            0 <= i < chunks@.len() ==> (#[trigger] chunks@[i]).language@
                == LanguageKind::from_path_spec(
                crate::strutil::lower_of(path@),
            )->Some_0.label_spec(),
        r matches Ok(chunks) ==> forall|i: int|
            0 <= i < chunks@.len() ==> (#[trigger] chunks@[i]).fingerprint@
                == crate::hashing::fingerprint_of(chunks@[i].content@),
        r matches Ok(chunks) ==> forall|i: int|
            0 <= i < chunks@.len() ==> (#[trigger] chunks@[i]).file_path@ == path@,
{
    let kind = match LanguageKind::from_path(path) {
        Some(k) => k,
        None => {
            return Err(ExtractError::UnsupportedExtension);
        },
    };
    let tree = match parse_source(kind, content) {
        Some(t) => t,
        None => {
            return Err(ExtractError::ParseFailed);
        },
    };
    let records = collect_node_records(&tree, content);
    let bytes = content.as_bytes_vec();
    let mut chunks: Vec<CodeChunk> = Vec::new();
    let mut i: usize = 0;
    while i < records.len()
        invariant
            bytes@ == content.spec_bytes(),
            Some(kind) == LanguageKind::from_path_spec(crate::strutil::lower_of(path@)),
            forall|k: int|
                0 <= k < chunks@.len() ==> chunk_wf(#[trigger] chunks@[k], content.spec_bytes()),
            forall|k: int|
                0 <= k < chunks@.len() ==> (#[trigger] chunks@[k]).language@ == kind.label_spec(),
            forall|k: int|
                0 <= k < chunks@.len() ==> (#[trigger] chunks@[k]).fingerprint@
                    == crate::hashing::fingerprint_of(chunks@[k].content@),
            forall|k: int| 0 <= k < chunks@.len() ==> (#[trigger] chunks@[k]).file_path@ == path@,
        decreases records@.len() - i,
    {
        let rec = &records[i];
        if is_chunk_candidate(kind, rec.kind.as_str()) {
            let c = node_chunk(path, kind, content, &bytes, rec);
            chunks.push(c);
        }
        i = i + 1;
    }
    if chunks.len() == 0 {
        if records.len() > 0 {
            let c = file_chunk(path, kind, content, &bytes, &records[0]);
            chunks.push(c);
        } else {
            let root = NodeRec {
                kind: String::new(),
                start_byte: 0,
                end_byte: bytes.len(),
                start_row: 0,
                end_row: 0,
                symbol: None,
            };
            let c = file_chunk(path, kind, content, &bytes, &root);
            chunks.push(c);
        }
    }
    Ok(chunks)
}

} // verus!
