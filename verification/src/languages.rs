use vstd::prelude::*;

verus! {

use crate::strutil::{
    chars_ends_with, chars_of, ends_with_seq, lower_char, lower_of, lc, str_eq, string_from_chars,
};

/// The closed set of languages the extractor understands.
#[derive(Debug, Clone, Copy, PartialEq, Eq, Structural)]
pub enum LanguageKind {
    Rust,
    C,
    Cpp,
    JavaScript,
    TypeScript,
    Python,
    Go,
    Haskell,
    Java,
    CSharp,
    Php,
    Ruby,
    Kotlin,
    Swift,
}

impl LanguageKind {
    /// The registry's language order; `from_path` tries extensions in
    /// exactly this order.
    pub open spec fn all_spec() -> Seq<LanguageKind> {
        seq![
            LanguageKind::Rust,
            LanguageKind::C,
            LanguageKind::Cpp,
            LanguageKind::JavaScript,
            LanguageKind::TypeScript,
            LanguageKind::Python,
            LanguageKind::Go,
            LanguageKind::Haskell,
            LanguageKind::Java,
            LanguageKind::CSharp,
            LanguageKind::Php,
            LanguageKind::Ruby,
            LanguageKind::Kotlin,
            LanguageKind::Swift,
        ]
    }

    pub fn all() -> (r: Vec<LanguageKind>)
        ensures
            r@ == LanguageKind::all_spec(),
    {
        let mut r: Vec<LanguageKind> = Vec::new();
        r.push(LanguageKind::Rust);
        r.push(LanguageKind::C);
        r.push(LanguageKind::Cpp);
        r.push(LanguageKind::JavaScript);
        r.push(LanguageKind::TypeScript);
        r.push(LanguageKind::Python);
        r.push(LanguageKind::Go);
        r.push(LanguageKind::Haskell);
        r.push(LanguageKind::Java);
        r.push(LanguageKind::CSharp);
        r.push(LanguageKind::Php);
        r.push(LanguageKind::Ruby);
        r.push(LanguageKind::Kotlin);
        r.push(LanguageKind::Swift);
        proof {
            assert(r@ =~= LanguageKind::all_spec());
        }
        r
    }

    /// The file extensions of one language, dot included, in match order.
    pub open spec fn extensions_spec(self) -> Seq<Seq<char>> {
        match self {
            LanguageKind::Rust => seq![".rs"@],
            LanguageKind::C => seq![".c"@, ".h"@],
            LanguageKind::Cpp => seq![
                ".cc"@,
                ".cpp"@,
                ".cxx"@,
                ".hpp"@,
                ".hh"@,
                ".hxx"@,
                ".ipp"@,
                ".tpp"@,
                ".inl"@,
            ],
            LanguageKind::JavaScript => seq![".js"@, ".jsx"@, ".mjs"@, ".cjs"@],
            LanguageKind::TypeScript => seq![".ts"@, ".tsx"@],
            LanguageKind::Python => seq![".py"@, ".pyi"@],
            LanguageKind::Go => seq![".go"@],
            LanguageKind::Haskell => seq![".hs"@, ".lhs"@],
            LanguageKind::Java => seq![".java"@],
            LanguageKind::CSharp => seq![".cs"@],
            LanguageKind::Php => seq![".php"@, ".phtml"@],
            LanguageKind::Ruby => seq![".rb"@],
            LanguageKind::Kotlin => seq![".kt"@, ".kts"@],
            LanguageKind::Swift => seq![".swift"@],
        }
    }

    pub fn extensions(self) -> (r: Vec<&'static str>)
        ensures
            r.deep_view() == self.extensions_spec(),
    {
        let mut r: Vec<&'static str> = Vec::new();
        match self {
            LanguageKind::Rust => {
                r.push(".rs");
            },
            LanguageKind::C => {
                r.push(".c");
                r.push(".h");
            },
            LanguageKind::Cpp => {
                r.push(".cc");
                r.push(".cpp");
                r.push(".cxx");
                r.push(".hpp");
                r.push(".hh");
                r.push(".hxx");
                r.push(".ipp");
                r.push(".tpp");
                r.push(".inl");
            },
            LanguageKind::JavaScript => {
                r.push(".js");
                r.push(".jsx");
                r.push(".mjs");
                r.push(".cjs");
            },
            LanguageKind::TypeScript => {
                r.push(".ts");
                r.push(".tsx");
            },
            LanguageKind::Python => {
                r.push(".py");
                r.push(".pyi");
            },
            LanguageKind::Go => {
                r.push(".go");
            },
            LanguageKind::Haskell => {
                r.push(".hs");
                r.push(".lhs");
            },
            LanguageKind::Java => {
                r.push(".java");
            },
            LanguageKind::CSharp => {
                r.push(".cs");
            },
            LanguageKind::Php => {
                r.push(".php");
                r.push(".phtml");
            },
            LanguageKind::Ruby => {
                r.push(".rb");
            },
            LanguageKind::Kotlin => {
                r.push(".kt");
                r.push(".kts");
            },
            LanguageKind::Swift => {
                r.push(".swift");
            },
        }
        proof {
            assert(r.deep_view() =~= self.extensions_spec());
        }
        r
    }

    /// The registry tag stored on every chunk of this language.
    pub open spec fn label_spec(self) -> Seq<char> {
        match self {
            LanguageKind::Rust => "rust"@,
            LanguageKind::C => "c"@,
            LanguageKind::Cpp => "cpp"@,
            LanguageKind::JavaScript => "javascript"@,
            LanguageKind::TypeScript => "typescript"@,
            LanguageKind::Python => "python"@,
            LanguageKind::Go => "go"@,
            LanguageKind::Haskell => "haskell"@,
            LanguageKind::Java => "java"@,
            LanguageKind::CSharp => "csharp"@,
            LanguageKind::Php => "php"@,
            LanguageKind::Ruby => "ruby"@,
            LanguageKind::Kotlin => "kotlin"@,
            LanguageKind::Swift => "swift"@,
        }
    }

    pub fn label(self) -> (r: &'static str)
        ensures
            r@ == self.label_spec(),
    {
        match self {
            LanguageKind::Rust => "rust",
            LanguageKind::C => "c",
            LanguageKind::Cpp => "cpp",
            LanguageKind::JavaScript => "javascript",
            LanguageKind::TypeScript => "typescript",
            LanguageKind::Python => "python",
            LanguageKind::Go => "go",
            LanguageKind::Haskell => "haskell",
            LanguageKind::Java => "java",
            LanguageKind::CSharp => "csharp",
            LanguageKind::Php => "php",
            LanguageKind::Ruby => "ruby",
            LanguageKind::Kotlin => "kotlin",
            LanguageKind::Swift => "swift",
        }
    }

    /// Whether the ASCII-lowercased path ends with one of the language's
    /// extensions.
    pub open spec fn matches_path(self, lower_path: Seq<char>) -> bool {
        exists|i: int|
            0 <= i < self.extensions_spec().len() && ends_with_seq(
                lower_path,
                #[trigger] self.extensions_spec()[i],
            )
    }

    /// The language picked for a path: the first of `all_spec()` with a
    /// matching extension, extension matching done on the lowercased path.
    pub open spec fn from_path_spec(lower_path: Seq<char>) -> Option<LanguageKind>
        decreases LanguageKind::all_spec().len(),
    {
        LanguageKind::from_path_at(lower_path, 0)
    }

    pub open spec fn from_path_at(lower_path: Seq<char>, i: int) -> Option<LanguageKind>
        decreases LanguageKind::all_spec().len() - i,
    {
        if i < 0 || i >= LanguageKind::all_spec().len() {
            None
        } else if LanguageKind::all_spec()[i].matches_path(lower_path) {
            Some(LanguageKind::all_spec()[i])
        } else {
            LanguageKind::from_path_at(lower_path, i + 1)
        }
    }

    pub fn from_path(path: &str) -> (r: Option<LanguageKind>)
        ensures
            r == LanguageKind::from_path_spec(lower_of(path@)),
    {
        let cs = chars_of(path);
        let mut lower: Vec<char> = Vec::new();
        let mut i: usize = 0;
        while i < cs.len()
            invariant
                i <= cs@.len(),
                cs@ == path@,
                lower@ == lower_of(cs@.take(i as int)),
            decreases cs@.len() - i,
        {
            lower.push(lower_char(cs[i]));
            proof {
                assert(lower@ =~= lower_of(cs@.take(i + 1 as int)));
            }
            i = i + 1;
        }
        proof {
            assert(cs@.take(cs@.len() as int) =~= cs@);
        }
        let kinds = LanguageKind::all();
        let mut k: usize = 0;
        while k < kinds.len()
            invariant
                kinds@ == LanguageKind::all_spec(),
                k <= kinds@.len(),
                lower@ == lower_of(path@),
                LanguageKind::from_path_at(lower@, 0) == LanguageKind::from_path_at(
                    lower@,
                    k as int,
                ),
            decreases kinds@.len() - k,
        {
            let kind = kinds[k];
            let exts = kind.extensions();
            let mut e: usize = 0;
            let mut matched = false;
            while e < exts.len()
                invariant
                    exts.deep_view() == kind.extensions_spec(),
                    e <= exts@.len(),
                    exts@.len() == kind.extensions_spec().len(),
                    !matched ==> forall|j: int|
                        0 <= j < e ==> !ends_with_seq(lower@, kind.extensions_spec()[j]),
                    matched ==> kind.matches_path(lower@),
                decreases exts@.len() - e,
            {
                let ext = chars_of(exts[e]);
                proof {
                    assert(exts@[e as int]@ == exts.deep_view()[e as int]);
                }
                if chars_ends_with(&lower, &ext) {
                    matched = true;
                    e = exts.len();
                } else {
                    e = e + 1;
                }
            }
            if matched {
                return Some(kind);
            }
            proof {
                assert(!kind.matches_path(lower@));
            }
            k = k + 1;
        }
        proof {
            assert(LanguageKind::from_path_at(lower@, kinds@.len() as int) is None);
        }
        None
    }
}

/// The tree-sitter parser registry; parsers themselves are built by the
/// extraction pipeline, so the registry carries no state.
#[derive(Debug, Clone, Copy, PartialEq, Eq, Structural, Default)]
pub struct ParserRegistry;

impl ParserRegistry {
    pub fn new() -> (r: Self)
        ensures
            r == ParserRegistry,
    {
        ParserRegistry
    }
}

/// The candidate node kinds of one language: a chunk is emitted for every
/// syntax node whose kind is in this set.
pub open spec fn is_candidate_spec(kind: LanguageKind, nk: Seq<char>) -> bool {
    match kind {
        LanguageKind::Rust => nk == "function_item"@ || nk == "impl_item"@ || nk == "struct_item"@,
        LanguageKind::C | LanguageKind::Cpp => nk == "function_definition"@ || nk == "declaration"@
            || nk == "struct_specifier"@ || nk == "class_specifier"@,
        LanguageKind::JavaScript | LanguageKind::TypeScript => nk == "function_declaration"@ || nk
            == "method_definition"@ || nk == "class_declaration"@,
        LanguageKind::Python => nk == "function_definition"@ || nk == "class_definition"@,
        LanguageKind::Go => nk == "function_declaration"@ || nk == "method_declaration"@,
        LanguageKind::Haskell => nk == "function"@ || nk == "signature"@ || nk == "data_type"@ || nk
            == "newtype"@ || nk == "type_family"@ || nk == "class"@ || nk == "instance"@,
        LanguageKind::Java => nk == "method_declaration"@ || nk == "class_declaration"@ || nk
            == "interface_declaration"@,
        LanguageKind::CSharp => nk == "method_declaration"@ || nk == "constructor_declaration"@
            || nk == "class_declaration"@ || nk == "interface_declaration"@,
        LanguageKind::Php => nk == "function_definition"@ || nk == "method_declaration"@ || nk
            == "class_declaration"@,
        LanguageKind::Ruby => nk == "method"@ || nk == "singleton_method"@ || nk == "class"@,
        LanguageKind::Kotlin => nk == "function_declaration"@ || nk == "class_declaration"@ || nk
            == "object_declaration"@,
        LanguageKind::Swift => nk == "function_declaration"@ || nk == "class_declaration"@ || nk
            == "struct_declaration"@,
    }
}

pub fn is_chunk_candidate(kind: LanguageKind, node_kind: &str) -> (r: bool)
    ensures
        r == is_candidate_spec(kind, node_kind@),
{
    match kind {
        LanguageKind::Rust => str_eq(node_kind, "function_item") || str_eq(node_kind, "impl_item")
            || str_eq(node_kind, "struct_item"),
        LanguageKind::C | LanguageKind::Cpp => str_eq(node_kind, "function_definition") || str_eq(
            node_kind,
            "declaration",
        ) || str_eq(node_kind, "struct_specifier") || str_eq(node_kind, "class_specifier"),
        LanguageKind::JavaScript | LanguageKind::TypeScript => str_eq(
            node_kind,
            "function_declaration",
        ) || str_eq(node_kind, "method_definition") || str_eq(node_kind, "class_declaration"),
        LanguageKind::Python => str_eq(node_kind, "function_definition") || str_eq(
            node_kind,
            "class_definition",
        ),
        LanguageKind::Go => str_eq(node_kind, "function_declaration") || str_eq(
            node_kind,
            "method_declaration",
        ),
        LanguageKind::Haskell => str_eq(node_kind, "function") || str_eq(node_kind, "signature")
            || str_eq(node_kind, "data_type") || str_eq(node_kind, "newtype") || str_eq(
            node_kind,
            "type_family",
        ) || str_eq(node_kind, "class") || str_eq(node_kind, "instance"),
        LanguageKind::Java => str_eq(node_kind, "method_declaration") || str_eq(
            node_kind,
            "class_declaration",
        ) || str_eq(node_kind, "interface_declaration"),
        LanguageKind::CSharp => str_eq(node_kind, "method_declaration") || str_eq(
            node_kind,
            "constructor_declaration",
        ) || str_eq(node_kind, "class_declaration") || str_eq(node_kind, "interface_declaration"),
        LanguageKind::Php => str_eq(node_kind, "function_definition") || str_eq(
            node_kind,
            "method_declaration",
        ) || str_eq(node_kind, "class_declaration"),
        LanguageKind::Ruby => str_eq(node_kind, "method") || str_eq(node_kind, "singleton_method")
            || str_eq(node_kind, "class"),
        LanguageKind::Kotlin => str_eq(node_kind, "function_declaration") || str_eq(
            node_kind,
            "class_declaration",
        ) || str_eq(node_kind, "object_declaration"),
        LanguageKind::Swift => str_eq(node_kind, "function_declaration") || str_eq(
            node_kind,
            "class_declaration",
        ) || str_eq(node_kind, "struct_declaration"),
    }
}

/// The chunk-reload language tag of a path: matched case-sensitively on the
/// raw path, with `"text"` as the fallback.  This mapping intentionally
/// mirrors the snapshot-reload behaviour, which differs from `from_path`
/// (no lowercasing, and no `.mjs`/`.cjs`).
pub open spec fn language_tag_spec(p: Seq<char>) -> Seq<char> {
    if ends_with_seq(p, ".rs"@) {
        "rust"@
    } else if ends_with_seq(p, ".c"@) || ends_with_seq(p, ".h"@) {
        "c"@
    } else if ends_with_seq(p, ".cc"@) || ends_with_seq(p, ".cpp"@) || ends_with_seq(p, ".cxx"@)
        || ends_with_seq(p, ".hpp"@) || ends_with_seq(p, ".hh"@) || ends_with_seq(p, ".hxx"@)
        || ends_with_seq(p, ".ipp"@) || ends_with_seq(p, ".tpp"@) || ends_with_seq(p, ".inl"@) {
        "cpp"@
    } else if ends_with_seq(p, ".ts"@) || ends_with_seq(p, ".tsx"@) {
        "typescript"@
    } else if ends_with_seq(p, ".js"@) || ends_with_seq(p, ".jsx"@) {
        "javascript"@
    } else if ends_with_seq(p, ".py"@) || ends_with_seq(p, ".pyi"@) {
        "python"@
    } else if ends_with_seq(p, ".go"@) {
        "go"@
    } else if ends_with_seq(p, ".hs"@) || ends_with_seq(p, ".lhs"@) {
        "haskell"@
    } else if ends_with_seq(p, ".java"@) {
        "java"@
    } else if ends_with_seq(p, ".cs"@) {
        "csharp"@
    } else if ends_with_seq(p, ".php"@) || ends_with_seq(p, ".phtml"@) {
        "php"@
    } else if ends_with_seq(p, ".rb"@) {
        "ruby"@
    } else if ends_with_seq(p, ".kt"@) || ends_with_seq(p, ".kts"@) {
        "kotlin"@
    } else if ends_with_seq(p, ".swift"@) {
        "swift"@
    } else {
        "text"@
    }
}

fn path_ends_with(cs: &Vec<char>, suffix: &'static str) -> (r: bool)
    ensures
        r == ends_with_seq(cs@, suffix@),
{
    let sv = chars_of(suffix);
    chars_ends_with(cs, &sv)
}

pub fn language_from_path(path: &str) -> (r: String)
    ensures
        r@ == language_tag_spec(path@),
{
    let cs = chars_of(path);
    let tag: &'static str = if path_ends_with(&cs, ".rs") {
        "rust"
    } else if path_ends_with(&cs, ".c") || path_ends_with(&cs, ".h") {
        "c"
    } else if path_ends_with(&cs, ".cc") || path_ends_with(&cs, ".cpp") || path_ends_with(
        &cs,
        ".cxx",
    ) || path_ends_with(&cs, ".hpp") || path_ends_with(&cs, ".hh") || path_ends_with(&cs, ".hxx")
        || path_ends_with(&cs, ".ipp") || path_ends_with(&cs, ".tpp") || path_ends_with(
        &cs,
        ".inl",
    ) {
        "cpp"
    } else if path_ends_with(&cs, ".ts") || path_ends_with(&cs, ".tsx") {
        "typescript"
    } else if path_ends_with(&cs, ".js") || path_ends_with(&cs, ".jsx") {
        "javascript"
    } else if path_ends_with(&cs, ".py") || path_ends_with(&cs, ".pyi") {
        "python"
    } else if path_ends_with(&cs, ".go") {
        "go"
    } else if path_ends_with(&cs, ".hs") || path_ends_with(&cs, ".lhs") {
        "haskell"
    } else if path_ends_with(&cs, ".java") {
        "java"
    } else if path_ends_with(&cs, ".cs") {
        "csharp"
    } else if path_ends_with(&cs, ".php") || path_ends_with(&cs, ".phtml") {
        "php"
    } else if path_ends_with(&cs, ".rb") {
        "ruby"
    } else if path_ends_with(&cs, ".kt") || path_ends_with(&cs, ".kts") {
        "kotlin"
    } else if path_ends_with(&cs, ".swift") {
        "swift"
    } else {
        "text"
    };
    let out = chars_of(tag);
    string_from_chars(&out)
}

} // verus!
