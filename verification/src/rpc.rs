use vstd::prelude::*;

verus! {

use crate::strutil::{
    chars_of, dec_str_of, extend_chars, str_eq, string_from_chars, trim_chars, trim_spec,
    usize_to_dec_chars,
};

/// A JSON-RPC request id: either a string or an integer.
#[derive(Debug, Clone, PartialEq, Eq)]
pub enum RpcId {
    String(String),
    Number(i64),
}

#[derive(Debug, Clone, PartialEq, Eq)]
pub struct RpcError {
    pub code: i64,
    pub message: String,
}

/// A JSON-RPC response: exactly one of `result` and `error` is set.
#[derive(Debug, Clone, PartialEq)]
pub struct RpcResponse<T> {
    pub jsonrpc: &'static str,
    pub id: RpcId,
    pub result: Option<T>,
    pub error: Option<RpcError>,
}

impl<T> RpcResponse<T> {
    pub fn ok(id: RpcId, result: T) -> (r: Self)
        ensures
            r.jsonrpc@ == "2.0"@,
            r.id == id,
            r.result == Some(result),
            r.error is None,
    {
        Self { jsonrpc: "2.0", id, result: Some(result), error: None }
    }

    pub fn err(id: RpcId, code: i64, message: String) -> (r: Self)
        ensures
            r.jsonrpc@ == "2.0"@,
            r.id == id,
            r.result is None,
            r.error == Some(RpcError { code, message }),
    {
        Self { jsonrpc: "2.0", id, result: None, error: Some(RpcError { code, message }) }
    }
}

/// The error taxonomy of the JSON-RPC surface.
#[derive(Debug, Clone, Copy, PartialEq, Eq, Structural)]
pub enum RpcErrorCode {
    ParseError,
    InvalidParams,
    MethodNotFound,
    IndexUnavailable,
    Timeout,
    Internal,
}

impl RpcErrorCode {
    pub fn as_i64(self) -> (r: i64)
        ensures
            r == self.code_spec(),
    {
        match self {
            Self::ParseError => -32700,
            Self::InvalidParams => -32602,
            Self::MethodNotFound => -32601,
            Self::IndexUnavailable => -32010,
            Self::Timeout => -32011,
            Self::Internal => -32603,
        }
    }

    pub open spec fn code_spec(self) -> i64 {
        match self {
            Self::ParseError => -32700i64,
            Self::InvalidParams => -32602i64,
            Self::MethodNotFound => -32601i64,
            Self::IndexUnavailable => -32010i64,
            Self::Timeout => -32011i64,
            Self::Internal => -32603i64,
        }
    }
}

#[derive(Debug, Clone, PartialEq, Eq)]
pub struct SearchCodeParams {
    pub query: String,
    pub top_k: usize,
    pub repo_filter: Option<String>,
}

#[derive(Debug, Clone, PartialEq, Eq)]
pub struct SearchResultItem {
    pub file: String,
    pub function: String,
    pub start_line: usize,
    pub end_line: usize,
    pub code_block: String,
}

#[derive(Debug, Clone, PartialEq, Eq)]
pub struct SearchCodeResult {
    pub items: Vec<SearchResultItem>,
}

#[derive(Debug, Clone, PartialEq, Eq)]
pub struct OpenLocationParams {
    pub path: String,
    pub line_start: usize,
    pub line_end: usize,
}

#[derive(Debug, Clone, PartialEq, Eq)]
pub struct OpenLocationResult {
    pub path: String,
    pub line_start: usize,
    pub line_end: usize,
}

/// The unit of indexing: a syntactic slice of one source file.
#[derive(Debug, Clone, PartialEq, Eq)]
pub struct CodeChunk {
    pub id: String,
    pub fingerprint: String,
    pub file_path: String,
    pub language: String,
    pub symbol: Option<String>,
    pub start_line: usize,
    pub end_line: usize,
    pub start_char: usize,
    pub end_char: usize,
    pub content: String,
}

/// Checks a requested line range against the line count of the opened file.
/// The range is valid exactly when `1 <= line_start <= line_end <= line_count`.
pub fn validate_line_range(line_start: usize, line_end: usize, line_count: usize) -> (r: bool)
    ensures
        r == (1 <= line_start && line_start <= line_end && line_end <= line_count),
{
    1 <= line_start && line_start <= line_end && line_end <= line_count
}

/// Validates an `openLocation` request against the opened file and echoes
/// the location back.  A line range outside `1..=line_count` is
/// `InvalidParams`; in particular `line_end > line_count` is always rejected.
pub fn open_location_outcome(resolved_path: String, line_start: usize, line_end: usize, line_count: usize) -> (r: Result<
    OpenLocationResult,
    RpcErrorCode,
>)
    ensures
        (1 <= line_start && line_start <= line_end && line_end <= line_count) ==> r == Ok::<
            OpenLocationResult,
            RpcErrorCode,
        >(OpenLocationResult { path: resolved_path, line_start, line_end }),
        !(1 <= line_start && line_start <= line_end && line_end <= line_count) ==> r == Err::<
            OpenLocationResult,
            RpcErrorCode,
        >(RpcErrorCode::InvalidParams),
{
    if validate_line_range(line_start, line_end, line_count) {
        Ok(OpenLocationResult { path: resolved_path, line_start, line_end })
    } else {
        Err(RpcErrorCode::InvalidParams)
    }
}

/// The two sentinel queries that exist for testability.
pub open spec fn is_index_unavailable_sentinel(q: Seq<char>) -> bool {
    q == "__index_unavailable__"@
}

pub open spec fn is_timeout_sentinel(q: Seq<char>) -> bool {
    q == "__timeout__"@
}

/// Classifies a search request before any retrieval work, exactly as the
/// request front does: an (all-whitespace) empty query and a missing scope
/// are `InvalidParams`; the two sentinel queries map to their codes.
pub fn classify_search_request(query: &str, has_scope: bool) -> (r: Option<RpcErrorCode>)
    ensures
        trim_spec(query@).len() == 0 ==> r == Some(RpcErrorCode::InvalidParams),
        trim_spec(query@).len() != 0 && is_index_unavailable_sentinel(query@) ==> r == Some(
            RpcErrorCode::IndexUnavailable,
        ),
        trim_spec(query@).len() != 0 && is_timeout_sentinel(query@) ==> r == Some(
            RpcErrorCode::Timeout,
        ),
        trim_spec(query@).len() != 0 && !is_index_unavailable_sentinel(query@)
            && !is_timeout_sentinel(query@) && !has_scope ==> r == Some(
            RpcErrorCode::InvalidParams,
        ),
        trim_spec(query@).len() != 0 && !is_index_unavailable_sentinel(query@)
            && !is_timeout_sentinel(query@) && has_scope ==> r is None,
{
    proof {
        reveal_strlit("__index_unavailable__");
        reveal_strlit("__timeout__");
    }
    let cs = chars_of(query);
    let trimmed = trim_chars(&cs);
    if trimmed.len() == 0 {
        return Some(RpcErrorCode::InvalidParams);
    }
    if str_eq(query, "__index_unavailable__") {
        return Some(RpcErrorCode::IndexUnavailable);
    }
    if str_eq(query, "__timeout__") {
        return Some(RpcErrorCode::Timeout);
    }
    if !has_scope {
        return Some(RpcErrorCode::InvalidParams);
    }
    None
}

/// Whether a request may proceed: with no token configured everything is
/// admitted; a configured token must be presented exactly.
pub fn is_authorized(expected: &Option<String>, provided: &Option<String>) -> (r: bool)
    ensures
        r == (match *expected {
            Option::None => true,
            Option::Some(t) => match *provided {
                Option::Some(p) => p@ == t@,
                Option::None => false,
            },
        }),
{
    match expected {
        Option::None => true,
        Option::Some(t) => match provided {
            Option::Some(p) => str_eq(p.as_str(), t.as_str()),
            Option::None => false,
        },
    }
}

/// The query-cache key: scope, query and top_k joined by U+241F, which
/// cannot be confused with either field.
pub open spec fn cache_key_spec(scope: Seq<char>, query: Seq<char>, top_k: nat) -> Seq<char> {
    scope + seq!['\u{241f}'] + query + seq!['\u{241f}'] + dec_str_of(top_k)
}

pub fn cache_key(project_scope: &str, query: &str, top_k: usize) -> (r: String)
    ensures
        r@ == cache_key_spec(project_scope@, query@, top_k as nat),
{
    let mut out = chars_of(project_scope);
    out.push('\u{241f}');
    let q = chars_of(query);
    extend_chars(&mut out, &q);
    out.push('\u{241f}');
    let digits = usize_to_dec_chars(top_k);
    extend_chars(&mut out, &digits);
    proof {
        assert(out@ =~= cache_key_spec(project_scope@, query@, top_k as nat));
    }
    string_from_chars(&out)
}

#[derive(Debug, Clone, PartialEq, Eq)]
pub struct InitializeParams {
    pub protocol_version: Option<String>,
}

#[derive(Debug, Clone, PartialEq, Eq)]
pub struct ServerInfo {
    pub name: String,
    pub version: String,
}

#[derive(Debug, Clone, PartialEq, Eq)]
pub struct ToolsCapability {
    pub list_changed: bool,
}

#[derive(Debug, Clone, PartialEq, Eq)]
pub struct ServerCapabilities {
    pub tools: ToolsCapability,
}

#[derive(Debug, Clone, PartialEq, Eq)]
pub struct InitializeResult {
    pub protocol_version: String,
    pub server_info: ServerInfo,
    pub capabilities: ServerCapabilities,
}

/// Hints attached to a tool descriptor.
#[derive(Debug, Clone, PartialEq, Eq)]
pub struct ToolAnnotations {
    pub read_only_hint: Option<bool>,
    pub destructive_hint: Option<bool>,
    pub idempotent_hint: Option<bool>,
    pub open_world_hint: Option<bool>,
}

/// One block of tool-call output.
#[derive(Debug, Clone, PartialEq, Eq)]
pub struct ToolContent {
    pub kind: String,
    pub text: String,
}

pub open spec fn default_protocol_version() -> Seq<char> {
    "2025-06-18"@
}

/// Builds the `initialize` response.  A missing or all-whitespace protocol
/// version falls back to the default; anything else is echoed unchanged.
pub fn initialize_result(params: Option<InitializeParams>) -> (r: InitializeResult)
    ensures
        r.protocol_version@ == (match params {
            Some(InitializeParams { protocol_version: Some(v) }) => if trim_spec(v@).len() == 0 {
                default_protocol_version()
            } else {
                v@
            },
            _ => default_protocol_version(),
        }),
        r.server_info.name@ == "codivex-mcp"@,
        r.capabilities.tools.list_changed == false,
{
    let requested: Option<String> = match params {
        Some(p) => p.protocol_version,
        None => None,
    };
    let protocol_version: String = match requested {
        Some(v) => {
            let cs = chars_of(v.as_str());
            let trimmed = trim_chars(&cs);
            if trimmed.len() == 0 {
                proof {
                    reveal_strlit("2025-06-18");
                }
                String::from_str("2025-06-18")
            } else {
                v
            }
        },
        None => String::from_str("2025-06-18"),
    };
    InitializeResult {
        protocol_version,
        server_info: ServerInfo {
            name: String::from_str("codivex-mcp"),
            version: String::from_str("0.1.0"),
        },
        capabilities: ServerCapabilities { tools: ToolsCapability { list_changed: false } },
    }
}

} // verus!
