use vstd::prelude::*;

verus! {

use crate::strutil::{chars_of, lower_of, lower_char, string_from_chars, str_eq};

/// Application configuration; the surrounding program fills it from the
/// configuration file and the environment.
#[derive(Debug, Clone, PartialEq, Eq)]
pub struct AppConfig {
    pub repo_paths: Vec<String>,
    pub ignore_paths: Vec<String>,
    pub model_path: String,
    pub default_top_k: usize,
    pub enable_metrics: bool,
    pub api_token: Option<String>,
}

impl Default for AppConfig {
    fn default() -> (r: Self)
        ensures
            r.repo_paths@.len() == 1 && r.repo_paths@[0]@ == "/repo"@,
            r.ignore_paths@.len() == 3,
            r.model_path@ == "models/all-minilm-l6-v2.onnx"@,
            r.default_top_k == 20,
            r.enable_metrics == true,
            r.api_token is None,
    {
        let mut repo_paths: Vec<String> = Vec::new();
        repo_paths.push(String::from_str("/repo"));
        let mut ignore_paths: Vec<String> = Vec::new();
        ignore_paths.push(String::from_str(".git"));
        ignore_paths.push(String::from_str("node_modules"));
        ignore_paths.push(String::from_str("target"));
        AppConfig {
            repo_paths,
            ignore_paths,
            model_path: String::from_str("models/all-minilm-l6-v2.onnx"),
            default_top_k: 20,
            enable_metrics: true,
            api_token: None,
        }
    }
}

/// How vectors are quantized in the external vector index.
#[derive(Debug, Clone, Copy, PartialEq, Eq, Structural)]
pub enum QuantizationMode {
    Disabled,
    Int8,
    UInt8,
}

/// Where embedding inference runs.
#[derive(Debug, Clone, Copy, PartialEq, Eq, Structural)]
pub enum ExecutionDevice {
    Cpu,
    GpuPreferred,
}

/// A GPU is used only when it is both preferred and available; everything
/// else falls back to the CPU.
pub fn resolve_device(preferred: ExecutionDevice, gpu_available: bool) -> (r: ExecutionDevice)
    ensures
        r == (if preferred == ExecutionDevice::GpuPreferred && gpu_available {
            ExecutionDevice::GpuPreferred
        } else {
            ExecutionDevice::Cpu
        }),
{
    match preferred {
        ExecutionDevice::Cpu => ExecutionDevice::Cpu,
        ExecutionDevice::GpuPreferred => {
            if gpu_available {
                ExecutionDevice::GpuPreferred
            } else {
                ExecutionDevice::Cpu
            }
        },
    }
}

/// Embedder configuration; paths and overrides come from the surrounding
/// program, these are the baked-in defaults.
#[derive(Debug, Clone, PartialEq, Eq)]
pub struct EmbeddingConfig {
    pub model_path: String,
    pub tokenizer_path: Option<String>,
    pub vector_dim: usize,
    pub max_sequence_length: usize,
    pub batch_size: usize,
    pub quantization: QuantizationMode,
    pub execution_device: ExecutionDevice,
    pub allow_pseudo_fallback: bool,
}

impl Default for EmbeddingConfig {
    fn default() -> (r: Self)
        ensures
            r.model_path@ == "models/all-minilm-l6-v2.onnx"@,
            r.tokenizer_path is None,
            r.vector_dim == 384,
            r.max_sequence_length == 256,
            r.batch_size == 128,
            r.quantization == QuantizationMode::Disabled,
            r.execution_device == ExecutionDevice::Cpu,
            r.allow_pseudo_fallback == false,
    {
        EmbeddingConfig {
            model_path: String::from_str("models/all-minilm-l6-v2.onnx"),
            tokenizer_path: None,
            vector_dim: 384,
            max_sequence_length: 256,
            batch_size: 128,
            quantization: QuantizationMode::Disabled,
            execution_device: ExecutionDevice::Cpu,
            allow_pseudo_fallback: false,
        }
    }
}

/// The distance measure of the vector index.
#[derive(Debug, Clone, Copy, PartialEq, Eq, Structural)]
pub enum DistanceKind {
    Cosine,
}

/// Vector-index configuration.
#[derive(Debug, Clone, PartialEq, Eq)]
pub struct VectorSearchConfig {
    pub collection: String,
    pub distance: DistanceKind,
    pub hnsw_m: u64,
    pub hnsw_ef_construct: u64,
    pub vector_dim: usize,
    pub quantization: QuantizationMode,
}

impl Default for VectorSearchConfig {
    fn default() -> (r: Self)
        ensures
            r.collection@ == "code_chunks"@,
            r.distance == DistanceKind::Cosine,
            r.hnsw_m == 16,
            r.hnsw_ef_construct == 100,
            r.vector_dim == 384,
            r.quantization == QuantizationMode::Int8,
    {
        VectorSearchConfig {
            collection: String::from_str("code_chunks"),
            distance: DistanceKind::Cosine,
            hnsw_m: 16,
            hnsw_ef_construct: 100,
            vector_dim: 384,
            quantization: QuantizationMode::Int8,
        }
    }
}

/// The embedder's quantization choice carried over to the vector index.
pub fn to_vector_quantization_mode(mode: QuantizationMode) -> (r: QuantizationMode)
    ensures
        r == mode,
{
    match mode {
        QuantizationMode::Disabled => QuantizationMode::Disabled,
        QuantizationMode::Int8 => QuantizationMode::Int8,
        QuantizationMode::UInt8 => QuantizationMode::UInt8,
    }
}

/// Retrieval knobs shared by the lexical and fused stages.
#[derive(Debug, Clone, PartialEq, Eq)]
pub struct RetrievalDefaults {
    pub lexical_top_k: usize,
    pub fused_top_n: usize,
}

impl Default for RetrievalDefaults {
    fn default() -> (r: Self)
        ensures
            r.lexical_top_k == 20,
            r.fused_top_n == 5,
    {
        RetrievalDefaults { lexical_top_k: 20, fused_top_n: 5 }
    }
}

/// Lexical-index configuration.
#[derive(Debug, Clone, PartialEq, Eq)]
pub struct LexicalSearchConfig {
    pub default_top_k: usize,
}

impl Default for LexicalSearchConfig {
    fn default() -> (r: Self)
        ensures
            r.default_top_k == 20,
    {
        LexicalSearchConfig { default_top_k: 20 }
    }
}

/// Which retrieval stages run for a query.
#[derive(Debug, Clone, Copy, PartialEq, Eq, Structural)]
pub enum RetrievalTier {
    Fast,
    Hybrid,
    HybridRerank,
}

impl RetrievalTier {
    /// The tier named by a configuration label, matched after ASCII
    /// lowercasing; anything unrecognized is the hybrid default.
    pub open spec fn from_label_spec(label: Seq<char>) -> RetrievalTier {
        let lower = lower_of(label);
        if lower == "fast"@ {
            RetrievalTier::Fast
        } else if lower == "hybrid_rerank"@ || lower == "hybrid-rerank"@ || lower == "rerank"@ {
            RetrievalTier::HybridRerank
        } else {
            RetrievalTier::Hybrid
        }
    }

    pub fn from_label(label: &str) -> (r: RetrievalTier)
        ensures
            r == RetrievalTier::from_label_spec(label@),
    {
        let cs = chars_of(label);
        let mut lower: Vec<char> = Vec::new();
        let mut i: usize = 0;
        while i < cs.len()
            invariant
                i <= cs@.len(),
                cs@ == label@,
                lower@ == lower_of(cs@.take(i as int)),
            decreases cs@.len() - i,
        {
            lower.push(lower_char(cs[i]));
            proof {
                assert(lower@ =~= lower_of(cs@.take(i + 1 as int)));
            }
            i = i + 1;
        }
        proof {
            assert(cs@.take(cs@.len() as int) =~= cs@);
        }
        let lowered = string_from_chars(&lower);
        if str_eq(lowered.as_str(), "fast") {
            RetrievalTier::Fast
        } else if str_eq(lowered.as_str(), "hybrid_rerank") || str_eq(lowered.as_str(), "hybrid-rerank")
            || str_eq(lowered.as_str(), "rerank") {
            RetrievalTier::HybridRerank
        } else {
            RetrievalTier::Hybrid
        }
    }
}

/// The runtime ports the two servers and the metrics endpoint listen on.
#[derive(Debug, Clone, PartialEq, Eq)]
pub struct RuntimePorts {
    pub mcp_port: u16,
    pub ui_port: u16,
    pub metrics_port: Option<u16>,
}

fn contains_u16(v: &Vec<u16>, x: u16) -> (r: bool)
    ensures
        r == v@.contains(x),
{
    let mut i: usize = 0;
    while i < v.len()
        invariant
            i <= v@.len(),
            forall|k: int| 0 <= k < i ==> v@[k] != x,
        decreases v@.len() - i,
    {
        if v[i] == x {
            return true;
        }
        i = i + 1;
    }
    proof {
        if v@.contains(x) {
            let k = choose|k: int| 0 <= k < v@.len() && v@[k] == x;
            assert(v@[k] != x);
        }
    }
    false
}

/// A saved port assignment can be reused only when none of its ports is
/// among the busy ones.
pub fn ports_available(ports: &RuntimePorts, busy: &Vec<u16>) -> (r: bool)
    ensures
        r == (!busy@.contains(ports.mcp_port) && !busy@.contains(ports.ui_port) && (match ports
            .metrics_port {
            Some(m) => !busy@.contains(m),
            None => true,
        })),
{
    if contains_u16(busy, ports.mcp_port) {
        return false;
    }
    if contains_u16(busy, ports.ui_port) {
        return false;
    }
    match ports.metrics_port {
        Some(m) => !contains_u16(busy, m),
        None => true,
    }
}

/// The first port of `start..=end` that is neither reserved nor busy.
pub open spec fn first_free_spec(start: int, end: int, reserved: Seq<u16>, busy: Seq<u16>) -> Option<
    u16,
>
    decreases end - start + 1,
{
    if start > end || start < 0 || start > u16::MAX as int {
        None
    } else if !reserved.contains(start as u16) && !busy.contains(start as u16) {
        Some(start as u16)
    } else {
        first_free_spec(start + 1, end, reserved, busy)
    }
}

/// Picks the preferred port when it is neither reserved nor busy, else the
/// first free port of the fallback range.
pub fn find_free_port(
    preferred: u16,
    start: u16,
    end: u16,
    reserved: &Vec<u16>,
    busy: &Vec<u16>,
) -> (r: Option<u16>)
    ensures
        !reserved@.contains(preferred) && !busy@.contains(preferred) ==> r == Some(preferred),
        (reserved@.contains(preferred) || busy@.contains(preferred)) ==> r == first_free_spec(
            start as int,
            end as int,
            reserved@,
            busy@,
        ),
{
    if !contains_u16(reserved, preferred) && !contains_u16(busy, preferred) {
        return Some(preferred);
    }
    if start > end {
        return None;
    }
    let mut port: u16 = start;
    loop
        invariant
            reserved@.contains(preferred) || busy@.contains(preferred),
            start <= port <= end,
            first_free_spec(start as int, end as int, reserved@, busy@) == first_free_spec(
                port as int,
                end as int,
                reserved@,
                busy@,
            ),
        decreases end - port,
    {
        if !contains_u16(reserved, port) && !contains_u16(busy, port) {
            return Some(port);
        }
        if port == end {
            proof {
                assert(first_free_spec(port as int + 1, end as int, reserved@, busy@) is None);
            }
            return None;
        }
        port = port + 1;
    }
}

} // verus!
