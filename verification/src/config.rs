//! Engine configuration: scan roots, hashing mode, embedding batches,
//! vector store selection, classification thresholds, safety gates and
//! parser capabilities.  Confidence thresholds are carried in per-mille
//! (0 ..= 1000).

use vstd::prelude::*;

verus! {

/// Roots to walk, glob patterns to skip, and the hashing mode name.
pub struct ScanPaths {
    pub roots: Vec<String>,
    pub exclude: Vec<String>,
    pub hash_mode: Option<String>,
}

/// Which embedding provider to call and how many chunks per batch.
pub struct EmbeddingConfig {
    pub provider: String,
    pub model: String,
    pub batch_size: usize,
}

/// Which vector store to talk to.
pub struct VectorConfig {
    pub provider: String,
    pub url: Option<String>,
    pub collection: String,
}

/// Acceptance thresholds in per-mille of confidence.
pub struct Thresholds {
    pub accept: u32,
    pub review: u32,
}

pub struct ClassificationConfig {
    pub thresholds: Thresholds,
}

/// Safety gates for the apply engine.
pub struct SafetyConfig {
    pub dry_run: bool,
    pub allow_delete: bool,
    pub allow_paths: Vec<String>,
    pub deny_paths: Vec<String>,
    pub trash_dir: Option<String>,
    pub copy_then_delete: bool,
    pub immediate_vector_delete: bool,
}

pub struct DatabaseConfig {
    pub path: String,
}

pub struct RuleConfig {
    pub path: Option<String>,
}

/// Which parsers the extractor may dispatch to, with byte caps.
pub struct ParserConfig {
    pub pdf: bool,
    pub office: bool,
    pub image_meta: bool,
    pub ocr: bool,
    pub max_image_bytes: Option<u64>,
    pub max_ocr_bytes: Option<u64>,
}

pub struct AppConfig {
    pub database: DatabaseConfig,
    pub scan: ScanPaths,
    pub embeddings: EmbeddingConfig,
    pub vectors: VectorConfig,
    pub classification: ClassificationConfig,
    pub safety: SafetyConfig,
    pub rules: RuleConfig,
    pub parsers: ParserConfig,
}

} // verus!
