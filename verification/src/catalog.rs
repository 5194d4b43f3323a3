//! The model catalog: providers, models and aliases, and the lookups that the
//! API answers from them.
//!
//! Prices are held as signed integers in billionths of the currency unit
//! (`1_000_000_000` is one dollar); they are ordered and compared exactly.
use vstd::prelude::*;

verus! {

/// A price in billionths of its currency unit.
pub type Nanos = i64;

#[derive(Clone, Debug)]
pub struct Provider {
    pub id: String,
    pub display_name: String,
    pub website: String,
    pub api_docs: Option<String>,
}

#[derive(Clone, Copy, Debug, PartialEq, Eq, Structural)]
pub enum ModelStatus {
    Active,
    Deprecating,
    Deprecated,
    Retired,
}

pub open spec fn status_name(s: ModelStatus) -> Seq<char> {
    match s {
        ModelStatus::Active => "active"@,
        ModelStatus::Deprecating => "deprecating"@,
        ModelStatus::Deprecated => "deprecated"@,
        ModelStatus::Retired => "retired"@,
    }
}

impl ModelStatus {
    /// The status as it is written in the catalog.
    pub fn as_str(&self) -> (r: &'static str)
        ensures
            r@ == status_name(*self),
    {
        match self {
            ModelStatus::Active => "active",
            ModelStatus::Deprecating => "deprecating",
            ModelStatus::Deprecated => "deprecated",
            ModelStatus::Retired => "retired",
        }
    }
}

#[derive(Clone, Debug)]
pub struct Modalities {
    pub input: Vec<String>,
    pub output: Vec<String>,
}

#[derive(Clone, Debug)]
pub struct ModelParameters {
    pub supported: Vec<String>,
    pub rejected: Vec<String>,
    pub deprecated_for_this_model: Vec<String>,
}

#[derive(Clone, Debug)]
pub struct Pricing {
    pub currency: String,
    pub input: Nanos,
    pub output: Nanos,
    pub cached_input: Option<Nanos>,
    pub batch_input: Option<Nanos>,
    pub batch_output: Option<Nanos>,
    pub request_fee: Option<Nanos>,
    pub search_fee: Option<Nanos>,
    pub reasoning: Option<Nanos>,
    pub per_image: Option<Nanos>,
    pub per_second: Option<Nanos>,
    pub per_minute: Option<Nanos>,
    pub per_million_chars: Option<Nanos>,
    pub per_page: Option<Nanos>,
    pub pricing_notes: Option<String>,
}

#[derive(Clone, Copy, Debug, PartialEq, Eq, Structural)]
pub enum Confidence {
    Official,
    Inferred,
    Community,
    Unknown,
}

pub open spec fn confidence_name(c: Confidence) -> Seq<char> {
    match c {
        Confidence::Official => "official"@,
        Confidence::Inferred => "inferred"@,
        Confidence::Community => "community"@,
        Confidence::Unknown => "unknown"@,
    }
}

impl Confidence {
    /// The confidence as it is written in the catalog.
    pub fn as_str(&self) -> (r: &'static str)
        ensures
            r@ == confidence_name(*self),
    {
        match self {
            Confidence::Official => "official",
            Confidence::Inferred => "inferred",
            Confidence::Community => "community",
            Confidence::Unknown => "unknown",
        }
    }
}

#[derive(Clone, Copy, Debug, PartialEq, Eq, Structural)]
pub enum EndpointFamily {
    ChatCompletions,
    Responses,
    Custom,
    Agent,
    Search,
    Embeddings,
    Reranking,
    ImageGeneration,
    Speech,
    Transcription,
    VideoGeneration,
    Realtime,
    Ocr,
    MusicGeneration,
    MeshGeneration,
}

pub open spec fn family_name(f: EndpointFamily) -> Seq<char> {
    match f {
        EndpointFamily::ChatCompletions => "chat_completions"@,
        EndpointFamily::Responses => "responses"@,
        EndpointFamily::Custom => "custom"@,
        EndpointFamily::Agent => "agent"@,
        EndpointFamily::Search => "search"@,
        EndpointFamily::Embeddings => "embeddings"@,
        EndpointFamily::Reranking => "reranking"@,
        EndpointFamily::ImageGeneration => "image_generation"@,
        EndpointFamily::Speech => "speech"@,
        EndpointFamily::Transcription => "transcription"@,
        EndpointFamily::VideoGeneration => "video_generation"@,
        EndpointFamily::Realtime => "realtime"@,
        EndpointFamily::Ocr => "ocr"@,
        EndpointFamily::MusicGeneration => "music_generation"@,
        EndpointFamily::MeshGeneration => "mesh_generation"@,
    }
}

impl EndpointFamily {
    /// The endpoint family as it is written in the catalog.
    pub fn as_str(&self) -> (r: &'static str)
        ensures
            r@ == family_name(*self),
    {
        match self {
            EndpointFamily::ChatCompletions => "chat_completions",
            EndpointFamily::Responses => "responses",
            EndpointFamily::Custom => "custom",
            EndpointFamily::Agent => "agent",
            EndpointFamily::Search => "search",
            EndpointFamily::Embeddings => "embeddings",
            EndpointFamily::Reranking => "reranking",
            EndpointFamily::ImageGeneration => "image_generation",
            EndpointFamily::Speech => "speech",
            EndpointFamily::Transcription => "transcription",
            EndpointFamily::VideoGeneration => "video_generation",
            EndpointFamily::Realtime => "realtime",
            EndpointFamily::Ocr => "ocr",
            EndpointFamily::MusicGeneration => "music_generation",
            EndpointFamily::MeshGeneration => "mesh_generation",
        }
    }
}

#[derive(Clone, Debug)]
pub struct Source {
    pub url: String,
    pub last_verified: String,
}

#[derive(Clone, Debug)]
pub struct Model {
    pub id: String,
    pub provider: String,
    pub display_name: String,
    pub status: ModelStatus,
    pub release_date: Option<String>,
    pub deprecation_date: Option<String>,
    pub sunset_date: Option<String>,
    pub replacement: Option<String>,
    pub context_window: u64,
    pub max_output_tokens: u64,
    pub modalities: Modalities,
    /// Capability flags by name; a name occurs at most once.
    pub capabilities: Vec<(String, bool)>,
    pub parameters: ModelParameters,
    pub pricing: Option<Pricing>,
    pub last_verified: String,
    pub confidence: Confidence,
    pub endpoint_family: EndpointFamily,
    pub sources: Vec<Source>,
}

} // verus!
