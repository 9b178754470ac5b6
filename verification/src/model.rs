//! Model router and provider records.

use vstd::prelude::*;

verus! {

#[derive(Debug, Clone, Copy, PartialEq, Eq, Structural)]
pub enum ProviderKind {
    OpenAiCompat,
    Anthropic,
    Stub,
}

/// Routing presets; `Smart` is the default.
#[derive(Debug, Clone, Copy, PartialEq, Eq, Structural)]
pub enum RouterPreset {
    Smart,
    Economy,
    Performance,
}

#[derive(Debug, Clone)]
pub struct ModelInfo {
    pub id: String,
    pub provider: String,
    pub context_window: usize,
    pub supports_tools: bool,
    pub supports_streaming: bool,
}

#[derive(Debug, Clone)]
pub struct ModelList {
    pub items: Vec<ModelInfo>,
}

#[derive(Debug, Clone)]
pub struct ChatMessage {
    pub role: String,
    pub content: String,
}

/// Stream of chat events.
#[derive(Debug, Default)]
pub struct ChatStream;

#[derive(Debug, Clone)]
pub struct EmbedRequest {
    pub texts: Vec<String>,
    pub model: Option<String>,
}

#[derive(Debug, Clone, Default)]
pub struct UsageQuery {
    pub since: Option<String>,
    pub by: Option<String>,
}

} // verus!
