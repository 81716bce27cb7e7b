//! Streaming LLM client (OpenAI-compatible SSE), clause splitting, and the
//! model registry.

pub mod client;
pub mod image;
pub mod message;
pub mod model;
pub mod reply;
pub mod scripted;
pub mod splitter;
pub mod sse;

pub use client::LlmClient;
pub use image::image_to_data_uri;
pub use message::{ContentBlock, ImageUrl, Message, MessageContent, Tool, ToolCall};
pub use splitter::ClauseSplitter;
pub use sse::{parse_sse_delta, parse_sse_line, SseDelta};
