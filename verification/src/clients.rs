//! Provider clients: the request and response data model of each vendor,
//! the conversion from prompts to vendor request shapes, and the adapter
//! that normalizes each vendor's streamed payloads.

pub mod claude;
pub mod gai;
pub mod gemini;
pub mod genemi;
pub mod openai;
