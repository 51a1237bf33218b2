//! Core logic of the `genie` on-device assistant: splitting documents into
//! retrieval chunks, assembling prompts, naming the retrieval cache, reading
//! the model's JSON replies and choosing the action a command line asks
//! for, each with a machine-checked contract. Input, output and the model
//! runtime stay with the program that uses this library.

pub mod backend;
pub mod chunk;
pub mod dispatch;
pub mod error;
pub mod ffi;
pub mod graph;
pub mod llm;
pub mod rag;
pub mod text;

pub use chunk::chunk_text;
pub use error::GenieError;
