//! Provider gateway and conversation context manager of a command-line
//! software assistant.
//!
//! The gateway part models chat requests and answers (`llm`), resolves
//! endpoints and credentials, prepares wire calls, decides retries with
//! backoff (`retry`) and decodes streamed answers (`stream`). The context
//! part frames conversation logs, searches and orders them, and cuts the
//! history sent with a question to a token budget (`session`, `util`).
//! Around them stand the pieces the command line builds on: configuration
//! (`config`), model capabilities (`models`), error codes (`errors`), file
//! selection (`files`), diffs (`diff`), text chunking and summaries
//! (`chunks`, `summarize`), file analysis (`analysis`), search and security
//! helpers (`search`, `security`), templates, checkpoints and offline mock
//! output. `text` holds the string reasoning they share.
pub mod text;
pub mod util;
pub mod llm;
pub mod session;
pub mod retry;
pub mod stream;
pub mod config;
pub mod models;
pub mod errors;
pub mod files;
pub mod diff;
pub mod render;
pub mod analysis;
pub mod templates;
pub mod checkpoint;
pub mod chunks;
pub mod security;
pub mod search;
pub mod mock;
pub mod summarize;
