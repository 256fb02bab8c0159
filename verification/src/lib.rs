//! Ranked free-text retrieval over a normalized timeline of conversational
//! log events.
//!
//! The crate has two halves. The decoding half (`json`, `decode`,
//! `normalize`) turns one line of a line-delimited JSON log into a single
//! uniform event record, tolerating malformed lines. The search half
//! (`tokenize`, `fixed`, `bm25`, `search`, `snippet`, `highlight`) builds
//! corpus statistics over the event texts and ranks them against a free-text
//! query with BM25, extracting display snippets and highlight ranges.
//!
//! Scores are integers in millionths (fixed point), so that the ranking
//! arithmetic, including the logarithm inside the inverse document
//! frequency, is verified end to end.

pub mod bm25;
pub mod chars;
pub mod decode;
pub mod fixed;
pub mod highlight;
pub mod json;
pub mod normalize;
pub mod numfmt;
pub mod search;
pub mod session_names;
pub mod siphash;
pub mod snippet;
pub mod tokenize;

pub use bm25::BM25;
pub use decode::{
    decode_entry, decode_line, AssistantContentBlock, AssistantEvent, AssistantMessage, EventMetadata,
    ImageSource, SessionEntry, TokenUsage, UserContent, UserContentBlock, UserEvent, UserMessage,
};
pub use highlight::{highlight_match, highlight_ranges};
pub use json::JsonValue;
pub use normalize::{
    convert_to_display_event, decode_and_normalize, get_first_user_message, total_token_usage,
    DisplayEvent, ToolInfo,
};
pub use numfmt::format_number;
pub use search::{build_search_text, search_events, SearchMatch};
pub use session_names::SessionNameGenerator;
pub use snippet::extract_snippet_with_words;
pub use tokenize::{join_tokens, tokenize};
