//! Relevance scoring for news feed items.
//!
//! - `text`, `dice`, `vocabulary`: tokenising, the Sørensen–Dice test of a
//!   word against a term, and the topic vocabulary.
//! - `relevance`: the lexical scorer and its explained breakdown.
//! - `feedback`: the feedback scorer, which compares an item's embeddings with
//!   those of previously rated items and decays the estimate with age.
//! - `ranking`: top-k selection, the opt-in filter and batch scoring.
//! - `common`, `items`: news items, their pipeline errors and item-level
//!   operations; `feeds`, `rating`, `anchor`: small parsers and formatters
//!   used around the pipeline.
//!
//! All quantities are integers. Lexical scores are whole points. Feedback
//! ratings and scores are in thousandths of the rating scale. Embeddings are
//! vectors of `i16`. Similarity thresholds are cosines in thousandths.
pub mod text;
pub mod dice;
pub mod vocabulary;
pub mod common;
pub mod items;
pub mod relevance;
pub mod feedback;
pub mod ranking;
pub mod feeds;
pub mod rating;
pub mod anchor;
pub mod channels;
