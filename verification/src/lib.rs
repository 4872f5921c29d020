//! A line-oriented text-buffer engine: an in-memory document model with
//! grapheme-cluster-addressable editing, bidirectional substring search,
//! and per-column lexical highlighting.

mod cluster;
mod document;
mod highlight;
mod position;
mod row;
mod search;
mod unicode;

pub use document::Document;
pub use highlight::HighlightOptions;
pub use highlight::HighlightTag;
pub use position::Position;
pub use position::SearchDirection;
pub use row::Row;
