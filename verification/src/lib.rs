//! Semantic-grep core: match selection, context-window merging, streaming
//! rendering, and order-statistics summaries over per-line similarity scores.
//!
//! Scores are fixed-point integers in thousandths (a score of `712` stands
//! for `0.712`): the embedding collaborator that produces raw similarities
//! lives outside this crate, and its values are rounded to three decimals on
//! the way in, which is also the precision at which they are displayed.

pub mod digits;
pub mod engine;
pub mod render;
pub mod select;
pub mod stats;
pub mod stream;
pub mod summary;
pub mod window;
