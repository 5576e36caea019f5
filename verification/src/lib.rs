//! Line-aligned chunking of a sequential byte stream.
//!
//! A [`chunker::LineChunks`] engine pulls bytes from a [`source::ByteSource`]
//! and emits owned, line-aligned chunks: every chunk except possibly the last
//! ends at a line terminator and meets a configurable minimum size, so each
//! chunk can be handed to an independent consumer without stitching partial
//! lines at the edges. A [`splitter::LineSplitParse`] then turns one chunk
//! into its non-empty lines, feeding each through a caller-supplied transform.

pub mod chunker;
pub mod lines;
pub mod search;
pub mod splitter;
pub mod source;

pub use chunker::ChunkError;
pub use chunker::LineChunks;
pub use source::ByteSource;
pub use source::FailingSource;
pub use source::ReadError;
pub use source::SliceSource;
pub use splitter::LineSplitParse;
