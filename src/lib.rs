//! Ingestion of packaged e-book documents into a verified document model:
//! metadata reconciliation, table-of-contents normalization, reconstruction of
//! chapter blocks from rendered markup, title derivation, and a reading cursor.
use vstd::prelude::*;

pub mod blocks;
pub mod chapters;
pub mod laws;
pub mod lines;
pub mod metadata;
pub mod model;
pub mod parser;
pub mod service;
pub mod state;
pub mod text;
pub mod toc;

pub use lines::{Mark, RenderedLine, TaggedText};
pub use metadata::MetadataItem;
pub use model::{
    Book, BookContent, BookId, BookMetadata, Chapter, ChapterBlock, ManifestItem, Spine,
    TextSpan, TocEntry,
};
pub use service::{EpubError, EpubService, PackageData};
pub use state::ReaderState;
pub use toc::NavPoint;

verus! {

} // verus!
