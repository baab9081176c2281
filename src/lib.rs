//! Extraction of documentation comment blocks from source files into
//! per-topic pages, with optional source links and harvested examples.

pub mod docs;
pub mod emit;
pub mod laws;
pub mod path;
pub mod pattern;
pub mod scan;
pub mod text;

pub use docs::{Document, Documents};
pub use emit::{
    example_chunks, example_script, hidden_folder, page_file, parse_title, render_document,
};
pub use path::normalize_path;
pub use pattern::Declarations;
pub use scan::{generate_docs, scan_file, Phase, Scanner, SourceFile};
pub use text::{comment_content, decimal_string, has_whitespace, is_whitespace};
