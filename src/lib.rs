//! Extraction of the audio-bank archive embedded in `.uexp` asset files.
//!
//! An asset file carries an archive that begins with the bytes `AFS2` and
//! ends where the metadata table marked by `@UTF` begins. This library finds
//! the two markers, decides the byte span to copy, drives a bounded-buffer
//! copy of that span, and computes where the extracted file goes in a tree
//! that mirrors the scanned one.

pub mod copy;
pub mod markers;
pub mod paths;
pub mod span;

pub use copy::{COPY_BUFFER_SIZE, CopyProgress, copy_part, lemma_copy_independent_of_buffer};
pub use markers::{find_marker, find_start_marker, find_end_marker};
pub use span::{
    ExtractionSpan, extract_archive, lemma_backwards_span_is_empty, lemma_exact_span, plan_extraction,
};
pub use paths::{
    EntryAction, classify_entry, is_target_file, lemma_path_mirroring, output_dir, output_file_name,
    output_file_path,
};
