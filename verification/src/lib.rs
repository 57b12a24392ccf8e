//! Decoder for a sequence aligner's debug trace and the plot geometry
//! derived from it.
//!
//! The trace is a fixed-layout, human-readable dump: per query read it lists
//! the candidate reference anchors and the anchor chains the aligner
//! considered. `cursor` moves over the raw bytes by literal-length skips and
//! delimiter scans, `decode` recovers the typed records of `records`, and
//! `path`, `geometry` and `filename` derive what the rendering collaborator
//! draws: alignment paths from CIGAR strings, reference-axis plot windows,
//! visible background anchor sets, and safe output names.

pub mod cursor;
pub mod decode;
pub mod filename;
pub mod geometry;
pub mod path;
pub mod records;
