//! Decoding of Windows animated cursors (the RIFF-based "ACON" container), with the
//! configuration and directory layout of the theme packages built from them.
//!
//! Every decoder is proved equal to a model of the format written as spec functions over the
//! input bytes; `laws` and `truncation` prove properties of those models.

// The byte cursor, the error type and the records of the format.
pub mod error;
pub mod frame;
pub mod header;
pub mod metadata;
pub mod parser;

// Chunk decoders and the two decoding pipelines.
pub mod ani;
pub mod chunks;
pub mod icon;

// Properties of the decoders.
pub mod laws;
pub mod truncation;

// Theme packages.
pub mod config;
pub mod context;
pub mod package;
pub mod verbosity;
