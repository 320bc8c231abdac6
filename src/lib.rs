//! Reading and writing VCP skin documents: a line-oriented tagged-text
//! format describing a grid of borders, images and buttons.
//!
//! - `parser::parse_vcp` reads any text into a document and never fails; its
//!   result is `parser::parse_text` of the text.
//! - `serializer::serialize_vcp` writes a document in one canonical layout,
//!   `serializer::serialize_text`.
//! - `round_trip::lemma_parse_serialize_round_trip` proves that reading back
//!   what was written gives the same document.
//! - `tolerance` states how unknown lines, non-numeric values and unclosed
//!   blocks are treated.
//! - `sidecar` finds a skin's root directory and fills in buttons from their
//!   sidecar files, given what the caller found on disk.
//! - `export` rewrites image paths for the machine and recognizes SVG text.

pub mod export;
pub mod models;
pub mod parser;
pub mod round_trip;
pub mod serializer;
pub mod sidecar;
pub mod text;
pub mod tolerance;

pub use models::{Border, Button, Image, OnClick, OnHover, PlcWord, VcpDocument};
pub use parser::parse_vcp;
pub use serializer::serialize_vcp;
pub use sidecar::Sidecar;
