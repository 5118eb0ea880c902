//! A lightweight markup core: a single-pass structural scanner that turns raw
//! text into a style-annotated item sequence, a simplified highlight scanner
//! that produces flat formatted runs for live editing, and a memoizing cache
//! around the latter.

pub mod highlighter;
pub mod parser;
