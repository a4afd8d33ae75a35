//! The logic of a graphing calculator: entry texts, what the expression parser is handed,
//! how evaluation results become plot points, and the texts kept in a URL fragment.
//!
//! The parser and the evaluator work on floating-point numbers and stay outside. The
//! calculator says what they are to read, takes their answers as they come, and decides
//! what is shown.

pub mod entry;
pub mod euler;
pub mod grapher;
pub mod label;
pub mod laws;
pub mod sample;
pub mod text;
pub mod url;

pub use entry::FunctionEntry;
pub use euler::EULER;
pub use grapher::Grapher;
pub use url::{get_data_from_url, url_string_from_data};
