//! Turns the HTML of a syntax highlighter into LaTeX: the document's styled text is taken
//! apart into runs (`extract`), and the runs are written as escaped, colored markup inside a
//! verbatim environment (`emit`).

pub mod config;
pub mod emit;
pub mod extract;
pub mod header;
pub mod laws;
pub mod text;

pub use config::CliArgs;
pub use emit::generate_latex_verbatim;
pub use extract::{extract_highlighted_pieces, HighlightedText};
pub use header::{parse_header, HeaderInfo};
