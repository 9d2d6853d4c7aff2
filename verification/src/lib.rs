//! `catmd`: a `cat`-like printer whose Markdown renderer turns CommonMark
//! into ANSI-styled terminal text, with fenced code blocks highlighted.

pub mod text;
pub mod paths;
pub mod style;
pub mod events;
pub mod render;
pub mod highlight;
pub mod markdown;
pub mod laws;
pub mod render_laws;
