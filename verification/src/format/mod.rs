//! MDX/Markdown formatting.
//!
//! Two formatters live here: `regex`, plain scanning of the text, and `ast`,
//! which works on the parsed event stream of the document and is the default.

pub mod ast;
pub mod html;
pub mod regex;
pub mod rewrite;
pub mod shortcode;
