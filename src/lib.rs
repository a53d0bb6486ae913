//! Conversion of a small markdown dialect to HTML: a verified grammar that
//! turns text into a parse tree, and a verified renderer that turns the tree
//! into one HTML fragment per block.

pub mod block;
pub mod convert;
pub mod inline;
pub mod laws;
pub mod render;
pub mod text;
pub mod tree;

pub use convert::{parse_by_rule, parse_markdown, str_to_html, Grammar};
pub use tree::{ErrorParse, Node, Pair, ParseError, RenderError, Rule};
