//! A CSS selector engine over an HTML node tree: selector parsing, the compiled
//! selector representation, and right-to-left matching with combinators.

pub mod attr;
pub mod context;
pub mod element_ref;
pub mod match_laws;
pub mod matching;
pub mod parse_laws;
pub mod parser;
pub mod selector;
pub mod text;
pub mod tokenizer;
pub mod tree;

pub use element_ref::ElementRef;
pub use parser::ParseError;
pub use selector::Selector;
pub use tree::Html;
