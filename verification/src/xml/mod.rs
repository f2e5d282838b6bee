//! XML documents: writing them and reading them.
pub mod input;
pub mod markup;
pub mod output;
pub mod tree;
