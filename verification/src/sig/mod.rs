//! Writing signatures.
pub mod contents;
pub mod elements;
pub mod lt;
pub mod readback;
pub mod template;
