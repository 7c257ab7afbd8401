//! A lexical scanner for a small C-like scripting language.
//!
//! [`scanner::Scanner`] turns one source string into a flat, ordered token
//! sequence ending in `EOF`, together with the lexical diagnostics the pass
//! collected.  What the scanner produces is pinned down by the mathematical
//! model in [`model`], and the general laws it obeys are proved in [`laws`].

pub mod laws;
pub mod model;
pub mod scanner;
pub mod token;
