//! Normalisation of JavaScript string literals: which quotes enclose a literal, and what its
//! text becomes in the formatted source.

pub mod escape;
pub mod information;
pub mod laws;
pub mod literal;
pub mod normaliser;
pub mod options;
pub mod quote;
pub mod requoting;
pub mod results;
pub mod text;
pub mod token;
pub mod unicode;
