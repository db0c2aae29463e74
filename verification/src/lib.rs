//! Resumable parser combinators for binary formats whose input arrives in
//! chunks of arbitrary size.
pub mod action;
pub mod array;
pub mod bind;
pub mod buffer;
pub mod byte;
pub mod core_parsers;
pub mod darray;
pub mod debug;
pub mod endianness;
pub mod interp;
pub mod interp_parser;
pub mod laws;
pub mod length;
pub mod length_fallback;
pub mod length_limited;
pub mod numbers;
pub mod observe;
pub mod pair;
