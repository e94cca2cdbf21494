//! A scanner for the Athena scripting language: it turns source text into
//! an ordered sequence of classified tokens.
//!
//! The grammar is stated once, as mathematical functions over sequences of
//! characters, in [`grammar`]; the executable scanner in [`lexer`] is proved
//! to compute exactly those functions, and [`laws`] holds what follows for
//! every scan.
//!
//! Three choices are worth knowing before use:
//!
//! * Matching is first-match over an ordered table of spellings, without
//!   regard to word boundaries: `domain` is the keyword `do` followed by the
//!   identifier `main`.
//! * A scan is all or nothing. The first fault ends it with an error, no
//!   token is returned, and the scanner is left as it was before the call.
//! * A string literal that is not closed before the text ends is a fault,
//!   as is a character that starts no token.

pub mod ast;
pub mod chars;
pub mod grammar;
pub mod laws;
pub mod lexer;
pub mod parser;
pub mod source;
pub mod token;
