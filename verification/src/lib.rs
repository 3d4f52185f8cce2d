//! Fast string concatenation: the decisions behind the `fconcat!` macro.
//!
//! - [`model`]: the pieces of the macro's input, as the folding sees them, and
//!   what they evaluate to;
//! - [`parse`]: how each parsed expression becomes a piece;
//! - [`fold`]: how a separator is placed between the pieces (fused into
//!   neighbouring string literals where it is one), how constant pieces are
//!   grouped, and how a constant group is concatenated;
//! - [`expand`]: the code that the macro expands to, and what that code
//!   evaluates to when it runs;
//! - [`bytes`]: the byte concatenation of the byte-level constants (the
//!   expanded code writes its steps out in constant position, where this
//!   function, being no `const fn`, cannot be called);
//! - [`laws`]: what holds of every expansion.

pub mod bytes;
pub mod model;
pub mod fold;
pub mod parse;
pub mod expand;
pub mod laws;
