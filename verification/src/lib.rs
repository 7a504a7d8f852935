//! An interpreter for a small text-expansion macro language.
//!
//! Input strings contain bracketed invocations such as `[add/1/2]`; the
//! engine repeatedly locates the innermost invocation, dispatches it to a
//! handler, and substitutes the handler's output in place until no
//! invocations remain.

pub mod text;
pub mod numbers;
pub mod parsing;
pub mod execution;
pub mod textmacro;
pub mod stdlib;

pub use execution::{Macro, MacroError, MacroErrorKind, MacroTable, apply_macros};
pub use stdlib::add_stdlib;
pub use textmacro::TextMacro;
