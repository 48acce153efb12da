//! A verified line bundler for shell-script source text.
//!
//! The bundler rewrites multi-line script text into a single logical line of
//! statements: line breaks become `; ` statement separators, blank lines and
//! comment lines vanish, while quoted strings, `${...}` parameter expansions
//! and `name=(...)` array literals are carried through intact, even when they
//! span several source lines.
//!
//! The scanner's behaviour is given as a small-step machine over sequences of
//! characters in [`model`]; the executable scanner in [`bundler`] is proved to
//! compute exactly what the machine describes, and [`laws`] proves the
//! higher-level guarantees of the transformation.

pub mod bundler;
pub mod history;
pub mod laws;
pub mod model;
