//! A text preprocessor: conditional sections, file inclusion and variable
//! interpolation in plain text, driven by a table of definitions.
//!
//! A line that begins with `#` and one of the keywords `include`, `ifdef`,
//! `ifndef`, `if`, `else`, `endif` is a directive; every other line is
//! content. Content is emitted where the conditionals around it allow it,
//! with each `$$name$$` replaced by the value of `name`.
//!
//! - [`defs`] holds the definitions.
//! - [`token`] and [`expr`] read and evaluate the expression of an `#if`.
//! - [`subst`] replaces variables.
//! - [`cond`] keeps the open conditionals of a file.
//! - [`directive`] says what a line is and what it does.
//! - [`processor`] goes through files line by line. It reads no file itself:
//!   it says which file it waits for and is handed what was read.
//! - [`path`] finds the file that an include means.
//! - [`text`] and [`error`] hold what the others share.
//!
//! Each function states what it returns over `Seq<char>` and the other
//! mathematical types of `vstd`, and is verified against that statement.

pub mod cond;
pub mod defs;
pub mod directive;
pub mod error;
pub mod expr;
pub mod path;
pub mod processor;
pub mod subst;
pub mod text;
pub mod token;
