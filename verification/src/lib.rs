//! Two versions of a LaTeX project become one PDF with the changes marked in red. This library
//! holds every decision on the way; running programs and touching files is left to its caller,
//! which carries out the steps it is given and reports what came of them.

pub mod bibliography;
pub mod bytes;
pub mod command;
pub mod compile;
pub mod diff;
pub mod error;
pub mod latex;
pub mod lines;
pub mod pipeline;
pub mod project;
pub mod source;
pub mod text;
