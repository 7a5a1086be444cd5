//! Transpiler for an indentation-based LaTeX shorthand.
//!
//! A line `# name opts: args` expands to a LaTeX command or opens an
//! environment, a leading `*` expands to `\item` inside list-like
//! environments, and indentation decides where environments close.

pub mod parsers;
pub mod text;
pub mod transpile;
