//! Core of an interactive command shell: tokenizing input lines (quoting,
//! variable expansion, tilde expansion), alias resolution, builtin-command
//! dispatch over mutable session state, pipeline planning, and completion
//! candidates. Everything here is pure with respect to the values it is
//! handed; the surrounding program performs the actual process spawning,
//! directory changes and terminal I/O and feeds the results back in.

pub mod table;
pub mod text;
pub mod complete;
pub mod dispatch;
pub mod pipeline;
pub mod session;
pub mod tokens;
