//! Nested-archive extraction: the decisions and the parsing behind it,
//! verified. Process spawning, the file system and the desktop shell are
//! performed by the caller, which reports back what happened.
pub mod text;
pub mod names;
pub mod locate;
pub mod flow;
pub mod attempts;
pub mod output;
pub mod stream;
pub mod results;
pub mod command;
pub mod flatten;
