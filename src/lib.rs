//! Lists the files under a directory tree whose name ends with a suffix and
//! whose last modification falls on a given calendar date, as Markdown links.

pub mod date;
pub mod error;
pub mod path;
pub mod search;
