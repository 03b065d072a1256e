//! Replacing a pinned dependency of a project by a copy that can be edited in place:
//! finding the commit of a repository that holds a given version of a package, and
//! recording the replacement in the text of the project's manifest.

pub mod text;
pub mod patcher;
pub mod directive;
pub mod nesting;
pub mod probe;
pub mod tree;
pub mod resolver;
pub mod orchestrate;
pub mod search;
