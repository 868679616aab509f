//! Shadowed executables on a search path.
//!
//! A search path is an ordered list of directories. When two directories hold a
//! file of the same name, a shell only ever runs the one in the earlier
//! directory: it shadows the later one. This library finds such collisions,
//! checks a search path for questionable entries, and tells where a command is.

pub mod locate;
pub mod policy;
pub mod precedence;
pub mod report;
pub mod scan;
pub mod search_path;
pub mod shadows;
mod system;
pub mod text;
pub mod validate;
