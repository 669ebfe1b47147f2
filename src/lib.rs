//! A package-manager core: a registry of packages gathered from several
//! repositories, name resolution and search over it, scheduling of batch
//! installs, and selection of release assets to download.

pub mod link;
pub mod package;
pub mod install;
pub mod registry;
pub mod release;
pub mod run;
pub mod search;
pub mod text;
