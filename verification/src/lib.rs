//! A package manager core: content-addressed package pool, manifest and
//! repository-index parsing, sandboxed execution planning, and safe
//! dependency-aware uninstallation.
pub mod doc;
pub mod error;
pub mod pkg;
pub mod pool;
pub mod repo;
pub mod run;
pub mod strutil;
pub mod uninstall;
