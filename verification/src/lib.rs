//! A small project-build orchestrator: it scaffolds a new project directory
//! with a starter source file and a declarative `lion.toml` configuration,
//! and it turns a loaded configuration into a native-compiler invocation.
//!
//! Everything that decides or computes lives here, verified; the host binary
//! performs the filesystem and process work that the library plans.

use vstd::prelude::*;

pub mod args;
pub mod config;
pub mod errors;
pub mod format;
pub mod init;
pub mod laws;
pub mod parse;
pub mod text;
pub mod lion;

verus! {

} // verus!
