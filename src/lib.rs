//! Drives the NASM assembler over a set of sources and bundles the objects
//! into a static library.
//!
//! This crate holds everything that decides: how a target triple maps to
//! assembler flags, how a version banner is read and judged, how argument
//! lists and file names are formed, which archiver command is used, which
//! assembler paths are tried, and how compilation units are scheduled under
//! a bounded budget of job tokens. Running processes is left to the caller.

pub mod text;
pub mod triple;
pub mod version;
pub mod path;
pub mod config;
pub mod locate;
pub mod jobs;

pub use config::{Build, CompileUnit, output_file_name, unit_args};
pub use jobs::{JobAction, JobQueue};
pub use locate::{NasmSearch, SearchStep};
pub use path::{join, object_path};
pub use triple::{parse_triple, x86_triple, x86_64_triple};
pub use version::{parse_nasm_version, Version};
