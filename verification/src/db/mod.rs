//! The catalog store: its tables, their rules and the operations on them.

pub mod conflicts;
pub mod dao;
pub mod migrations;
pub mod model;
pub mod rules;
pub mod util;

pub use self::dao::{Catalog, DuplicateFile, File, FileTag, Tag};
pub use self::migrations::{record_applied, run_migrations};
