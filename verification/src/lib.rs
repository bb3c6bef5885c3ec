//! A catalog of the files under a directory tree, keyed by location and by
//! content signature, with tags.

pub mod error;
pub mod text;
pub mod seqs;
pub mod location;
pub mod signature;
pub mod file_info;
pub mod tag;
pub mod like;
pub mod sample_visitor;
pub mod media_path_checker;
pub mod extension_set;
pub mod walk;
pub mod foo;
pub mod project;
pub mod db;
pub mod action;
