//! The operations of the catalog, one for each thing a user can ask of it.

pub mod check_database;
pub mod check_file_system;
pub mod consistency;
pub mod delete_tag;
pub mod dump;
pub mod list_files;
pub mod list_tags;
pub mod rebuild;
pub mod report;
pub mod scan;
pub mod search;
pub mod searching;
pub mod show_file;
pub mod tag;
pub mod tagging;

pub use self::check_database::{database_paths, do_check_database};
pub use self::check_file_system::{check_file, do_check_file_system};
pub use self::delete_tag::do_delete_tag;
pub use self::dump::do_dump;
pub use self::list_files::do_list_files;
pub use self::list_tags::do_list_tags;
pub use self::rebuild::do_rebuild;
pub use self::report::do_report;
pub use self::scan::{do_scan, scan_file};
pub use self::search::do_search;
pub use self::show_file::do_show_file;
pub use self::tag::do_tag;
