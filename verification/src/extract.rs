//! Extraction of system information tables.

pub mod cell_laws;
pub mod extract_laws;
pub mod extractor;
pub mod format;
pub mod join;
pub mod join_laws;
pub mod model;
pub mod path;
pub mod path_laws;

pub use extractor::extract;
pub use join::join_tables;
pub use model::{StorageContext, Table};
pub use path::json_paths;
