//! Tracks the external libraries of a project and decides which of them an
//! editor's project panel shows.

pub mod context;
pub mod enumeration;
pub mod library_entry;
pub mod library_root;
pub mod model;
pub mod path;
pub mod path_map;
pub mod settings;
pub mod store;
pub mod laws;
pub mod reading_laws;
pub mod call_laws;
pub mod history;
