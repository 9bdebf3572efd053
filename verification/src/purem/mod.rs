//! The `.purem` snapshot format: its fixed header, and the element-id
//! traversal used to relocate a model.

pub mod fqn_path;
pub mod header;
pub mod walk;
pub mod filter;
