//! Update-distribution gateway core: release resolution, link-header
//! pagination and signed download URLs.

pub mod catalog;
pub mod error;
pub mod guard;
pub mod link_header;
pub mod order;
pub mod pagination;
pub mod platform;
pub mod signing;
pub mod query;
pub mod text;
pub mod version;
