pub mod catalog_manager;
pub mod validate;
