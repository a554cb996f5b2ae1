pub mod catalog_error;
pub mod engine_error;
pub mod eval_error;
pub mod parse_error;
pub mod storage_error;
