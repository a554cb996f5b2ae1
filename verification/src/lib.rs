pub mod catalog;
pub mod consts;
pub mod engine;
pub mod errors;
pub mod executer;
pub mod parser;
pub mod printer;
pub mod storage;
pub mod text;
pub mod types;
