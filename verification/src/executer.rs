pub mod create;
pub mod delete;
pub mod executer;
pub mod filter;
pub mod help_functions;
pub mod index;
pub mod index_laws;
pub mod insert;
pub mod join;
pub mod laws;
pub mod select;
pub mod select_laws;
pub mod session_laws;
pub mod update;
pub mod vacuum;
