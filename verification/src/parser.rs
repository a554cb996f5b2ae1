pub mod begin;
pub mod common;
pub mod create_parser;
pub mod delete_parser;
pub mod index;
pub mod insert_parser;
pub mod main_parser;
pub mod select_parser;
pub mod set_isolation;
pub mod update;
pub mod vacuum;
pub mod where_parser;
