pub mod b_tree;
pub mod catalog_types;
pub mod filter_types;
pub mod index_laws;
pub mod page_types;
pub mod parser_types;
pub mod storage_types;
pub mod transaction_types;
pub mod value_order;
