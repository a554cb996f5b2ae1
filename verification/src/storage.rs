pub mod bytes;
pub mod codec;
pub mod heap_file;
pub mod item_id;
pub mod page;
pub mod page_header;
pub mod tuple_laws;
pub mod vacuum;
pub mod tuple_header;
