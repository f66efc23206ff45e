pub mod catalog;
pub mod column_header;
pub mod error;
pub mod row;
pub mod table;
