pub mod command;
pub mod connection;
pub mod db;
pub mod decimal;
pub mod parse;

pub use decimal::Decimal;
