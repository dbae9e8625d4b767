pub mod database;
pub mod store;
pub mod table;
