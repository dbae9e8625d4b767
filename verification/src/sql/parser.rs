pub mod ast_bridge;
pub mod create;
pub mod insert;
