pub mod error;
pub mod meta_command;
pub mod repl;
pub mod sql;
pub mod strconv;
