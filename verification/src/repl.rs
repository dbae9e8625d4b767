pub mod metacommand;

use vstd::prelude::*;

use crate::meta_command::MetaCommand;
use crate::sql::SQLCommand;

verus! {

/// The two families of commands the prompt accepts: meta commands, which
/// start with a dot, and SQL commands.
#[derive(Debug, PartialEq)]
pub enum CommandType {
    MetaCommand(MetaCommand),
    SQLCommand(SQLCommand),
}

/// Classifies a command line: a leading dot makes it a meta command,
/// anything else is treated as SQL.
pub fn get_command_type(command: &String) -> (r: CommandType)
    ensures
        command@.len() > 0 && command@[0] == '.' ==> r == CommandType::MetaCommand(
            crate::meta_command::spec_meta_command(*command),
        ),
        !(command@.len() > 0 && command@[0] == '.') ==> r == CommandType::SQLCommand(
            crate::sql::spec_sql_command(*command),
        ),
{
    let starts_with_dot = command.as_str().unicode_len() > 0 && command.as_str().get_char(0)
        == '.';
    if starts_with_dot {
        CommandType::MetaCommand(MetaCommand::new(command.clone()))
    } else {
        CommandType::SQLCommand(SQLCommand::new(command.clone()))
    }
}

} // verus!
