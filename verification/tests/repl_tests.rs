use sqlrite::meta_command::MetaCommand as TopMetaCommand;
use sqlrite::repl::metacommand::{
    check_meta_command, get_meta_command, MetaCommand, MetaCommandResult,
};
use sqlrite::repl::{get_command_type, CommandType};
use sqlrite::sql::SQLCommand;

#[test]
fn metacommand_get_meta_command_exit_test() {
    let inputed_command = String::from(".exit");

    let function_result = get_meta_command(&inputed_command);
    assert_eq!(function_result, None);
}

#[test]
fn get_meta_command_help_test() {
    let inputed_command = String::from(".help");

    let function_result = get_meta_command(&inputed_command);
    assert_eq!(function_result.is_some(), true);
}

#[test]
fn metacommand_get_meta_command_open_test() {
    let inputed_command = String::from(".open");

    let function_result = get_meta_command(&inputed_command);
    assert_eq!(function_result.is_some(), true);
}

#[test]
fn metacommand_get_meta_command_unknown_command_test() {
    let inputed_command = String::from(".random_command");

    let function_result = get_meta_command(&inputed_command);
    assert_eq!(function_result.is_some(), true);
}

#[test]
fn check_meta_command_success_test() {
    let inputed_command = String::from(".exit");

    let function_result = check_meta_command(&inputed_command);
    assert_eq!(
        function_result,
        MetaCommandResult::MetaCommandSuccess(MetaCommand::Exit)
    );
}

#[test]
fn check_meta_command_failed_test() {
    let inputed_command = String::from(".random_command");

    let function_result = check_meta_command(&inputed_command);
    assert_eq!(
        function_result,
        MetaCommandResult::MetaCommandUnrecognizedCommand
    );
}

#[test]
fn metacommand_meta_command_display_trait_test() {
    let exit = MetaCommand::Exit;
    let help = MetaCommand::Help;
    let open = MetaCommand::Open;

    assert_eq!(exit.display_text(), ".exit");
    assert_eq!(help.display_text(), ".help");
    assert_eq!(open.display_text(), ".open");
}

#[test]
fn get_command_type_meta_command_test() {
    let input = String::from(".help");
    let expected = CommandType::MetaCommand(TopMetaCommand::Help);

    let result = get_command_type(&input);
    assert_eq!(result, expected);
}

#[test]
fn get_command_type_sql_command_test() {
    let input = String::from("SELECT * from users;");
    let expected = CommandType::SQLCommand(SQLCommand::Unknown(input.clone()));

    let result = get_command_type(&input);
    assert_eq!(result, expected);
}
