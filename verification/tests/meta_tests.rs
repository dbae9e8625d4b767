use sqlrite::error::SQLRiteError;
use sqlrite::meta_command::{meta_command_message, MetaCommand};

#[test]
fn mod_meta_command_display_trait_test() {
    let exit = MetaCommand::Exit;
    let help = MetaCommand::Help;
    let open = MetaCommand::Open(".open database.db".to_string());
    let unknown = MetaCommand::Unknown;

    assert_eq!(exit.display_text(), ".exit");
    assert_eq!(help.display_text(), ".help");
    assert_eq!(open.display_text(), ".open");
    assert_eq!(unknown.display_text(), "Unknown command");
}

#[test]
fn meta_command_new_classifies_test() {
    assert_eq!(MetaCommand::new(".exit".to_string()), MetaCommand::Exit);
    assert_eq!(MetaCommand::new(".help".to_string()), MetaCommand::Help);
    assert_eq!(
        MetaCommand::new(".open database.db".to_string()),
        MetaCommand::Open(".open database.db".to_string())
    );
    assert_eq!(
        MetaCommand::new(".random_command".to_string()),
        MetaCommand::Unknown
    );
    assert_eq!(
        MetaCommand::new("  .exit  ".to_string()),
        MetaCommand::Exit
    );
}

#[test]
fn meta_command_message_help_test() {
    let result = meta_command_message(MetaCommand::Help);
    assert!(result.is_ok());
}

#[test]
fn meta_command_message_open_test() {
    let result = meta_command_message(MetaCommand::Open(".open database.db".to_string()));
    assert_eq!(
        result,
        Ok("To be implemented: .open database.db".to_string())
    );
}

#[test]
fn meta_command_message_unknown_test() {
    let result = meta_command_message(MetaCommand::Unknown);
    assert_eq!(
        result,
        Err(SQLRiteError::UnknownCommand(
            "Unknown command or invalid arguments. Enter '.help'".to_string()
        ))
    );
}
