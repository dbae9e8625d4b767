use vstd::prelude::*;

use crate::strconv::str_eq;

verus! {

/// The meta commands that the prompt recognizes as whole lines.
#[derive(Debug, PartialEq)]
pub enum MetaCommand {
    Exit,
    Help,
    Open,
}

impl MetaCommand {
    /// The short display form of the command.
    pub fn display_text(&self) -> (r: String)
        ensures
            *self matches MetaCommand::Exit ==> r@ == ".exit"@,
            *self matches MetaCommand::Help ==> r@ == ".help"@,
            *self matches MetaCommand::Open ==> r@ == ".open"@,
    {
        match self {
            MetaCommand::Exit => String::from_str(".exit"),
            MetaCommand::Help => String::from_str(".help"),
            MetaCommand::Open => String::from_str(".open"),
        }
    }
}

/// The outcome of looking a command line up among the meta commands.
#[derive(Debug, PartialEq)]
pub enum MetaCommandResult {
    MetaCommandSuccess(MetaCommand),
    MetaCommandUnrecognizedCommand,
}

/// Looks `command` up among the meta commands; only an exact match counts.
pub fn check_meta_command(command: &String) -> (r: MetaCommandResult)
    ensures
        command@ == ".exit"@ ==> r == MetaCommandResult::MetaCommandSuccess(MetaCommand::Exit),
        command@ == ".help"@ ==> r == MetaCommandResult::MetaCommandSuccess(MetaCommand::Help),
        command@ == ".open"@ ==> r == MetaCommandResult::MetaCommandSuccess(MetaCommand::Open),
        command@ != ".exit"@ && command@ != ".help"@ && command@ != ".open"@ ==> r
            == MetaCommandResult::MetaCommandUnrecognizedCommand,
{
    proof {
        reveal_strlit(".exit");
        reveal_strlit(".help");
        reveal_strlit(".open");
        assert(".exit"@ != ".help"@) by {
            assert(".exit"@[1] == 'e');
            assert(".help"@[1] == 'h');
        }
        assert(".exit"@ != ".open"@) by {
            assert(".exit"@[1] == 'e');
            assert(".open"@[1] == 'o');
        }
        assert(".help"@ != ".open"@) by {
            assert(".help"@[1] == 'h');
            assert(".open"@[1] == 'o');
        }
    }
    if str_eq(command.as_str(), ".exit") {
        MetaCommandResult::MetaCommandSuccess(MetaCommand::Exit)
    } else if str_eq(command.as_str(), ".help") {
        MetaCommandResult::MetaCommandSuccess(MetaCommand::Help)
    } else if str_eq(command.as_str(), ".open") {
        MetaCommandResult::MetaCommandSuccess(MetaCommand::Open)
    } else {
        MetaCommandResult::MetaCommandUnrecognizedCommand
    }
}

/// Performs a meta command and returns the text to show the user, or
/// `None` when the command asks the session to end.
pub fn get_meta_command(command: &String) -> (r: Option<String>)
    ensures
        command@ == ".exit"@ ==> r is None,
        command@ != ".exit"@ ==> r is Some,
        command@ == ".help"@ ==> (r matches Some(m) && m@ == short_help_text()),
        command@ == ".open"@ ==> (r matches Some(m) && m@ == "To be implemented"@),
        command@ != ".exit"@ && command@ != ".help"@ && command@ != ".open"@ ==> (r matches Some(
            m,
        ) && m@ == "Error: unknown command or invalid arguments: '"@ + command@
            + "'. Enter '.help'"@),
{
    let meta_command = check_meta_command(command);
    match meta_command {
        MetaCommandResult::MetaCommandSuccess(cmd) => match cmd {
            MetaCommand::Exit => None,
            MetaCommand::Help => Some(
                String::from_str("Special commands:\n").concat(
                    ".help - Display this message\n",
                ).concat(".open <FILENAME> - Reopens a persistent database.\n").concat(
                    ".exit - Quits this application",
                ),
            ),
            MetaCommand::Open => Some(String::from_str("To be implemented")),
        },
        MetaCommandResult::MetaCommandUnrecognizedCommand => Some(
            String::from_str("Error: unknown command or invalid arguments: '").concat(
                command.as_str(),
            ).concat("'. Enter '.help'"),
        ),
    }
}

/// The help text of the prompt, as the concatenation of its lines.
pub open spec fn short_help_text() -> Seq<char> {
    "Special commands:\n"@ + ".help - Display this message\n"@
        + ".open <FILENAME> - Reopens a persistent database.\n"@
        + ".exit - Quits this application"@
}

} // verus!
