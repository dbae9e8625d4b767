use vstd::prelude::*;

use crate::error::SQLRiteError;
use crate::strconv::str_eq;

verus! {

/// A dot-prefixed command typed at the prompt.  `Open` keeps the full
/// command line so the argument can be reported back.
#[derive(Debug, PartialEq)]
pub enum MetaCommand {
    Exit,
    Help,
    Open(String),
    Unknown,
}

/// Is `c` a whitespace character?  Command tokens are delimited by the
/// characters with the Unicode `White_Space` property, enumerated here.
pub open spec fn is_ws(c: char) -> bool {
    c == ' ' || c == '\t' || c == '\n' || c == '\r' || c == '\u{0B}' || c == '\u{0C}' || c
        == '\u{85}' || c == '\u{A0}' || c == '\u{1680}' || ('\u{2000}' <= c && c <= '\u{200A}')
        || c == '\u{2028}' || c == '\u{2029}' || c == '\u{202F}' || c == '\u{205F}' || c
        == '\u{3000}'
}

/// `s` with its leading whitespace removed.
pub open spec fn skip_ws(s: Seq<char>) -> Seq<char>
    decreases s.len(),
{
    if s.len() > 0 && is_ws(s[0]) {
        skip_ws(s.drop_first())
    } else {
        s
    }
}

/// The longest whitespace-free prefix of `s`.
pub open spec fn take_until_ws(s: Seq<char>) -> Seq<char>
    decreases s.len(),
{
    if s.len() > 0 && !is_ws(s[0]) {
        seq![s[0]] + take_until_ws(s.drop_first())
    } else {
        Seq::empty()
    }
}

/// The first whitespace-delimited token of `s`.
pub open spec fn first_token(s: Seq<char>) -> Seq<char> {
    take_until_ws(skip_ws(s))
}

/// If the first `i` characters are whitespace, skipping whitespace skips
/// at least them.
proof fn lemma_skip_ws_prefix(s: Seq<char>, i: int)
    requires
        0 <= i <= s.len(),
        forall|j: int| 0 <= j < i ==> is_ws(#[trigger] s[j]),
        i == s.len() || !is_ws(s[i]),
    ensures
        skip_ws(s) == s.skip(i),
    decreases i,
{
    if i > 0 {
        lemma_skip_ws_prefix(s.drop_first(), i - 1);
        assert(s.drop_first().skip(i - 1) =~= s.skip(i));
    } else {
        assert(s.skip(0) =~= s);
    }
}

/// If the first `j` characters are not whitespace and the next one is (or
/// the sequence ends), the whitespace-free prefix is exactly those `j`.
proof fn lemma_take_until_ws_prefix(s: Seq<char>, j: int)
    requires
        0 <= j <= s.len(),
        forall|k: int| 0 <= k < j ==> !is_ws(#[trigger] s[k]),
        j == s.len() || is_ws(s[j]),
    ensures
        take_until_ws(s) == s.subrange(0, j),
    decreases j,
{
    if j > 0 {
        lemma_take_until_ws_prefix(s.drop_first(), j - 1);
        assert(s.drop_first().subrange(0, j - 1) =~= s.subrange(1, j));
        assert(seq![s[0]] + s.subrange(1, j) =~= s.subrange(0, j));
    } else {
        assert(s.subrange(0, 0) =~= Seq::<char>::empty());
    }
}

/// Is `c` a whitespace character, at execution time?
fn is_ws_exec(c: char) -> (r: bool)
    ensures
        r == is_ws(c),
{
    c == ' ' || c == '\t' || c == '\n' || c == '\r' || c == '\u{0B}' || c == '\u{0C}' || c
        == '\u{85}' || c == '\u{A0}' || c == '\u{1680}' || ('\u{2000}' <= c && c <= '\u{200A}')
        || c == '\u{2028}' || c == '\u{2029}' || c == '\u{202F}' || c == '\u{205F}' || c
        == '\u{3000}'
}

/// The meta command that a command line names, decided by its first token.
pub open spec fn spec_meta_command(command: String) -> MetaCommand {
    let t = first_token(command@);
    if t == ".exit"@ {
        MetaCommand::Exit
    } else if t == ".help"@ {
        MetaCommand::Help
    } else if t == ".open"@ {
        MetaCommand::Open(command)
    } else {
        MetaCommand::Unknown
    }
}

impl MetaCommand {
    /// Classifies a command line by its first whitespace-delimited token.
    /// The line must contain at least one non-whitespace character.
    pub fn new(command: String) -> (r: MetaCommand)
        requires
            exists|i: int| 0 <= i < command@.len() && !is_ws(command@[i]),
        ensures
            r == spec_meta_command(command),
    {
        let n = command.as_str().unicode_len();
        let mut start: usize = 0;
        while start < n && is_ws_exec(command.as_str().get_char(start))
            invariant
                0 <= start <= n,
                n == command@.len(),
                forall|j: int| 0 <= j < start ==> is_ws(#[trigger] command@[j]),
                exists|i: int| 0 <= i < command@.len() && !is_ws(command@[i]),
            decreases n - start,
        {
            start = start + 1;
        }
        assert(start < n);
        let mut end: usize = start;
        while end < n && !is_ws_exec(command.as_str().get_char(end))
            invariant
                start <= end <= n,
                n == command@.len(),
                forall|k: int| start <= k < end ==> !is_ws(#[trigger] command@[k]),
            decreases n - end,
        {
            end = end + 1;
        }
        let token = command.as_str().substring_char(start, end);
        proof {
            lemma_skip_ws_prefix(command@, start as int);
            let rest = command@.skip(start as int);
            lemma_take_until_ws_prefix(rest, end - start);
            assert(rest.subrange(0, end - start) =~= command@.subrange(
                start as int,
                end as int,
            ));
        }
        if str_eq(token, ".exit") {
            MetaCommand::Exit
        } else if str_eq(token, ".help") {
            MetaCommand::Help
        } else if str_eq(token, ".open") {
            MetaCommand::Open(command)
        } else {
            MetaCommand::Unknown
        }
    }

    /// The short display form of the command.
    pub fn display_text(&self) -> (r: String)
        ensures
            *self matches MetaCommand::Exit ==> r@ == ".exit"@,
            *self matches MetaCommand::Help ==> r@ == ".help"@,
            *self matches MetaCommand::Open(_) ==> r@ == ".open"@,
            *self matches MetaCommand::Unknown ==> r@ == "Unknown command"@,
    {
        match self {
            MetaCommand::Exit => String::from_str(".exit"),
            MetaCommand::Help => String::from_str(".help"),
            MetaCommand::Open(_) => String::from_str(".open"),
            MetaCommand::Unknown => String::from_str("Unknown command"),
        }
    }
}

/// The reply that the prompt shows for a meta command, or the error for an
/// unrecognized one.  `Exit` ends the process and is handled by the caller
/// before this point, so it is excluded here.
pub fn meta_command_message(command: MetaCommand) -> (r: Result<String, SQLRiteError>)
    requires
        !(command matches MetaCommand::Exit),
    ensures
        command matches MetaCommand::Help ==> (r matches Ok(m) && m@ == concat_help_text()),
        command matches MetaCommand::Open(args) ==> (r matches Ok(m) && m@
            == "To be implemented: "@ + args@),
        command matches MetaCommand::Unknown ==> (r matches Err(e) && e matches
            SQLRiteError::UnknownCommand(m) && m@
            == "Unknown command or invalid arguments. Enter '.help'"@),
{
    match command {
        MetaCommand::Exit => Err(
            SQLRiteError::UnknownCommand(
                String::from_str("Unknown command or invalid arguments. Enter '.help'"),
            ),
        ),
        MetaCommand::Help => Ok(
            String::from_str("Special commands:\n").concat(
                ".help            - Display this message\n",
            ).concat(".open <FILENAME> - Close existing database and reopen FILENAME\n").concat(
                ".save <FILENAME> - Write in-memory database into FILENAME\n",
            ).concat(".read <FILENAME> - Read input from FILENAME\n").concat(
                ".tables          - List names of tables\n",
            ).concat(".ast <QUERY>     - Show the abstract syntax tree for QUERY.\n").concat(
                ".exit            - Quits this application",
            ),
        ),
        MetaCommand::Open(args) => Ok(
            String::from_str("To be implemented: ").concat(args.as_str()),
        ),
        MetaCommand::Unknown => Err(
            SQLRiteError::UnknownCommand(
                String::from_str("Unknown command or invalid arguments. Enter '.help'"),
            ),
        ),
    }
}

/// The full help text, as the concatenation of its lines.
pub open spec fn concat_help_text() -> Seq<char> {
    "Special commands:\n"@ + ".help            - Display this message\n"@
        + ".open <FILENAME> - Close existing database and reopen FILENAME\n"@
        + ".save <FILENAME> - Write in-memory database into FILENAME\n"@
        + ".read <FILENAME> - Read input from FILENAME\n"@
        + ".tables          - List names of tables\n"@
        + ".ast <QUERY>     - Show the abstract syntax tree for QUERY.\n"@
        + ".exit            - Quits this application"@
}

} // verus!
