//! The serial command language: `PING`, `SCAN <start>,<end>`,
//! `RAW <sdi12 command>`, `TC <0|1>` and `HELP`.

use vstd::prelude::*;
use vstd::string::StrSliceExecFns;

use crate::error::Sdi12Error;
use crate::text::{
    all_whitespace, find_char, first_index, lemma_trim_ignores_surrounding_whitespace, str_equal,
    trim, trim_str,
};

verus! {

/// A command received on the serial port.
#[derive(Debug, PartialEq)]
pub enum SerialCommand<'a> {
    Ping,
    Scan { start_addr: char, end_addr: char },
    Raw { sdi12_cmd: &'a str },
    Tc { channel: usize },
    Help,
}

/// What a command says, with the text of a `RAW` command as characters.
pub ghost enum CommandModel {
    Ping,
    Scan { start_addr: char, end_addr: char },
    Raw { sdi12_cmd: Seq<char> },
    Tc { channel: nat },
    Help,
}

impl<'a> View for SerialCommand<'a> {
    type V = CommandModel;

    open spec fn view(&self) -> CommandModel {
        match *self {
            SerialCommand::Ping => CommandModel::Ping,
            SerialCommand::Scan { start_addr, end_addr } => CommandModel::Scan {
                start_addr,
                end_addr,
            },
            SerialCommand::Raw { sdi12_cmd } => CommandModel::Raw { sdi12_cmd: sdi12_cmd@ },
            SerialCommand::Tc { channel } => CommandModel::Tc { channel: channel as nat },
            SerialCommand::Help => CommandModel::Help,
        }
    }
}

/// The outcome of a parse, with the command taken by its model.
pub open spec fn parse_outcome<'a>(r: Result<SerialCommand<'a>, Sdi12Error>) -> Result<
    CommandModel,
    Sdi12Error,
> {
    match r {
        Ok(c) => Ok(c@),
        Err(e) => Err(e),
    }
}

/// The first character of `s`, or a space where `s` is empty.
pub open spec fn first_or_space(s: Seq<char>) -> char {
    if s.len() > 0 {
        s[0]
    } else {
        ' '
    }
}

/// The keyword of a trimmed command line: the text before its first space.
pub open spec fn instruction_of(cmd: Seq<char>) -> Seq<char> {
    cmd.subrange(0, first_index(cmd, ' '))
}

/// The arguments of a trimmed command line: the trimmed text after its
/// first space, or nothing where it holds no space.
pub open spec fn arguments_of(cmd: Seq<char>) -> Seq<char> {
    let k = first_index(cmd, ' ');
    if k < cmd.len() {
        trim(cmd.subrange(k + 1, cmd.len() as int))
    } else {
        Seq::empty()
    }
}

/// The two addresses of `SCAN <start>,<end>`: the first character of each
/// trimmed side of the first comma, a space for a side that is missing.
pub open spec fn scan_addresses(args: Seq<char>) -> (char, char) {
    let k = first_index(args, ',');
    if k < args.len() {
        (
            first_or_space(trim(args.subrange(0, k))),
            first_or_space(trim(args.subrange(k + 1, args.len() as int))),
        )
    } else {
        (' ', ' ')
    }
}

/// What a command line means.
pub open spec fn parse_spec(line: Seq<char>) -> Result<CommandModel, Sdi12Error> {
    let cmd = trim(line);
    if cmd.len() == 0 {
        Err(Sdi12Error::InvalidSerialCommand)
    } else {
        let instruction = instruction_of(cmd);
        let args = arguments_of(cmd);
        if instruction == "PING"@ {
            Ok(CommandModel::Ping)
        } else if instruction == "SCAN"@ {
            let (start_addr, end_addr) = scan_addresses(args);
            Ok(CommandModel::Scan { start_addr, end_addr })
        } else if instruction == "RAW"@ {
            Ok(CommandModel::Raw { sdi12_cmd: args })
        } else if instruction == "TC"@ {
            if args == "0"@ {
                Ok(CommandModel::Tc { channel: 0 })
            } else if args == "1"@ {
                Ok(CommandModel::Tc { channel: 1 })
            } else {
                Err(Sdi12Error::InvalidSerialCommand)
            }
        } else if instruction == "HELP"@ {
            Ok(CommandModel::Help)
        } else {
            Err(Sdi12Error::InvalidSerialCommand)
        }
    }
}

/// Whitespace before or after a command line does not change what it
/// means.
pub proof fn lemma_parse_ignores_surrounding_whitespace(
    pre: Seq<char>,
    line: Seq<char>,
    post: Seq<char>,
)
    requires
        all_whitespace(pre),
        all_whitespace(post),
    ensures
        parse_spec(pre + line + post) == parse_spec(line),
{
    lemma_trim_ignores_surrounding_whitespace(pre, line, post);
}

/// The first character of `s`, or a space where `s` is empty.
fn first_char_or_space(s: &str) -> (c: char)
    ensures
        c == first_or_space(s@),
{
    if s.unicode_len() > 0 {
        s.get_char(0)
    } else {
        ' '
    }
}

/// Parses one command line.
pub fn parse_cmd<'a>(cmd: &'a str) -> (r: Result<SerialCommand<'a>, Sdi12Error>)
    ensures
        parse_outcome(r) == parse_spec(cmd@),
{
    let cmd = trim_str(cmd);
    let n = cmd.unicode_len();
    if n == 0 {
        return Err(Sdi12Error::InvalidSerialCommand);
    }
    let (instruction, args) = match find_char(cmd, ' ') {
        Some(k) => (cmd.substring_char(0, k), trim_str(cmd.substring_char(k + 1, n))),
        None => (cmd.substring_char(0, n), cmd.substring_char(n, n)),
    };
    assert(instruction@ == instruction_of(cmd@));
    assert(args@ == arguments_of(cmd@));
    if str_equal(instruction, "PING") {
        Ok(SerialCommand::Ping)
    } else if str_equal(instruction, "SCAN") {
        let m = args.unicode_len();
        let (start, end) = match find_char(args, ',') {
            Some(k) => (trim_str(args.substring_char(0, k)), trim_str(args.substring_char(k + 1, m))),
            None => (args.substring_char(0, 0), args.substring_char(0, 0)),
        };
        let start_addr = first_char_or_space(start);
        let end_addr = first_char_or_space(end);
        Ok(SerialCommand::Scan { start_addr, end_addr })
    } else if str_equal(instruction, "RAW") {
        Ok(SerialCommand::Raw { sdi12_cmd: args })
    } else if str_equal(instruction, "TC") {
        if str_equal(args, "0") {
            Ok(SerialCommand::Tc { channel: 0 })
        } else if str_equal(args, "1") {
            Ok(SerialCommand::Tc { channel: 1 })
        } else {
            Err(Sdi12Error::InvalidSerialCommand)
        }
    } else if str_equal(instruction, "HELP") {
        Ok(SerialCommand::Help)
    } else {
        Err(Sdi12Error::InvalidSerialCommand)
    }
}


/// `TC 0` and `TC 1`, with any whitespace around them, name converter 0 and
/// converter 1.
pub proof fn lemma_tc_line_names_its_channel(pre: Seq<char>, post: Seq<char>, digit: char)
    requires
        all_whitespace(pre),
        all_whitespace(post),
        digit == '0' || digit == '1',
    ensures
        parse_spec(pre + seq!['T', 'C', ' ', digit] + post) == Ok::<CommandModel, Sdi12Error>(
            CommandModel::Tc { channel: if digit == '0' { 0 } else { 1 } },
        ),
{
    let line = seq!['T', 'C', ' ', digit];
    lemma_parse_ignores_surrounding_whitespace(pre, line, post);
    reveal_with_fuel(crate::text::trim_start, 2);
    reveal_with_fuel(crate::text::trim_end, 2);
    reveal_with_fuel(first_index, 4);
    assert(line.drop_first() =~= seq!['C', ' ', digit]);
    assert(line.drop_first().drop_first() =~= seq![' ', digit]);
    assert(trim(line) == line);
    assert(first_index(line, ' ') == 2);
    let args = line.subrange(3, 4);
    assert(args =~= seq![digit]);
    assert(trim(args) == args);
    reveal_strlit("PING");
    reveal_strlit("SCAN");
    reveal_strlit("RAW");
    reveal_strlit("TC");
    reveal_strlit("0");
    reveal_strlit("1");
    assert(instruction_of(line) =~= "TC"@);
    assert(instruction_of(line) != "PING"@);
    assert(instruction_of(line) != "SCAN"@);
    assert(instruction_of(line) != "RAW"@);
    if digit == '0' {
        assert(arguments_of(line) =~= "0"@);
    } else {
        assert(arguments_of(line) =~= "1"@);
        assert(arguments_of(line) != "0"@);
    }
}


/// `RAW <c>`, with any whitespace around it, carries `c` as it stands,
/// inner spaces included, where `c` neither starts nor ends with whitespace.
pub proof fn lemma_raw_line_carries_its_command(pre: Seq<char>, c: Seq<char>, post: Seq<char>)
    requires
        all_whitespace(pre),
        all_whitespace(post),
        c.len() > 0,
        !crate::text::is_whitespace(c[0]),
        !crate::text::is_whitespace(c.last()),
    ensures
        parse_spec(pre + (seq!['R', 'A', 'W', ' '] + c) + post) == Ok::<CommandModel, Sdi12Error>(
            CommandModel::Raw { sdi12_cmd: c },
        ),
{
    let line = seq!['R', 'A', 'W', ' '] + c;
    lemma_parse_ignores_surrounding_whitespace(pre, line, post);
    assert(line[0] == 'R');
    assert(line.last() == c.last());
    assert(crate::text::trim_start(line) == line);
    assert(trim(line) == line);
    crate::text::lemma_first_index(line, ' ', 3);
    assert(line.subrange(4, line.len() as int) =~= c);
    assert(crate::text::trim_start(c) == c);
    assert(trim(c) == c);
    reveal_strlit("PING");
    reveal_strlit("SCAN");
    reveal_strlit("RAW");
    assert(instruction_of(line) =~= "RAW"@);
    assert(instruction_of(line) != "PING"@);
    assert(instruction_of(line) != "SCAN"@);
}


/// `SCAN <s>,<e>!`, with any whitespace around it, names `s` and `e` as its
/// start and end addresses.
pub proof fn lemma_scan_line_names_its_addresses(
    pre: Seq<char>,
    start: char,
    end: char,
    post: Seq<char>,
)
    requires
        all_whitespace(pre),
        all_whitespace(post),
        !crate::text::is_whitespace(start),
        !crate::text::is_whitespace(end),
        start != ',',
    ensures
        parse_spec(pre + seq!['S', 'C', 'A', 'N', ' ', start, ',', end, '!'] + post) == Ok::<
            CommandModel,
            Sdi12Error,
        >(CommandModel::Scan { start_addr: start, end_addr: end }),
{
    let line = seq!['S', 'C', 'A', 'N', ' ', start, ',', end, '!'];
    lemma_parse_ignores_surrounding_whitespace(pre, line, post);
    assert(!crate::text::is_whitespace('S'));
    assert(!crate::text::is_whitespace('!'));
    assert(crate::text::trim_start(line) == line);
    assert(trim(line) == line);
    crate::text::lemma_first_index(line, ' ', 4);
    let args = line.subrange(5, 9);
    assert(args =~= seq![start, ',', end, '!']);
    assert(crate::text::trim_start(args) == args);
    assert(trim(args) == args);
    crate::text::lemma_first_index(args, ',', 1);
    let s1 = args.subrange(0, 1);
    assert(s1 =~= seq![start]);
    assert(crate::text::trim_start(s1) == s1);
    assert(trim(s1) == s1);
    let e1 = args.subrange(2, 4);
    assert(e1 =~= seq![end, '!']);
    assert(crate::text::trim_start(e1) == e1);
    assert(trim(e1) == e1);
    reveal_strlit("PING");
    reveal_strlit("SCAN");
    assert(instruction_of(line) =~= "SCAN"@);
    assert("PING"@[0] == 'P');
    assert(instruction_of(line)[0] == 'S');
    assert(instruction_of(line) != "PING"@);
}

} // verus!
