//! Answering one serial command. Serving a command alternates between
//! decisions, made here, and bus or converter transactions, which the
//! firmware performs: each decision says what to do next (`Step`) and what
//! the command is waiting for (`Waiting`), and the firmware hands the
//! outcome of each transaction back.

use vstd::prelude::*;
use vstd::string::{StrSliceExecFns, StringSliceAdditionalSpecFns};
use vstd::utf8::{decode_utf8, valid_utf8};

use crate::buffer::{overwrite, Buffer};
use crate::command::{
    lemma_parse_ignores_surrounding_whitespace, parse_cmd, parse_spec, CommandModel, SerialCommand,
};
use crate::error::{
    ascii_bytes, ascii_str_bytes, error_reply, error_reply_text, is_ascii_text, Sdi12Error,
};
use crate::text::{all_whitespace, char_is_whitespace, contains_char, find_char, is_whitespace};
use crate::thermocouple::{
    concat_all, fitting_prefix, hex_digit, lemma_fitting_prefix_all, lemma_pieces_make_text,
    reading_pieces, reading_pieces_of, reading_text,
};

verus! {

/// What to do next to answer a command.
#[derive(Debug, PartialEq, Eq)]
pub enum Step {
    /// Send the first `len` bytes of the output buffer; the command is done.
    Reply(usize),
    /// Send `command` on the SDI-12 bus and put the response in the output
    /// buffer from `offset` on.
    Query { command: Vec<u8>, offset: usize },
    /// Read converter `channel`.
    ReadThermocouple { channel: usize },
    /// The command failed.
    Fail(Sdi12Error),
}

/// A `Step`, with the bytes of a query as a sequence.
pub ghost enum StepModel {
    Reply(nat),
    Query { command: Seq<u8>, offset: nat },
    ReadThermocouple { channel: nat },
    Fail(Sdi12Error),
}

impl View for Step {
    type V = StepModel;

    open spec fn view(&self) -> StepModel {
        match self {
            Step::Reply(n) => StepModel::Reply(*n as nat),
            Step::Query { command, offset } => StepModel::Query {
                command: command@,
                offset: *offset as nat,
            },
            Step::ReadThermocouple { channel } => StepModel::ReadThermocouple {
                channel: *channel as nat,
            },
            Step::Fail(e) => StepModel::Fail(*e),
        }
    }
}

/// What a command in progress waits for.
#[derive(Debug, PartialEq, Eq, Structural, Clone, Copy)]
pub enum Waiting {
    /// Nothing: the command is done.
    Nothing,
    /// The response to a `RAW` command.
    Raw,
    /// The response of address `addr` in a scan up to `end_addr`; `index`
    /// bytes of responses are in the output buffer already.
    Scan { addr: u8, end_addr: u8, index: usize },
    /// A converter reading.
    Thermocouple,
}

/// The character `!` that ends every SDI-12 command.
pub const COMMAND_END: u8 = 0x21;

/// The byte that a scan sends as the address `c`: its code point, cut to
/// eight bits.
pub open spec fn address_of(c: char) -> u8 {
    (c as u32 % 256) as u8
}

/// The byte that a scan sends as the address `c`.
pub fn address_byte(c: char) -> (b: u8)
    ensures
        b == address_of(c),
{
    let code: u32 = c as u32;
    (code % 256) as u8
}

pub open spec fn pong_text() -> Seq<char> {
    "PONG\r\n"@
}

pub open spec fn scan_usage_text() -> Seq<char> {
    "SCAN <START_ADDR>,<END_ADDR>\r\n"@
}

pub open spec fn raw_usage_text() -> Seq<char> {
    "RAW <SDI12_CMD>\r\n"@
}

pub open spec fn help_text() -> Seq<char> {
    "COMMANDS: PING, SCAN <START>,<END>, RAW <SDI_CMD>, TC <0|1>\r\n"@
}

/// Whether a scan names an address that is missing.
pub open spec fn scan_lacks_address(start_addr: char, end_addr: char) -> bool {
    is_whitespace(start_addr) || is_whitespace(end_addr)
}

/// The text that a command line is answered with at once, without any
/// transaction; empty where it needs one or fails.
pub open spec fn fixed_reply(line: Seq<char>) -> Seq<u8> {
    match parse_spec(line) {
        Ok(CommandModel::Ping) => ascii_bytes(pong_text()),
        Ok(CommandModel::Scan { start_addr, end_addr }) => if scan_lacks_address(
            start_addr,
            end_addr,
        ) {
            ascii_bytes(scan_usage_text())
        } else {
            Seq::empty()
        },
        Ok(CommandModel::Raw { sdi12_cmd }) => if sdi12_cmd.len() == 0 {
            ascii_bytes(raw_usage_text())
        } else {
            Seq::empty()
        },
        Ok(CommandModel::Help) => ascii_bytes(help_text()),
        _ => Seq::empty(),
    }
}

/// The first step in answering a command line.
pub open spec fn start_step(line: Seq<char>) -> StepModel {
    match parse_spec(line) {
        Err(e) => StepModel::Fail(e),
        Ok(CommandModel::Scan { start_addr, end_addr }) => if scan_lacks_address(
            start_addr,
            end_addr,
        ) {
            StepModel::Reply(fixed_reply(line).len())
        } else if !contains_char(line, '!') {
            StepModel::Fail(Sdi12Error::InvalidSDI12Command)
        } else {
            StepModel::Query { command: seq![address_of(start_addr), COMMAND_END], offset: 0 }
        },
        Ok(CommandModel::Raw { sdi12_cmd }) => if sdi12_cmd.len() > 0 {
            StepModel::Query { command: vstd::utf8::encode_utf8(sdi12_cmd), offset: 0 }
        } else {
            StepModel::Reply(fixed_reply(line).len())
        },
        Ok(CommandModel::Tc { channel }) => StepModel::ReadThermocouple { channel },
        Ok(_) => StepModel::Reply(fixed_reply(line).len()),
    }
}

/// What a command line waits for after its first step.
pub open spec fn start_waiting(line: Seq<char>) -> Waiting {
    match start_step(line) {
        StepModel::Query { .. } => match parse_spec(line) {
            Ok(CommandModel::Scan { start_addr, end_addr }) => Waiting::Scan {
                addr: address_of(start_addr),
                end_addr: address_of(end_addr),
                index: 0,
            },
            _ => Waiting::Raw,
        },
        StepModel::ReadThermocouple { .. } => Waiting::Thermocouple,
        _ => Waiting::Nothing,
    }
}

/// Writes the ASCII `text` at the start of `output`.
fn put_text(output: &mut Vec<u8>, text: &str) -> (n: usize)
    requires
        is_ascii_text(text@),
        text@.len() <= old(output)@.len(),
    ensures
        n == text@.len(),
        final(output)@ == overwrite(old(output)@, 0, ascii_bytes(text@)),
{
    let bytes = ascii_str_bytes(text);
    let mut whole = Vec::new();
    std::mem::swap(&mut whole, output);
    let mut writer = Buffer::new(whole);
    let _ = writer.write_str(bytes);
    *output = writer.into_bytes();
    bytes.len()
}

/// Starts answering the command line `cmd_str`. Replies that need no
/// transaction are written at the start of `output`.
pub fn start_response(cmd_str: &str, output: &mut Vec<u8>) -> (r: (Step, Waiting))
    requires
        fixed_reply(cmd_str@).len() <= old(output)@.len(),
    ensures
        r.0@ == start_step(cmd_str@),
        r.1 == start_waiting(cmd_str@),
        final(output)@ == overwrite(old(output)@, 0, fixed_reply(cmd_str@)),
        final(output)@.len() == old(output)@.len(),
        r.0 matches Step::Reply(n) ==> n <= final(output)@.len(),
        r.0 matches Step::Query { offset, .. } ==> offset <= final(output)@.len(),
{
    proof {
        reveal_strlit("PONG\r\n");
        reveal_strlit("SCAN <START_ADDR>,<END_ADDR>\r\n");
        reveal_strlit("RAW <SDI12_CMD>\r\n");
        reveal_strlit("COMMANDS: PING, SCAN <START>,<END>, RAW <SDI_CMD>, TC <0|1>\r\n");
    }
    let ghost before = output@;
    assert(overwrite(before, 0, Seq::empty()) =~= before);
    match parse_cmd(cmd_str) {
        Err(e) => (Step::Fail(e), Waiting::Nothing),
        Ok(SerialCommand::Ping) => {
            let text = "PONG\r\n";
            assert(is_ascii_text(text@));
            let n = put_text(output, text);
            (Step::Reply(n), Waiting::Nothing)
        },
        Ok(SerialCommand::Scan { start_addr, end_addr }) => {
            if char_is_whitespace(start_addr) || char_is_whitespace(end_addr) {
                let text = "SCAN <START_ADDR>,<END_ADDR>\r\n";
                assert(is_ascii_text(text@));
                let n = put_text(output, text);
                return (Step::Reply(n), Waiting::Nothing);
            }
            match find_char(cmd_str, '!') {
                None => {
                    return (Step::Fail(Sdi12Error::InvalidSDI12Command), Waiting::Nothing);
                },
                Some(k) => {
                    assert(cmd_str@[k as int] == '!');
                },
            }
            let addr = address_byte(start_addr);
            let end_addr = address_byte(end_addr);
            let command = vec![addr, COMMAND_END];
            assert(command@ =~= seq![addr, COMMAND_END]);
            assert(contains_char(cmd_str@, '!'));
            assert(start_step(cmd_str@) == StepModel::Query { command: command@, offset: 0 });
            (Step::Query { command, offset: 0 }, Waiting::Scan { addr, end_addr, index: 0 })
        },
        Ok(SerialCommand::Raw { sdi12_cmd }) => {
            if sdi12_cmd.unicode_len() > 0 {
                let command = sdi12_cmd.as_bytes_vec();
                assert(command@ == vstd::utf8::encode_utf8(sdi12_cmd@));
                assert(start_step(cmd_str@) == StepModel::Query { command: command@, offset: 0 });
                (Step::Query { command, offset: 0 }, Waiting::Raw)
            } else {
                let text = "RAW <SDI12_CMD>\r\n";
                assert(is_ascii_text(text@));
                let n = put_text(output, text);
                (Step::Reply(n), Waiting::Nothing)
            }
        },
        Ok(SerialCommand::Tc { channel }) => (
            Step::ReadThermocouple { channel },
            Waiting::Thermocouple,
        ),
        Ok(SerialCommand::Help) => {
            let text = "COMMANDS: PING, SCAN <START>,<END>, RAW <SDI_CMD>, TC <0|1>\r\n";
            assert(is_ascii_text(text@));
            let n = put_text(output, text);
            (Step::Reply(n), Waiting::Nothing)
        },
    }
}

/// Where the response to the pending query goes in the output buffer.
pub open spec fn query_offset(waiting: Waiting) -> nat {
    match waiting {
        Waiting::Scan { index, .. } => index as nat,
        _ => 0,
    }
}

/// How many bytes a scan counts from the answer of one address: all the
/// response, nothing for a device that stays silent, or `None` where the
/// scan fails.
pub open spec fn scan_gain(result: Result<usize, Sdi12Error>) -> Option<nat> {
    match result {
        Ok(n) => Some(n as nat),
        Err(Sdi12Error::Timeout) => Some(0),
        Err(_) => None,
    }
}

/// The step after a query ends with `result`.
pub open spec fn query_step(waiting: Waiting, result: Result<usize, Sdi12Error>) -> StepModel {
    match waiting {
        Waiting::Scan { addr, end_addr, index } => match scan_gain(result) {
            None => StepModel::Fail(result->Err_0),
            Some(n) => if addr >= end_addr {
                StepModel::Reply((index + n) as nat)
            } else {
                StepModel::Query {
                    command: seq![(addr + 1) as u8, COMMAND_END],
                    offset: (index + n) as nat,
                }
            },
        },
        _ => match result {
            Ok(n) => StepModel::Reply(n as nat),
            Err(e) => StepModel::Fail(e),
        },
    }
}

/// What is waited for after a query ends with `result`.
pub open spec fn query_waiting(waiting: Waiting, result: Result<usize, Sdi12Error>) -> Waiting {
    match waiting {
        Waiting::Scan { addr, end_addr, index } => match scan_gain(result) {
            Some(n) => if addr >= end_addr {
                Waiting::Nothing
            } else {
                Waiting::Scan { addr: (addr + 1) as u8, end_addr, index: (index + n) as usize }
            },
            None => Waiting::Nothing,
        },
        _ => Waiting::Nothing,
    }
}

/// Takes the outcome of the pending query: the number of response bytes
/// put in the output buffer at its offset, or the error.
pub fn query_done(waiting: Waiting, result: Result<usize, Sdi12Error>, output_len: usize) -> (r: (
    Step,
    Waiting,
))
    requires
        waiting is Raw || waiting is Scan,
        query_offset(waiting) <= output_len,
        result matches Ok(n) ==> query_offset(waiting) + n <= output_len,
    ensures
        r.0@ == query_step(waiting, result),
        r.1 == query_waiting(waiting, result),
        r.1 matches Waiting::Scan { index, .. } ==> index <= output_len,
        r.0 matches Step::Reply(n) ==> n <= output_len,
        r.0 matches Step::Query { offset, .. } ==> offset <= output_len,
{
    match waiting {
        Waiting::Scan { addr, end_addr, index } => {
            let gained = match result {
                Ok(n) => n,
                Err(Sdi12Error::Timeout) => 0,
                Err(e) => return (Step::Fail(e), Waiting::Nothing),
            };
            let index = index + gained;
            if addr >= end_addr {
                (Step::Reply(index), Waiting::Nothing)
            } else {
                let next = addr + 1;
                let command = vec![next, COMMAND_END];
                assert(command@ =~= seq![next, COMMAND_END]);
                (
                    Step::Query { command, offset: index },
                    Waiting::Scan { addr: next, end_addr, index },
                )
            }
        },
        _ => match result {
            Ok(n) => (Step::Reply(n), Waiting::Nothing),
            Err(e) => (Step::Fail(e), Waiting::Nothing),
        },
    }
}

/// What a command waits for after the queries that ended with `results`,
/// one after another.
pub open spec fn waiting_after(waiting: Waiting, results: Seq<Result<usize, Sdi12Error>>) -> Waiting
    decreases results.len(),
{
    if results.len() == 0 {
        waiting
    } else {
        waiting_after(query_waiting(waiting, results[0]), results.drop_first())
    }
}

/// The bytes that a scan counts from `results`.
pub open spec fn total_gain(results: Seq<Result<usize, Sdi12Error>>) -> nat
    decreases results.len(),
{
    if results.len() == 0 {
        0
    } else {
        match scan_gain(results[0]) {
            Some(n) => n + total_gain(results.drop_first()),
            None => 0,
        }
    }
}

/// A scan goes through its addresses one by one, upwards: after the
/// answers of `results.len()` addresses, none of them a failure, it waits
/// for the next address, with everything gathered so far counted.
pub proof fn lemma_scan_progress(
    addr: u8,
    end_addr: u8,
    index: usize,
    results: Seq<Result<usize, Sdi12Error>>,
)
    requires
        addr + results.len() <= end_addr,
        forall|i: int| 0 <= i < results.len() ==> (#[trigger] scan_gain(results[i])) is Some,
        index + total_gain(results) <= usize::MAX,
    ensures
        waiting_after(Waiting::Scan { addr, end_addr, index }, results) == (Waiting::Scan {
            addr: (addr + results.len()) as u8,
            end_addr,
            index: (index + total_gain(results)) as usize,
        }),
    decreases results.len(),
{
    if results.len() > 0 {
        let r0 = results[0];
        assert(scan_gain(r0) is Some);
        let n = scan_gain(r0)->0;
        let rest = results.drop_first();
        assert forall|i: int| 0 <= i < rest.len() implies (#[trigger] scan_gain(rest[i])) is Some by {
            assert(rest[i] == results[i + 1]);
        }
        lemma_scan_progress((addr + 1) as u8, end_addr, (index + n) as usize, rest);
    }
}

/// The last address of a scan ends it: the reply is everything gathered,
/// and nothing more is queried.
pub proof fn lemma_scan_ends(end_addr: u8, index: usize, result: Result<usize, Sdi12Error>)
    requires
        scan_gain(result) is Some,
    ensures
        query_step(Waiting::Scan { addr: end_addr, end_addr, index }, result) == StepModel::Reply(
            (index + scan_gain(result)->0) as nat,
        ),
        query_waiting(Waiting::Scan { addr: end_addr, end_addr, index }, result)
            == Waiting::Nothing,
{
}

/// Each address of a scan is asked with the two bytes `<address>!`, the
/// next address right after the one before.
pub proof fn lemma_scan_asks_next_address(
    addr: u8,
    end_addr: u8,
    index: usize,
    result: Result<usize, Sdi12Error>,
)
    requires
        addr < end_addr,
        scan_gain(result) is Some,
    ensures
        query_step(Waiting::Scan { addr, end_addr, index }, result) == (StepModel::Query {
            command: seq![(addr + 1) as u8, COMMAND_END],
            offset: (index + scan_gain(result)->0) as nat,
        }),
{
}

/// The step after a converter reading; `None` where the SPI transfer
/// failed.
pub open spec fn reading_step(result: Option<(i32, u8)>, output_len: nat) -> StepModel {
    match result {
        None => StepModel::Fail(Sdi12Error::SpiError),
        Some((temperature, fault)) => if reading_text(temperature, fault).len() <= output_len {
            StepModel::Reply(reading_text(temperature, fault).len())
        } else {
            StepModel::Fail(Sdi12Error::InvalidResponse)
        },
    }
}

/// The output buffer after a converter reading: the pieces of the line
/// that reports it are written one after another from the start, up to the
/// first piece that does not fit in what is left. Where the whole line does
/// not fit, the pieces before that one stay written.
pub open spec fn reading_output(result: Option<(i32, u8)>, output: Seq<u8>) -> Seq<u8> {
    match result {
        Some((temperature, fault)) => overwrite(
            output,
            0,
            fitting_prefix(reading_pieces(temperature, fault), output.len() as int),
        ),
        None => output,
    }
}

/// Takes the outcome of a converter reading and writes the line that
/// reports it at the start of `output`, piece by piece. Where the line does
/// not fit, the pieces that fitted before the first one that did not stay
/// written and the step is `Fail(InvalidResponse)`.
pub fn reading_done(result: Option<(i32, u8)>, output: &mut Vec<u8>) -> (r: Step)
    ensures
        r@ == reading_step(result, old(output)@.len()),
        final(output)@ == reading_output(result, old(output)@),
        final(output)@.len() == old(output)@.len(),
        r matches Step::Reply(n) ==> n <= final(output)@.len(),
{
    match result {
        None => {
            assert(overwrite(output@, 0, Seq::empty()) =~= output@);
            Step::Fail(Sdi12Error::SpiError)
        },
        Some((temperature, fault)) => {
            let pieces = reading_pieces_of(temperature, fault);
            let ghost ps = reading_pieces(temperature, fault);
            let ghost before = output@;
            let ghost cap = before.len() as int;
            let mut whole = Vec::new();
            std::mem::swap(&mut whole, output);
            let mut writer = Buffer::new(whole);
            let ghost mut done: Seq<u8> = Seq::empty();
            assert(overwrite(before, 0, done) =~= before);
            assert(ps.skip(0) =~= ps);
            let mut i: usize = 0;
            let mut failed = false;
            while i < pieces.len() && !failed
                invariant
                    i <= pieces@.len(),
                    pieces@.len() == ps.len(),
                    forall|j: int| 0 <= j < pieces@.len() ==> #[trigger] pieces@[j]@ == ps[j],
                    cap == before.len(),
                    writer.contents() == overwrite(before, 0, done),
                    writer.contents().len() == cap,
                    writer.written() == done.len(),
                    done.len() <= cap,
                    !failed ==> fitting_prefix(ps, cap) == done + fitting_prefix(
                        ps.skip(i as int),
                        cap - done.len(),
                    ),
                    !failed ==> concat_all(ps) == done + concat_all(ps.skip(i as int)),
                    failed ==> fitting_prefix(ps, cap) == done && concat_all(ps).len() > cap,
                decreases pieces@.len() - i, (if failed {
                    0int
                } else {
                    1int
                }),
            {
                let ghost rest = ps.skip(i as int);
                assert(rest[0] == ps[i as int]);
                assert(rest.drop_first() =~= ps.skip(i + 1));
                let ghost room = cap - done.len();
                let ghost contents = writer.contents();
                match writer.write_str(pieces[i].as_slice()) {
                    Ok(()) => {
                        proof {
                            assert(overwrite(contents, done.len() as int, ps[i as int])
                                =~= overwrite(before, 0, done + ps[i as int]));
                            assert(done + (ps[i as int] + fitting_prefix(
                                ps.skip(i + 1),
                                room - ps[i as int].len(),
                            )) =~= (done + ps[i as int]) + fitting_prefix(
                                ps.skip(i + 1),
                                room - ps[i as int].len(),
                            ));
                            assert(done + (ps[i as int] + concat_all(ps.skip(i + 1))) =~= (done
                                + ps[i as int]) + concat_all(ps.skip(i + 1)));
                            done = done + ps[i as int];
                        }
                        i = i + 1;
                    },
                    Err(()) => {
                        assert(done + Seq::<u8>::empty() =~= done);
                        failed = true;
                    },
                }
            }
            proof {
                if !failed {
                    assert(ps.skip(i as int).len() == 0);
                    assert(done + Seq::<u8>::empty() =~= done);
                }
                lemma_pieces_make_text(temperature, fault);
            }
            let n = writer.len();
            *output = writer.into_bytes();
            if failed {
                Step::Fail(Sdi12Error::InvalidResponse)
            } else {
                Step::Reply(n)
            }
        },
    }
}

/// The bytes sent back on the serial port once a command is answered: the
/// reply, or the line that reports the error; an empty reply is reported
/// as an invalid SDI-12 command.
pub open spec fn reply_spec(result: Result<usize, Sdi12Error>, output: Seq<u8>) -> Seq<u8> {
    match result {
        Ok(n) => if n > 0 {
            output.subrange(0, n as int)
        } else {
            ascii_bytes(error_reply_text(Sdi12Error::InvalidSDI12Command))
        },
        Err(e) => ascii_bytes(error_reply_text(e)),
    }
}

/// The bytes to send back for the outcome of a command.
pub fn reply_for(result: Result<usize, Sdi12Error>, output: &[u8]) -> (reply: Vec<u8>)
    requires
        result matches Ok(n) ==> n <= output@.len(),
    ensures
        reply@ == reply_spec(result, output@),
{
    let (source, n) = match result {
        Ok(n) if n > 0 => (output, n),
        Ok(_) => {
            let text = error_reply(Sdi12Error::InvalidSDI12Command);
            (text, text.len())
        },
        Err(e) => {
            let text = error_reply(e);
            (text, text.len())
        },
    };
    let mut reply = Vec::new();
    let mut i: usize = 0;
    while i < n
        invariant
            n <= source@.len(),
            i <= n,
            reply@ == source@.subrange(0, i as int),
        decreases n - i,
    {
        reply.push(source[i]);
        i = i + 1;
        assert(reply@ =~= source@.subrange(0, i as int));
    }
    proof {
        if !(result matches Ok(k) && k > 0) {
            assert(source@.subrange(0, n as int) =~= source@);
        }
    }
    reply
}

/// `bytes` as text, where they are valid UTF-8.
#[verifier::external_body]
fn utf8_text(bytes: &[u8]) -> (r: Option<&str>)
    ensures
        r is Some <==> valid_utf8(bytes@),
        r matches Some(s) ==> s.spec_bytes() == bytes@,
{
    core::str::from_utf8(bytes).ok()
}

/// The text of a command received as bytes; `InvalidSDI12Command` where
/// they are not valid UTF-8.
pub fn command_text(bytes: &[u8]) -> (r: Result<&str, Sdi12Error>)
    ensures
        r is Ok <==> valid_utf8(bytes@),
        r matches Ok(s) ==> s@ == decode_utf8(bytes@),
        r matches Err(e) ==> e == Sdi12Error::InvalidSDI12Command,
{
    match utf8_text(bytes) {
        Some(s) => {
            proof {
                vstd::utf8::encode_utf8_decode_utf8(s@);
            }
            Ok(s)
        },
        None => Err(Sdi12Error::InvalidSDI12Command),
    }
}


/// Whitespace before or after a command line changes neither the first
/// step of its answer, nor what it then waits for, nor the reply written at
/// once: a line as a terminal sends it, with its line end, is answered as
/// the bare command.
pub proof fn lemma_start_ignores_surrounding_whitespace(
    pre: Seq<char>,
    line: Seq<char>,
    post: Seq<char>,
)
    requires
        all_whitespace(pre),
        all_whitespace(post),
    ensures
        start_step(pre + line + post) == start_step(line),
        start_waiting(pre + line + post) == start_waiting(line),
        fixed_reply(pre + line + post) == fixed_reply(line),
{
    lemma_parse_ignores_surrounding_whitespace(pre, line, post);
    let whole = pre + line + post;
    assert(!is_whitespace('!'));
    if contains_char(line, '!') {
        let i = choose|i: int| 0 <= i < line.len() && line[i] == '!';
        assert(whole[pre.len() + i] == line[i]);
    }
    if contains_char(whole, '!') {
        let j = choose|j: int| 0 <= j < whole.len() && whole[j] == '!';
        if j < pre.len() {
            assert(is_whitespace(pre[j]));
            assert(false);
        } else if j >= pre.len() + line.len() {
            assert(whole[j] == post[j - pre.len() - line.len()]);
            assert(is_whitespace(post[j - pre.len() - line.len()]));
            assert(false);
        } else {
            assert(line[j - pre.len()] == whole[j]);
        }
    }
}

/// A scan line that names both addresses and holds a `!` anywhere starts
/// by asking the start address, `<start>!`, with nothing gathered yet.
pub proof fn lemma_scan_starts_at_start_address(line: Seq<char>, i: int)
    requires
        parse_spec(line) matches Ok(CommandModel::Scan { start_addr, end_addr }) && !is_whitespace(
            start_addr,
        ) && !is_whitespace(end_addr),
        0 <= i < line.len(),
        line[i] == '!',
    ensures
        ({
            let (s, e) = (parse_spec(line)->Ok_0->start_addr, parse_spec(line)->Ok_0->end_addr);
            &&& start_step(line) == (StepModel::Query {
                command: seq![address_of(s), COMMAND_END],
                offset: 0,
            })
            &&& start_waiting(line) == (Waiting::Scan {
                addr: address_of(s),
                end_addr: address_of(e),
                index: 0,
            })
        }),
{
    assert(contains_char(line, '!'));
}

/// A `RAW` line with a command sends exactly that command's bytes on the
/// bus (they decode back to the command) and waits for the device's
/// response; only a `RAW` line without a command gets the usage text.
pub proof fn lemma_raw_sends_its_command(line: Seq<char>)
    requires
        parse_spec(line) is Ok,
        parse_spec(line)->Ok_0 is Raw,
    ensures
        ({
            let c = parse_spec(line)->Ok_0->sdi12_cmd;
            &&& c.len() > 0 ==> {
                &&& start_step(line) matches StepModel::Query { command, offset }
                &&& offset == 0
                &&& decode_utf8(command) == c
                &&& command == vstd::utf8::encode_utf8(c)
                &&& start_waiting(line) == Waiting::Raw
                &&& fixed_reply(line).len() == 0
            }
            &&& c.len() == 0 ==> {
                &&& start_step(line) == StepModel::Reply(fixed_reply(line).len())
                &&& fixed_reply(line) == ascii_bytes(raw_usage_text())
                &&& start_waiting(line) == Waiting::Nothing
            }
        }),
{
    let c = parse_spec(line)->Ok_0->sdi12_cmd;
    vstd::utf8::encode_utf8_decode_utf8(c);
}

/// A `TC` line reads the converter it names and then waits for that
/// reading.
pub proof fn lemma_tc_reads_its_channel(line: Seq<char>)
    requires
        parse_spec(line) is Ok,
        parse_spec(line)->Ok_0 is Tc,
    ensures
        start_step(line) == (StepModel::ReadThermocouple {
            channel: parse_spec(line)->Ok_0->channel,
        }),
        start_waiting(line) == Waiting::Thermocouple,
        fixed_reply(line).len() == 0,
{
}

/// During a scan, an answer that fails otherwise than by staying silent
/// ends the command with that very error, whatever was gathered before.
/// So does any error of a `RAW` query.
pub proof fn lemma_query_error_fails(
    waiting: Waiting,
    e: Sdi12Error,
)
    requires
        waiting is Raw || waiting is Scan,
        waiting is Scan ==> e != Sdi12Error::Timeout,
    ensures
        query_step(waiting, Err(e)) == StepModel::Fail(e),
        query_waiting(waiting, Err(e)) == Waiting::Nothing,
{
}

/// A device that stays silent during a scan adds nothing and does not stop
/// the scan; only the last address ends it.
pub proof fn lemma_scan_skips_silent_address(addr: u8, end_addr: u8, index: usize)
    ensures
        addr < end_addr ==> query_step(Waiting::Scan { addr, end_addr, index }, Err(Sdi12Error::Timeout))
            == (StepModel::Query { command: seq![(addr + 1) as u8, COMMAND_END], offset: index as nat }),
        addr >= end_addr ==> query_step(Waiting::Scan { addr, end_addr, index }, Err(Sdi12Error::Timeout))
            == StepModel::Reply(index as nat),
{
}

/// Whenever the line that reports a reading fits, the reply is exactly the
/// line that `format_reading` gives for the same reading and status.
pub proof fn lemma_reading_reply_is_the_line(temperature: i32, fault: u8, output: Seq<u8>)
    requires
        reading_text(temperature, fault).len() <= output.len(),
    ensures
        reading_step(Some((temperature, fault)), output.len()) == StepModel::Reply(
            reading_text(temperature, fault).len(),
        ),
        reading_output(Some((temperature, fault)), output).len() == output.len(),
        reading_output(Some((temperature, fault)), output).subrange(
            0,
            reading_text(temperature, fault).len() as int,
        ) == reading_text(temperature, fault),
{
    lemma_pieces_make_text(temperature, fault);
    lemma_fitting_prefix_all(reading_pieces(temperature, fault), output.len() as int);
    let t = reading_text(temperature, fault);
    assert(overwrite(output, 0, t).subrange(0, t.len() as int) =~= t);
}

/// A reading with any fault bit set is never reported as a temperature:
/// the reply is `TC Fault 0x`, the status in two upper-case hexadecimal
/// digits, and the line end, fifteen bytes in all.
pub proof fn lemma_fault_is_reported(temperature: i32, fault: u8, output: Seq<u8>)
    requires
        fault != 0,
        output.len() >= 15,
    ensures
        reading_step(Some((temperature, fault)), output.len()) == StepModel::Reply(15),
        reading_output(Some((temperature, fault)), output).subrange(0, 15) == ascii_bytes(
            "TC Fault 0x"@,
        ) + seq![hex_digit(fault as nat / 16), hex_digit(fault as nat % 16), 13u8, 10u8],
{
    reveal_strlit("TC Fault 0x");
    let t = reading_text(temperature, fault);
    assert(t.len() == 15);
    lemma_reading_reply_is_the_line(temperature, fault, output);
    assert(t =~= ascii_bytes("TC Fault 0x"@) + seq![
        hex_digit(fault as nat / 16),
        hex_digit(fault as nat % 16),
        13u8,
        10u8,
    ]);
}

/// A reading with a clear status is reported as a temperature: the reply
/// starts with a minus sign or a digit, never with the fault label.
pub proof fn lemma_clear_status_is_a_temperature(temperature: i32, output: Seq<u8>)
    requires
        reading_text(temperature, 0).len() <= output.len(),
    ensures
        reading_step(Some((temperature, 0u8)), output.len()) is Reply,
        ({
            let first = reading_output(Some((temperature, 0u8)), output)[0];
            first == 45u8 || 48u8 <= first <= 57u8
        }),
{
    lemma_reading_reply_is_the_line(temperature, 0, output);
    crate::thermocouple::lemma_decimal_starts_with_digit(
        crate::thermocouple::whole_degrees(temperature),
    );
    let t = reading_text(temperature, 0);
    assert(reading_output(Some((temperature, 0u8)), output).subrange(0, t.len() as int)[0]
        == t[0]);
}


/// `SCAN <s>,<e>!` as a terminal sends it, whitespace and line end
/// included, starts the scan at `s`: it asks `<s>!` first and then waits
/// for that answer, with `e` as the last address.
pub proof fn lemma_scan_line_starts_scan(pre: Seq<char>, start: char, end: char, post: Seq<char>)
    requires
        all_whitespace(pre),
        all_whitespace(post),
        !is_whitespace(start),
        !is_whitespace(end),
        start != ',',
    ensures
        ({
            let line = pre + seq!['S', 'C', 'A', 'N', ' ', start, ',', end, '!'] + post;
            &&& start_step(line) == (StepModel::Query {
                command: seq![address_of(start), COMMAND_END],
                offset: 0,
            })
            &&& start_waiting(line) == (Waiting::Scan {
                addr: address_of(start),
                end_addr: address_of(end),
                index: 0,
            })
        }),
{
    let core = seq!['S', 'C', 'A', 'N', ' ', start, ',', end, '!'];
    let line = pre + core + post;
    crate::command::lemma_scan_line_names_its_addresses(pre, start, end, post);
    let k: int = pre.len() as int + 8;
    assert(line[k] == core[8]);
    lemma_scan_starts_at_start_address(line, k);
}

} // verus!
