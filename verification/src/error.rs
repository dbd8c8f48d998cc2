//! The bridge's error kinds, their short names and the replies that report
//! them on the serial line.

use vstd::prelude::*;

verus! {

/// What can go wrong while serving a command.
#[derive(Debug, PartialEq, Eq, Structural, Clone, Copy)]
pub enum Sdi12Error {
    Timeout,
    InvalidSDI12Command,
    InvalidSerialCommand,
    InvalidResponse,
    SpiError,
    UartError,
}

/// The bytes of an ASCII text, one per character.
pub open spec fn ascii_bytes(s: Seq<char>) -> Seq<u8> {
    Seq::new(s.len(), |i: int| s[i] as u8)
}

/// Whether every character of `s` is ASCII.
pub open spec fn is_ascii_text(s: Seq<char>) -> bool {
    vstd::utf8::is_ascii_chars(s)
}

/// The bytes of an ASCII string.
pub fn ascii_str_bytes(s: &str) -> (r: &[u8])
    requires
        is_ascii_text(s@),
    ensures
        r@ == ascii_bytes(s@),
{
    proof {
        broadcast use vstd::string::is_ascii_spec_bytes;

        assert(vstd::string::is_ascii(s));
    }
    let b = s.as_bytes();
    assert(b@ =~= ascii_bytes(s@));
    b
}

/// The short name of an error, for diagnostics.
pub open spec fn error_name_text(error: Sdi12Error) -> Seq<char> {
    match error {
        Sdi12Error::Timeout => "timeout"@,
        Sdi12Error::InvalidSDI12Command => "invalid command"@,
        Sdi12Error::InvalidSerialCommand => "invalid serial command"@,
        Sdi12Error::InvalidResponse => "invalid/colliding response"@,
        Sdi12Error::SpiError => "SPI error"@,
        Sdi12Error::UartError => "UART error"@,
    }
}

/// The short name of `error`.
pub fn error_name(error: Sdi12Error) -> (name: &'static str)
    ensures
        name@ == error_name_text(error),
{
    match error {
        Sdi12Error::Timeout => "timeout",
        Sdi12Error::InvalidSDI12Command => "invalid command",
        Sdi12Error::InvalidSerialCommand => "invalid serial command",
        Sdi12Error::InvalidResponse => "invalid/colliding response",
        Sdi12Error::SpiError => "SPI error",
        Sdi12Error::UartError => "UART error",
    }
}

/// The line sent back on the serial port when a command fails with `error`.
pub open spec fn error_reply_text(error: Sdi12Error) -> Seq<char> {
    match error {
        Sdi12Error::Timeout => "SDI12 Timeout\r\n"@,
        Sdi12Error::InvalidSDI12Command => "Invalid SDI12 Command\r\n"@,
        Sdi12Error::InvalidSerialCommand => "Invalid Serial Command\r\n"@,
        Sdi12Error::InvalidResponse => "Invalid SDI12 Response\r\n"@,
        Sdi12Error::SpiError => "TC SPI Error\r\n"@,
        Sdi12Error::UartError => "Uart Error\r\n"@,
    }
}

/// The bytes of the reply that reports `error`.
pub fn error_reply(error: Sdi12Error) -> (r: &'static [u8])
    ensures
        r@ == ascii_bytes(error_reply_text(error)),
{
    let text = match error {
        Sdi12Error::Timeout => "SDI12 Timeout\r\n",
        Sdi12Error::InvalidSDI12Command => "Invalid SDI12 Command\r\n",
        Sdi12Error::InvalidSerialCommand => "Invalid Serial Command\r\n",
        Sdi12Error::InvalidResponse => "Invalid SDI12 Response\r\n",
        Sdi12Error::SpiError => "TC SPI Error\r\n",
        Sdi12Error::UartError => "Uart Error\r\n",
    };
    proof {
        reveal_strlit("SDI12 Timeout\r\n");
        reveal_strlit("Invalid SDI12 Command\r\n");
        reveal_strlit("Invalid Serial Command\r\n");
        reveal_strlit("Invalid SDI12 Response\r\n");
        reveal_strlit("TC SPI Error\r\n");
        reveal_strlit("Uart Error\r\n");
    }
    assert(is_ascii_text(text@));
    ascii_str_bytes(text)
}

/// Distinct errors are reported by distinct replies, so the host can tell
/// every failure apart from the line it receives.
pub proof fn lemma_error_replies_distinct(a: Sdi12Error, b: Sdi12Error)
    requires
        a != b,
    ensures
        error_reply_text(a) != error_reply_text(b),
{
    reveal_strlit("SDI12 Timeout\r\n");
    reveal_strlit("Invalid SDI12 Command\r\n");
    reveal_strlit("Invalid Serial Command\r\n");
    reveal_strlit("Invalid SDI12 Response\r\n");
    reveal_strlit("TC SPI Error\r\n");
    reveal_strlit("Uart Error\r\n");
    let ta = error_reply_text(a);
    let tb = error_reply_text(b);
    if ta.len() == tb.len() {
        assert(ta[0] != tb[0] || ta[14] != tb[14] || ta[10] != tb[10]);
    }
}

} // verus!
