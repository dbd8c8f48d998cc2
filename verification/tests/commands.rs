use sensor_bridge::command::{parse_cmd, SerialCommand};
use sensor_bridge::probe::probe_commands;
use sensor_bridge::error::{error_name, error_reply, Sdi12Error};
use sensor_bridge::text::{char_is_whitespace, find_char, str_equal, trim_str};

#[test]
fn parse_ping() {
    assert_eq!(parse_cmd("PING"), Ok(SerialCommand::Ping));
    assert_eq!(parse_cmd("  PING\r\n"), Ok(SerialCommand::Ping));
    assert_eq!(parse_cmd("PING extra words"), Ok(SerialCommand::Ping));
}

#[test]
fn parse_help() {
    assert_eq!(parse_cmd("HELP\n"), Ok(SerialCommand::Help));
}

#[test]
fn parse_is_case_sensitive() {
    assert_eq!(parse_cmd("ping"), Err(Sdi12Error::InvalidSerialCommand));
    assert_eq!(parse_cmd("Help"), Err(Sdi12Error::InvalidSerialCommand));
}

#[test]
fn parse_empty_and_blank() {
    assert_eq!(parse_cmd(""), Err(Sdi12Error::InvalidSerialCommand));
    assert_eq!(parse_cmd(" \t\r\n "), Err(Sdi12Error::InvalidSerialCommand));
}

#[test]
fn parse_unknown_instruction() {
    assert_eq!(parse_cmd("READ 0"), Err(Sdi12Error::InvalidSerialCommand));
    assert_eq!(parse_cmd("PINGX"), Err(Sdi12Error::InvalidSerialCommand));
}

#[test]
fn parse_scan_addresses() {
    assert_eq!(
        parse_cmd("SCAN 0,9!"),
        Ok(SerialCommand::Scan { start_addr: '0', end_addr: '9' })
    );
    assert_eq!(
        parse_cmd("SCAN  a , c \n"),
        Ok(SerialCommand::Scan { start_addr: 'a', end_addr: 'c' })
    );
    assert_eq!(
        parse_cmd("SCAN 12,34"),
        Ok(SerialCommand::Scan { start_addr: '1', end_addr: '3' })
    );
}

#[test]
fn parse_scan_missing_parts() {
    assert_eq!(parse_cmd("SCAN"), Ok(SerialCommand::Scan { start_addr: ' ', end_addr: ' ' }));
    assert_eq!(parse_cmd("SCAN 0"), Ok(SerialCommand::Scan { start_addr: ' ', end_addr: ' ' }));
    assert_eq!(parse_cmd("SCAN 0,"), Ok(SerialCommand::Scan { start_addr: '0', end_addr: ' ' }));
    assert_eq!(parse_cmd("SCAN ,5"), Ok(SerialCommand::Scan { start_addr: ' ', end_addr: '5' }));
}

#[test]
fn parse_raw() {
    assert_eq!(parse_cmd("RAW 0M!"), Ok(SerialCommand::Raw { sdi12_cmd: "0M!" }));
    assert_eq!(parse_cmd("RAW   0R0!  \r\n"), Ok(SerialCommand::Raw { sdi12_cmd: "0R0!" }));
    assert_eq!(parse_cmd("RAW a b"), Ok(SerialCommand::Raw { sdi12_cmd: "a b" }));
    assert_eq!(parse_cmd("RAW"), Ok(SerialCommand::Raw { sdi12_cmd: "" }));
}

#[test]
fn parse_tc_channels() {
    assert_eq!(parse_cmd("TC 0"), Ok(SerialCommand::Tc { channel: 0 }));
    assert_eq!(parse_cmd("TC 1\r\n"), Ok(SerialCommand::Tc { channel: 1 }));
    assert_eq!(parse_cmd("TC 2"), Err(Sdi12Error::InvalidSerialCommand));
    assert_eq!(parse_cmd("TC"), Err(Sdi12Error::InvalidSerialCommand));
    assert_eq!(parse_cmd("TC 01"), Err(Sdi12Error::InvalidSerialCommand));
}

#[test]
fn parse_splits_at_space_only() {
    assert_eq!(parse_cmd("TC\t0"), Err(Sdi12Error::InvalidSerialCommand));
}

#[test]
fn parse_trims_unicode_whitespace() {
    assert_eq!(parse_cmd("\u{3000}PING\u{2028}"), Ok(SerialCommand::Ping));
}

#[test]
fn trimming_matches_std() {
    for s in ["", "  ", " a ", "\t\nab c\r\n", "\u{A0}x\u{205F}", "x"] {
        assert_eq!(trim_str(s), s.trim());
    }
}

#[test]
fn whitespace_matches_std() {
    for code in 0u32..0x3100 {
        if let Some(c) = char::from_u32(code) {
            assert_eq!(char_is_whitespace(c), c.is_whitespace(), "{:?}", c);
        }
    }
}

#[test]
fn find_and_compare() {
    assert_eq!(find_char("a,b,c", ','), Some(1));
    assert_eq!(find_char("abc", ','), None);
    assert_eq!(find_char("ü,x", ','), Some(1));
    assert!(str_equal("PING", "PING"));
    assert!(!str_equal("PING", "PIN"));
}

#[test]
fn error_names() {
    assert_eq!(error_name(Sdi12Error::Timeout), "timeout");
    assert_eq!(error_name(Sdi12Error::InvalidResponse), "invalid/colliding response");
    assert_eq!(error_name(Sdi12Error::SpiError), "SPI error");
}

#[test]
fn error_replies() {
    assert_eq!(error_reply(Sdi12Error::Timeout), b"SDI12 Timeout\r\n");
    assert_eq!(error_reply(Sdi12Error::InvalidSDI12Command), b"Invalid SDI12 Command\r\n");
    assert_eq!(error_reply(Sdi12Error::InvalidSerialCommand), b"Invalid Serial Command\r\n");
    assert_eq!(error_reply(Sdi12Error::InvalidResponse), b"Invalid SDI12 Response\r\n");
    assert_eq!(error_reply(Sdi12Error::SpiError), b"TC SPI Error\r\n");
    assert_eq!(error_reply(Sdi12Error::UartError), b"Uart Error\r\n");
}

#[test]
fn error_replies_are_distinct() {
    let all = [
        Sdi12Error::Timeout,
        Sdi12Error::InvalidSDI12Command,
        Sdi12Error::InvalidSerialCommand,
        Sdi12Error::InvalidResponse,
        Sdi12Error::SpiError,
        Sdi12Error::UartError,
    ];
    for a in all {
        for b in all {
            assert_eq!(a == b, error_reply(a) == error_reply(b));
        }
    }
}

#[test]
fn surrounding_whitespace_does_not_matter() {
    for line in ["PING", "SCAN 0,9!", "RAW 0M!", "TC 1", "TC 7", "HELP", "nope"] {
        let padded = format!(" \t{}\u{A0}\r\n", line);
        assert_eq!(parse_cmd(&padded), parse_cmd(line));
    }
}

#[test]
fn probe_is_read_only() {
    let cmds = probe_commands();
    assert_eq!(cmds.len(), 21);
    assert_eq!(cmds[0], b"?!".to_vec());
    assert_eq!(cmds[1], b"0!".to_vec());
    assert_eq!(cmds[2], b"0R0!".to_vec());
    assert_eq!(cmds[20], b"9R0!".to_vec());
    assert!(cmds.iter().all(|c| c.len() < 2 || c[1] != b'A'));
}
