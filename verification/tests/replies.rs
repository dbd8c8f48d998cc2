use sensor_bridge::buffer::Buffer;
use sensor_bridge::error::Sdi12Error;
use sensor_bridge::response::{
    command_text, query_done, reading_done, reply_for, start_response, Step, Waiting,
};
use sensor_bridge::thermocouple::{
    configuration, decode_temperature, format_reading, is_channel, read_frame, reading_pieces_of,
    register_write_frame,
};

fn text(out: &[u8], n: usize) -> &str {
    std::str::from_utf8(&out[..n]).unwrap()
}

#[test]
fn ping_gets_pong() {
    let mut out = vec![0u8; 256];
    let (step, waiting) = start_response("PING\r\n", &mut out);
    assert_eq!(step, Step::Reply(6));
    assert_eq!(waiting, Waiting::Nothing);
    assert_eq!(text(&out, 6), "PONG\r\n");
}

#[test]
fn help_lists_commands() {
    let mut out = vec![0u8; 256];
    let (step, _) = start_response("HELP", &mut out);
    assert_eq!(step, Step::Reply(61));
    assert_eq!(text(&out, 61), "COMMANDS: PING, SCAN <START>,<END>, RAW <SDI_CMD>, TC <0|1>\r\n");
}

#[test]
fn usage_replies() {
    let mut out = vec![0u8; 64];
    assert_eq!(start_response("SCAN 0", &mut out).0, Step::Reply(30));
    assert_eq!(text(&out, 30), "SCAN <START_ADDR>,<END_ADDR>\r\n");
    assert_eq!(start_response("RAW", &mut out).0, Step::Reply(17));
    assert_eq!(text(&out, 17), "RAW <SDI12_CMD>\r\n");
}

#[test]
fn parse_errors_fail() {
    let mut out = vec![7u8; 8];
    assert_eq!(
        start_response("NOPE", &mut out),
        (Step::Fail(Sdi12Error::InvalidSerialCommand), Waiting::Nothing)
    );
    assert_eq!(out, vec![7u8; 8]);
}

#[test]
fn scan_needs_bang() {
    let mut out = vec![0u8; 64];
    assert_eq!(
        start_response("SCAN 0,2", &mut out).0,
        Step::Fail(Sdi12Error::InvalidSDI12Command)
    );
}

#[test]
fn scan_walks_addresses() {
    let mut out = vec![0u8; 64];
    let (step, waiting) = start_response("SCAN 0,2!", &mut out);
    assert_eq!(step, Step::Query { command: vec![b'0', b'!'], offset: 0 });
    assert_eq!(waiting, Waiting::Scan { addr: b'0', end_addr: b'2', index: 0 });
    // address 0 answers "0\r\n"
    let (step, waiting) = query_done(waiting, Ok(3), out.len());
    assert_eq!(step, Step::Query { command: vec![b'1', b'!'], offset: 3 });
    // address 1 stays silent
    let (step, waiting) = query_done(waiting, Err(Sdi12Error::Timeout), out.len());
    assert_eq!(step, Step::Query { command: vec![b'2', b'!'], offset: 3 });
    // address 2 answers "2\r\n"
    let (step, waiting) = query_done(waiting, Ok(3), out.len());
    assert_eq!(step, Step::Reply(6));
    assert_eq!(waiting, Waiting::Nothing);
}

#[test]
fn scan_stops_on_bad_response() {
    let waiting = Waiting::Scan { addr: b'0', end_addr: b'9', index: 0 };
    assert_eq!(
        query_done(waiting, Err(Sdi12Error::InvalidResponse), 64),
        (Step::Fail(Sdi12Error::InvalidResponse), Waiting::Nothing)
    );
}

#[test]
fn scan_with_start_after_end_queries_once() {
    let mut out = vec![0u8; 64];
    let (step, waiting) = start_response("SCAN 5,1!", &mut out);
    assert_eq!(step, Step::Query { command: vec![b'5', b'!'], offset: 0 });
    assert_eq!(query_done(waiting, Ok(3), 64).0, Step::Reply(3));
}

#[test]
fn scan_address_is_cut_to_a_byte() {
    let mut out = vec![0u8; 64];
    let (step, _) = start_response("SCAN \u{130},\u{131}!", &mut out);
    assert_eq!(step, Step::Query { command: vec![0x30, b'!'], offset: 0 });
}

#[test]
fn raw_query_and_reply() {
    let mut out = vec![0u8; 64];
    let (step, waiting) = start_response("RAW 0M!", &mut out);
    assert_eq!(step, Step::Query { command: b"0M!".to_vec(), offset: 0 });
    assert_eq!(waiting, Waiting::Raw);
    assert_eq!(query_done(waiting, Ok(9), 64).0, Step::Reply(9));
    assert_eq!(
        query_done(Waiting::Raw, Err(Sdi12Error::Timeout), 64).0,
        Step::Fail(Sdi12Error::Timeout)
    );
}

#[test]
fn raw_sends_utf8_bytes() {
    let mut out = vec![0u8; 64];
    let (step, _) = start_response("RAW é!", &mut out);
    assert_eq!(step, Step::Query { command: "é!".as_bytes().to_vec(), offset: 0 });
}

#[test]
fn tc_reads_the_converter() {
    let mut out = vec![0u8; 64];
    let (step, waiting) = start_response("TC 1", &mut out);
    assert_eq!(step, Step::ReadThermocouple { channel: 1 });
    assert_eq!(waiting, Waiting::Thermocouple);
    let step = reading_done(Some((3200, 0)), &mut out);
    assert_eq!(step, Step::Reply(9));
    assert_eq!(text(&out, 9), "25.0000\r\n");
}

#[test]
fn tc_reports_faults_and_spi_errors() {
    let mut out = vec![0u8; 64];
    assert_eq!(reading_done(Some((0, 0x2A)), &mut out), Step::Reply(15));
    assert_eq!(text(&out, 15), "TC Fault 0x2A\r\n");
    assert_eq!(reading_done(None, &mut out), Step::Fail(Sdi12Error::SpiError));
}

#[test]
fn tc_reply_that_does_not_fit_keeps_the_pieces_that_fitted() {
    let mut out = vec![1u8; 4];
    assert_eq!(reading_done(Some((3200, 0)), &mut out), Step::Fail(Sdi12Error::InvalidResponse));
    assert_eq!(out, b"25.0".to_vec());

    let mut out = vec![1u8; 8];
    assert_eq!(reading_done(Some((3200, 0)), &mut out), Step::Fail(Sdi12Error::InvalidResponse));
    assert_eq!(out, b"25.0000\x01".to_vec());

    let mut out = vec![1u8; 2];
    assert_eq!(reading_done(Some((-3264, 0)), &mut out), Step::Fail(Sdi12Error::InvalidResponse));
    assert_eq!(out, b"-\x01".to_vec());

    let mut out = vec![1u8; 12];
    assert_eq!(reading_done(Some((0, 0x2A)), &mut out), Step::Fail(Sdi12Error::InvalidResponse));
    assert_eq!(out, b"TC Fault 0x\x01".to_vec());

    let mut out = vec![1u8; 12];
    assert_eq!(reading_done(Some((0, 0x05)), &mut out), Step::Fail(Sdi12Error::InvalidResponse));
    assert_eq!(out, b"TC Fault 0x0".to_vec());
}

#[test]
fn reading_pieces_make_the_line() {
    for (t, f) in [(3200, 0u8), (-1, 0), (0, 0), (127, 0), (-3264, 0), (5, 0x01), (5, 0xFF)] {
        let joined: Vec<u8> = reading_pieces_of(t, f).concat();
        assert_eq!(joined, format_reading(t, f));
    }
    assert_eq!(
        reading_pieces_of(1, 0),
        vec![vec![], b"0".to_vec(), b".".to_vec(), b"0".to_vec(), b"0".to_vec(), b"78".to_vec(), b"\r\n".to_vec()]
    );
}

#[test]
fn temperature_text() {
    assert_eq!(format_reading(0, 0), b"0.0000\r\n".to_vec());
    assert_eq!(format_reading(1, 0), b"0.0078\r\n".to_vec());
    assert_eq!(format_reading(-1, 0), b"-0.0078\r\n".to_vec());
    assert_eq!(format_reading(-3264, 0), b"-25.5000\r\n".to_vec());
    assert_eq!(format_reading(130 * 128 + 64, 0), b"130.5000\r\n".to_vec());
    assert_eq!(format_reading(i32::MIN, 0), b"-16777216.0000\r\n".to_vec());
    assert_eq!(format_reading(127, 0), b"0.9921\r\n".to_vec());
    assert_eq!(format_reading(5, 0x01), b"TC Fault 0x01\r\n".to_vec());
    assert_eq!(format_reading(5, 0xFF), b"TC Fault 0xFF\r\n".to_vec());
}

#[test]
fn temperature_decoding() {
    // 25 degrees: 25 * 128 = 3200 = 0x0C80, shifted left by five bits.
    assert_eq!(decode_temperature([0, 0x01, 0x90, 0x00, 0]), (3200, 0));
    // -0.25 degrees: -32 in 1/128 degree, i.e. -1024 in the 24-bit register.
    assert_eq!(decode_temperature([0, 0xFF, 0xFC, 0x00, 0x04]), (-32, 0x04));
    // the low five bits are dropped, rounding towards minus infinity
    assert_eq!(decode_temperature([0, 0xFF, 0xFF, 0xFF, 0]), (-1, 0));
    assert_eq!(decode_temperature([0, 0x00, 0x00, 0x1F, 0]), (0, 0));
    for d in [[0u8, 0x80, 0, 0, 0], [0, 0x7F, 0xFF, 0xE0, 0], [0, 0x12, 0x34, 0x56, 9]] {
        let expected = i32::from_be_bytes([if d[1] & 0x80 != 0 { 0xff } else { 0 }, d[1], d[2], d[3]]) >> 5;
        assert_eq!(decode_temperature(d), (expected, d[4]));
    }
}

#[test]
fn spi_frames() {
    assert_eq!(read_frame(), [0x0C, 0, 0, 0, 0]);
    assert_eq!(register_write_frame(0x00, 0x90), [0x80, 0x90]);
    assert_eq!(register_write_frame(0x01, 0x03), [0x81, 0x03]);
    assert_eq!(configuration(), [(0x00, 0x90), (0x01, 0x03)]);
    assert!(is_channel(0) && is_channel(1) && !is_channel(2));
}

#[test]
fn final_replies() {
    let out = b"0+1.23\r\n";
    assert_eq!(reply_for(Ok(8), out), out.to_vec());
    assert_eq!(reply_for(Ok(0), out), b"Invalid SDI12 Command\r\n".to_vec());
    assert_eq!(reply_for(Err(Sdi12Error::Timeout), out), b"SDI12 Timeout\r\n".to_vec());
}

#[test]
fn command_bytes_must_be_utf8() {
    assert_eq!(command_text(b"PING\r\n"), Ok("PING\r\n"));
    assert_eq!(command_text(&[0x50, 0xFF]), Err(Sdi12Error::InvalidSDI12Command));
}

#[test]
fn buffer_writes_until_full() {
    let mut b = Buffer::new(vec![0u8; 5]);
    assert_eq!(b.write_str(b"abc"), Ok(()));
    assert_eq!(b.write_str(b"def"), Err(()));
    assert_eq!(b.write_str(b"de"), Ok(()));
    assert_eq!(b.len(), 5);
    assert_eq!(b.into_bytes(), b"abcde".to_vec());
}
