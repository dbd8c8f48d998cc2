use sensor_bridge::frame::{
    bit_deadline_us, decode_char, frame_bits, parity_bit, sample_offset_us, BIT_US,
};
use sensor_bridge::error::Sdi12Error;
use sensor_bridge::receiver::{strip_parity, ResponseBuffer, FIRST_CHAR_TIMEOUT_MS, NEXT_CHAR_TIMEOUT_MS};

fn data_of(frame: &[bool; 10]) -> [bool; 7] {
    let mut d = [false; 7];
    d.copy_from_slice(&frame[1..8]);
    d
}

#[test]
fn frame_of_ascii_zero() {
    // '0' = 0x30 = 0b011_0000: two ones, so the parity bit is clear.
    assert_eq!(
        frame_bits(b'0'),
        [false, false, false, false, false, true, true, false, false, true]
    );
}

#[test]
fn frame_of_question_mark() {
    // '?' = 0x3F: six ones, parity clear.
    assert_eq!(
        frame_bits(b'?'),
        [false, true, true, true, true, true, true, false, false, true]
    );
    // '!' = 0x21: two ones, parity clear; 'M' = 0x4D: four ones; '1' = 0x31: three ones.
    assert!(!parity_bit(b'!'));
    assert!(!parity_bit(b'M'));
    assert!(parity_bit(b'1'));
}

#[test]
fn parity_ignores_bit_seven() {
    for b in 0u8..128 {
        assert_eq!(parity_bit(b), parity_bit(b | 0x80));
        assert_eq!(parity_bit(b), (b.count_ones() & 1) != 0);
    }
}

#[test]
fn every_frame_decodes_back() {
    for b in 0u8..=255 {
        let f = frame_bits(b);
        assert_eq!(decode_char(data_of(&f), f[8], f[9]), Ok(b & 0x7f));
    }
}

#[test]
fn flipped_bits_are_refused() {
    for b in 0u8..128 {
        for k in 1..10 {
            let mut f = frame_bits(b);
            f[k] = !f[k];
            assert_eq!(decode_char(data_of(&f), f[8], f[9]), Err(Sdi12Error::InvalidResponse));
        }
    }
}

#[test]
fn missing_stop_bit_is_refused() {
    let f = frame_bits(b'\n');
    assert_eq!(decode_char(data_of(&f), f[8], false), Err(Sdi12Error::InvalidResponse));
}

#[test]
fn timing_offsets() {
    assert_eq!(BIT_US, 833);
    assert_eq!(bit_deadline_us(0), 833);
    assert_eq!(bit_deadline_us(9), 8330);
    assert_eq!(sample_offset_us(1), 1249);
    assert_eq!(sample_offset_us(8), 833 * 17 / 2);
    assert_eq!(sample_offset_us(9), 833 * 19 / 2);
}

#[test]
fn response_buffer_collects_until_line_feed() {
    let mut buf = ResponseBuffer::new(8);
    assert_eq!(buf.timeout_ms(), FIRST_CHAR_TIMEOUT_MS);
    assert_eq!(buf.push(b'0'), Ok(false));
    assert_eq!(buf.timeout_ms(), NEXT_CHAR_TIMEOUT_MS);
    assert_eq!(buf.push(b'\r'), Ok(false));
    assert_eq!(buf.push(b'\n'), Ok(true));
    assert_eq!(buf.as_slice(), b"0\r\n");
    assert_eq!(buf.len(), 3);
}

#[test]
fn response_buffer_refuses_overflow() {
    let mut buf = ResponseBuffer::new(2);
    assert_eq!(buf.push(b'a'), Ok(false));
    assert!(!buf.is_full());
    assert_eq!(buf.push(b'b'), Ok(false));
    assert!(buf.is_full());
    assert_eq!(buf.push(b'\n'), Err(Sdi12Error::InvalidResponse));
    assert_eq!(buf.as_slice(), b"ab");
}

#[test]
fn uart_parity_is_stripped() {
    assert_eq!(strip_parity(0x8A), b'\n');
    assert_eq!(strip_parity(b'0'), b'0');
    assert_eq!(strip_parity(0xFF), 0x7F);
}

#[test]
fn bus_timing_constants() {
    use_timing();
}

fn use_timing() {
    assert_eq!(sensor_bridge::frame::BIT_US, 1_000_000 / sensor_bridge::frame::BAUD_RATE as u64);
    assert_eq!(sensor_bridge::frame::MARKING_US, 10 * BIT_US);
    for slot in 1..10usize {
        let t = sample_offset_us(slot);
        assert!(slot as u64 * BIT_US < t && t < (slot as u64 + 1) * BIT_US);
    }
}

#[test]
fn long_response_is_refused_at_capacity() {
    let mut buf = ResponseBuffer::new(3);
    let mut outcome = None;
    for &c in b"0+12\r\n" {
        match buf.push(c) {
            Ok(false) => {}
            other => {
                outcome = Some(other);
                break;
            }
        }
    }
    assert_eq!(outcome, Some(Err(Sdi12Error::InvalidResponse)));
    assert_eq!(buf.as_slice(), b"0+1");
}
