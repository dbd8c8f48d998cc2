//! The MAX31856 thermocouple converters: their SPI frames, the decoding of
//! a temperature reading and the text that reports it.

use vstd::prelude::*;

use crate::error::{ascii_bytes, ascii_str_bytes, is_ascii_text};

verus! {

/// How many converters are fitted.
pub const CHANNELS: usize = 2;

/// The register address of configuration register 0.
pub const CR0: u8 = 0x00;

/// Continuous conversion, open-circuit detection, 60 Hz filter.
pub const CR0_VALUE: u8 = 0x90;

/// The register address of configuration register 1.
pub const CR1: u8 = 0x01;

/// K-type thermocouple.
pub const CR1_VALUE: u8 = 0x03;

/// The address of the first linearized temperature register.
pub const LTCBH: u8 = 0x0C;

/// Whether `channel` names a fitted converter.
pub fn is_channel(channel: usize) -> (r: bool)
    ensures
        r == (channel < CHANNELS),
{
    channel < CHANNELS
}

/// The two-byte SPI frame that writes `value` to `register`: the address
/// with its write bit set, then the value.
pub fn register_write_frame(register: u8, value: u8) -> (frame: [u8; 2])
    ensures
        frame@ == seq![register | 0x80u8, value],
{
    let frame = [register | 0x80, value];
    assert(frame@ =~= seq![register | 0x80u8, value]);
    frame
}

/// The configuration writes made to each converter at start-up, in order.
pub fn configuration() -> (writes: [(u8, u8); 2])
    ensures
        writes@ == seq![(CR0, CR0_VALUE), (CR1, CR1_VALUE)],
{
    let writes = [(CR0, CR0_VALUE), (CR1, CR1_VALUE)];
    assert(writes@ =~= seq![(CR0, CR0_VALUE), (CR1, CR1_VALUE)]);
    writes
}

/// The five-byte SPI frame that reads the temperature registers and the
/// fault status: the register address, then four bytes clocked in.
pub fn read_frame() -> (frame: [u8; 5])
    ensures
        frame@ == seq![LTCBH, 0u8, 0u8, 0u8, 0u8],
{
    let frame = [LTCBH, 0, 0, 0, 0];
    assert(frame@ =~= seq![LTCBH, 0u8, 0u8, 0u8, 0u8]);
    frame
}

/// The 24-bit two's-complement value held in the three temperature
/// registers, most significant byte first.
pub open spec fn raw_reading(hi: u8, mid: u8, lo: u8) -> int {
    let u = hi * 65536 + mid * 256 + lo;
    if hi >= 128 {
        u - 16777216
    } else {
        u
    }
}

/// The temperature in units of 1/128 degree Celsius: the 24-bit value
/// shifted right by five bits, rounding towards minus infinity.
pub open spec fn temperature_of(hi: u8, mid: u8, lo: u8) -> int {
    raw_reading(hi, mid, lo) / 32
}

/// Decodes the bytes clocked in by a read frame: the temperature, in
/// units of 1/128 degree Celsius, and the fault status byte.
pub fn decode_temperature(data: [u8; 5]) -> (r: (i32, u8))
    ensures
        r.0 == temperature_of(data@[1], data@[2], data@[3]),
        r.1 == data@[4],
{
    let hi = data[1];
    let u: u32 = (hi as u32) * 65536 + (data[2] as u32) * 256 + (data[3] as u32);
    // The reading moved up by 2^23, which makes it non-negative.
    let offset: u32 = if hi >= 128 {
        u - 8388608
    } else {
        u + 8388608
    };
    let value: i32 = (offset / 32) as i32 - 262144;
    assert(raw_reading(hi, data@[2], data@[3]) == offset - 8388608);
    assert(value == (offset - 8388608) / 32);
    (value, data[4])
}

/// The decimal digits of `n`, most significant first, without leading
/// zeros.
pub open spec fn decimal(n: nat) -> Seq<u8>
    decreases n,
{
    if n < 10 {
        seq![(48 + n) as u8]
    } else {
        decimal(n / 10).push((48 + n % 10) as u8)
    }
}

/// The four decimal digits of `n` (below 10000), with leading zeros.
pub open spec fn four_digits(n: nat) -> Seq<u8> {
    seq![
        (48 + n / 1000 % 10) as u8,
        (48 + n / 100 % 10) as u8,
        (48 + n / 10 % 10) as u8,
        (48 + n % 10) as u8,
    ]
}

/// An upper-case hexadecimal digit.
pub open spec fn hex_digit(n: nat) -> u8 {
    if n < 10 {
        (48 + n) as u8
    } else {
        (55 + n) as u8
    }
}

/// The two upper-case hexadecimal digits of `b`.
pub open spec fn hex2(b: u8) -> Seq<u8> {
    seq![hex_digit(b as nat / 16), hex_digit(b as nat % 16)]
}

/// The absolute value of `t`.
pub open spec fn magnitude(t: i32) -> nat {
    if t < 0 {
        (-t) as nat
    } else {
        t as nat
    }
}

/// The whole degrees of a reading in 1/128 degree.
pub open spec fn whole_degrees(t: i32) -> nat {
    magnitude(t) / 128
}

/// The fraction of a degree in 1/10000 degree, rounded down.
pub open spec fn fraction_digits(t: i32) -> nat {
    (magnitude(t) % 128) * 10000 / 128
}

/// The line that reports a reading: the temperature in degrees Celsius
/// with four decimals where the fault status is clear, the fault status
/// in hexadecimal otherwise.
pub open spec fn reading_text(temperature: i32, fault: u8) -> Seq<u8> {
    if fault == 0 {
        (if temperature < 0 {
            seq![45u8]
        } else {
            Seq::<u8>::empty()
        }) + decimal(whole_degrees(temperature)) + seq![46u8] + four_digits(
            fraction_digits(temperature),
        ) + seq![13u8, 10u8]
    } else {
        ascii_bytes("TC Fault 0x"@) + hex2(fault) + seq![13u8, 10u8]
    }
}

/// The number printed for a reading, in 1/10000 degree, sign left aside.
pub open spec fn printed_ten_thousandths(t: i32) -> nat {
    whole_degrees(t) * 10000 + fraction_digits(t)
}

/// The number printed for a reading is the reading in degrees, cut to four
/// decimals: `magnitude / 128` rounded down to a multiple of 1/10000, and
/// it carries a minus sign exactly when the reading is negative.
pub proof fn lemma_printed_value(t: i32)
    ensures
        printed_ten_thousandths(t) == magnitude(t) * 10000 / 128,
        printed_ten_thousandths(t) * 128 <= magnitude(t) * 10000 < (printed_ten_thousandths(t)
            + 1) * 128,
        (reading_text(t, 0)[0] == 45u8) == (t < 0),
{
    let m = magnitude(t) as int;
    let q = m / 128;
    let r = m % 128;
    let q2 = (r * 10000) / 128;
    let r2 = (r * 10000) % 128;
    assert(m == 128 * q + r);
    assert(r * 10000 == 128 * q2 + r2);
    assert(m * 10000 == (10000 * q + q2) * 128 + r2);
    vstd::arithmetic::div_mod::lemma_fundamental_div_mod_converse_div(m * 10000, 128, 10000 * q + q2, r2);
    if t >= 0 {
        lemma_decimal_starts_with_digit(whole_degrees(t));
    }
}

/// The number that a text of decimal digits spells.
pub open spec fn digits_value(s: Seq<u8>) -> int
    decreases s.len(),
{
    if s.len() == 0 {
        0
    } else {
        digits_value(s.drop_last()) * 10 + (s.last() - 48)
    }
}

/// Whether every byte of `s` is a decimal digit.
pub open spec fn all_digits(s: Seq<u8>) -> bool {
    forall|i: int| 0 <= i < s.len() ==> 48 <= #[trigger] s[i] <= 57
}

/// The decimal text of `n` is made of digits and spells `n`.
pub proof fn lemma_decimal_spells(n: nat)
    ensures
        all_digits(decimal(n)),
        digits_value(decimal(n)) == n,
    decreases n,
{
    if n >= 10 {
        lemma_decimal_spells(n / 10);
        let d: u8 = (48 + n % 10) as u8;
        assert(d == 48 + n % 10);
        assert(decimal(n) == decimal(n / 10).push(d));
        assert(decimal(n).drop_last() =~= decimal(n / 10));
        assert(decimal(n).last() == d);
        assert(digits_value(decimal(n)) == digits_value(decimal(n / 10)) * 10 + (d - 48));
    } else {
        let d: u8 = (48 + n) as u8;
        assert(decimal(n) == seq![d]);
        assert(decimal(n).drop_last() =~= Seq::<u8>::empty());
        assert(digits_value(decimal(n)) == digits_value(Seq::<u8>::empty()) * 10 + (d - 48));
    }
}

/// The four-digit text of `n` below 10000 is made of digits and spells `n`.
pub proof fn lemma_four_digits_spell(n: nat)
    requires
        n < 10000,
    ensures
        all_digits(four_digits(n)),
        digits_value(four_digits(n)) == n,
{
    let s = four_digits(n);
    let s1 = s.drop_last();
    let s2 = s1.drop_last();
    let s3 = s2.drop_last();
    let s4 = s3.drop_last();
    assert(s4 =~= Seq::<u8>::empty());
    assert(digits_value(s4) == 0);
    assert(s3.last() == 48 + n / 1000 % 10);
    assert(s2.last() == 48 + n / 100 % 10);
    assert(s1.last() == 48 + n / 10 % 10);
    assert(s.last() == 48 + n % 10);
    assert(digits_value(s3) == n / 1000 % 10);
    assert(digits_value(s2) == (n / 1000 % 10) * 10 + n / 100 % 10);
    assert(digits_value(s1) == ((n / 1000 % 10) * 10 + n / 100 % 10) * 10 + n / 10 % 10);
}

/// The first character of a decimal number is a digit.
pub proof fn lemma_decimal_starts_with_digit(n: nat)
    ensures
        decimal(n).len() > 0,
        48 <= decimal(n)[0] <= 57,
    decreases n,
{
    if n >= 10 {
        lemma_decimal_starts_with_digit(n / 10);
    }
}

/// Appends the decimal digits of `n`.
fn push_decimal(out: &mut Vec<u8>, n: u64)
    ensures
        final(out)@ == old(out)@ + decimal(n as nat),
    decreases n,
{
    if n >= 10 {
        push_decimal(out, n / 10);
    }
    let d: u8 = (n % 10) as u8;
    out.push(48 + d);
    assert(final(out)@ =~= old(out)@ + decimal(n as nat));
}

fn hex_char(n: u8) -> (c: u8)
    requires
        n < 16,
    ensures
        c == hex_digit(n as nat),
{
    if n < 10 {
        48 + n
    } else {
        55 + n
    }
}

/// Appends all of `part`.
fn push_all(out: &mut Vec<u8>, part: &[u8])
    ensures
        final(out)@ == old(out)@ + part@,
{
    let mut i: usize = 0;
    while i < part.len()
        invariant
            i <= part@.len(),
            out@ == old(out)@ + part@.subrange(0, i as int),
        decreases part@.len() - i,
    {
        out.push(part[i]);
        i = i + 1;
        assert(out@ =~= old(out)@ + part@.subrange(0, i as int));
    }
    assert(part@.subrange(0, i as int) =~= part@);
}

/// The line that reports a reading.
pub fn format_reading(temperature: i32, fault: u8) -> (text: Vec<u8>)
    ensures
        text@ == reading_text(temperature, fault),
{
    let mut text: Vec<u8> = Vec::new();
    if fault == 0 {
        let size: u64 = if temperature < 0 {
            (0 - (temperature as i64)) as u64
        } else {
            temperature as u64
        };
        assert(size == magnitude(temperature));
        let whole = size / 128;
        let fraction = (size % 128) * 10000 / 128;
        if temperature < 0 {
            text.push(45);
        }
        push_decimal(&mut text, whole);
        text.push(46);
        let f: u8 = (fraction / 1000 % 10) as u8;
        text.push(48 + f);
        let f: u8 = (fraction / 100 % 10) as u8;
        text.push(48 + f);
        let f: u8 = (fraction / 10 % 10) as u8;
        text.push(48 + f);
        let f: u8 = (fraction % 10) as u8;
        text.push(48 + f);
        text.push(13);
        text.push(10);
    } else {
        let label = "TC Fault 0x";
        proof {
            reveal_strlit("TC Fault 0x");
        }
        assert(is_ascii_text(label@));
        push_all(&mut text, ascii_str_bytes(label));
        text.push(hex_char(fault / 16));
        text.push(hex_char(fault % 16));
        text.push(13);
        text.push(10);
    }
    assert(text@ =~= reading_text(temperature, fault));
    text
}


/// The pieces put one after another.
pub open spec fn concat_all(pieces: Seq<Seq<u8>>) -> Seq<u8>
    decreases pieces.len(),
{
    if pieces.len() == 0 {
        Seq::empty()
    } else {
        pieces[0] + concat_all(pieces.drop_first())
    }
}

/// What a writer with `room` bytes of room keeps of `pieces` written one
/// after another: every piece up to the first one that does not fit in
/// what is left.
pub open spec fn fitting_prefix(pieces: Seq<Seq<u8>>, room: int) -> Seq<u8>
    decreases pieces.len(),
{
    if pieces.len() == 0 || pieces[0].len() > room {
        Seq::empty()
    } else {
        pieces[0] + fitting_prefix(pieces.drop_first(), room - pieces[0].len())
    }
}

/// `count` pieces of one `0` digit each: the zero padding of a number
/// printed with a width of four, written one character at a time.
pub open spec fn zero_pieces(count: nat) -> Seq<Seq<u8>> {
    Seq::new(count, |i: int| seq![48u8])
}

/// How many padding zeros go before `n` in a field four digits wide.
pub open spec fn padding_of(n: nat) -> nat {
    if decimal(n).len() < 4 {
        (4 - decimal(n).len()) as nat
    } else {
        0
    }
}

/// The pieces in which the line that reports a reading is written: the
/// sign (empty for a reading that is not negative), the whole degrees, the
/// point, the padding zeros one by one, the digits of the fraction and the
/// line end; or the label, the hexadecimal fault status (a single padding
/// zero, then one digit, where it is below 16) and the line end.
pub open spec fn reading_pieces(temperature: i32, fault: u8) -> Seq<Seq<u8>> {
    if fault == 0 {
        seq![
            if temperature < 0 {
                seq![45u8]
            } else {
                Seq::<u8>::empty()
            },
            decimal(whole_degrees(temperature)),
            seq![46u8],
        ] + zero_pieces(padding_of(fraction_digits(temperature))) + seq![
            decimal(fraction_digits(temperature)),
            seq![13u8, 10u8],
        ]
    } else {
        seq![ascii_bytes("TC Fault 0x"@)] + (if fault < 16 {
            seq![seq![48u8], seq![hex_digit(fault as nat)]]
        } else {
            seq![hex2(fault)]
        }) + seq![seq![13u8, 10u8]]
    }
}

pub proof fn lemma_concat_all_append(a: Seq<Seq<u8>>, b: Seq<Seq<u8>>)
    ensures
        concat_all(a + b) == concat_all(a) + concat_all(b),
    decreases a.len(),
{
    if a.len() == 0 {
        assert(a + b =~= b);
        assert(concat_all(a) + concat_all(b) =~= concat_all(b));
    } else {
        assert((a + b).drop_first() =~= a.drop_first() + b);
        lemma_concat_all_append(a.drop_first(), b);
        assert(concat_all(a + b) =~= concat_all(a) + concat_all(b));
    }
}

pub proof fn lemma_concat_zero_pieces(count: nat)
    ensures
        concat_all(zero_pieces(count)) == Seq::new(count, |i: int| 48u8),
    decreases count,
{
    if count > 0 {
        assert(zero_pieces(count).drop_first() =~= zero_pieces((count - 1) as nat));
        lemma_concat_zero_pieces((count - 1) as nat);
        assert(concat_all(zero_pieces(count)) =~= Seq::new(count, |i: int| 48u8));
    } else {
        assert(concat_all(zero_pieces(count)) =~= Seq::new(count, |i: int| 48u8));
    }
}

/// Four digits with leading zeros are the padding zeros, then the digits.
pub proof fn lemma_four_digits_padded(n: nat)
    requires
        n < 10000,
    ensures
        decimal(n).len() <= 4,
        four_digits(n) == Seq::new(padding_of(n), |i: int| 48u8) + decimal(n),
{
    reveal_with_fuel(decimal, 5);
    if n < 10 {
    } else if n < 100 {
        assert(n / 10 < 10);
    } else if n < 1000 {
        assert(n / 10 / 10 == n / 100);
        assert(n / 10 / 10 < 10);
    } else {
        assert(n / 10 / 10 == n / 100);
        assert(n / 10 / 10 / 10 == n / 1000);
        assert(n / 10 / 10 / 10 < 10);
    }
    assert(four_digits(n) =~= Seq::new(padding_of(n), |i: int| 48u8) + decimal(n));
}

/// Written whole, the pieces make up the line that reports the reading.
pub proof fn lemma_pieces_make_text(temperature: i32, fault: u8)
    ensures
        concat_all(reading_pieces(temperature, fault)) == reading_text(temperature, fault),
{
    let ps = reading_pieces(temperature, fault);
    if fault == 0 {
        let frac = fraction_digits(temperature);
        let a = seq![
            if temperature < 0 {
                seq![45u8]
            } else {
                Seq::<u8>::empty()
            },
            decimal(whole_degrees(temperature)),
            seq![46u8],
        ];
        let z = zero_pieces(padding_of(frac));
        let c = seq![decimal(frac), seq![13u8, 10u8]];
        lemma_concat_all_append(a + z, c);
        lemma_concat_all_append(a, z);
        lemma_concat_zero_pieces(padding_of(frac));
        lemma_four_digits_padded(frac);
        reveal_with_fuel(concat_all, 4);
        assert(concat_all(ps) =~= reading_text(temperature, fault));
    } else {
        let a = seq![ascii_bytes("TC Fault 0x"@)];
        let b = if fault < 16 {
            seq![seq![48u8], seq![hex_digit(fault as nat)]]
        } else {
            seq![hex2(fault)]
        };
        let c = seq![seq![13u8, 10u8]];
        lemma_concat_all_append(a + b, c);
        lemma_concat_all_append(a, b);
        reveal_with_fuel(concat_all, 3);
        assert(concat_all(ps) =~= reading_text(temperature, fault));
    }
}

/// A piece of one byte.
fn one_byte(b: u8) -> (v: Vec<u8>)
    ensures
        v@ == seq![b],
{
    let mut v = Vec::new();
    v.push(b);
    assert(v@ =~= seq![b]);
    v
}

/// The pieces in which the line that reports a reading is written.
pub fn reading_pieces_of(temperature: i32, fault: u8) -> (pieces: Vec<Vec<u8>>)
    ensures
        pieces@.len() == reading_pieces(temperature, fault).len(),
        forall|i: int|
            0 <= i < pieces@.len() ==> #[trigger] pieces@[i]@ == reading_pieces(
                temperature,
                fault,
            )[i],
{
    let ghost spec = reading_pieces(temperature, fault);
    let mut pieces: Vec<Vec<u8>> = Vec::new();
    if fault == 0 {
        let size: u64 = if temperature < 0 {
            (0 - (temperature as i64)) as u64
        } else {
            temperature as u64
        };
        assert(size == magnitude(temperature));
        let whole = size / 128;
        let fraction = (size % 128) * 10000 / 128;
        let ghost frac = fraction_digits(temperature);
        assert(fraction == frac);
        let sign = if temperature < 0 {
            one_byte(45)
        } else {
            Vec::new()
        };
        assert(sign@ =~= spec[0]);
        pieces.push(sign);
        let mut digits = Vec::new();
        push_decimal(&mut digits, whole);
        assert(digits@ =~= spec[1]);
        pieces.push(digits);
        pieces.push(one_byte(46));
        let mut frac_digits = Vec::new();
        push_decimal(&mut frac_digits, fraction);
        assert(frac_digits@ =~= decimal(frac));
        proof {
            lemma_four_digits_padded(frac);
        }
        let pad = 4 - frac_digits.len();
        assert(pad == padding_of(frac));
        let mut k: usize = 0;
        while k < pad
            invariant
                k <= pad,
                pad == padding_of(frac),
                spec == reading_pieces(temperature, fault),
                spec.len() == 5 + pad,
                pieces@.len() == 3 + k,
                forall|i: int| 0 <= i < pieces@.len() ==> #[trigger] pieces@[i]@ == spec[i],
            decreases pad - k,
        {
            let zero = one_byte(48);
            assert(spec[3 + k] == seq![48u8]);
            pieces.push(zero);
            k = k + 1;
        }
        pieces.push(frac_digits);
        let end = vec![13u8, 10u8];
        assert(end@ =~= seq![13u8, 10u8]);
        pieces.push(end);
    } else {
        let label = "TC Fault 0x";
        proof {
            reveal_strlit("TC Fault 0x");
        }
        assert(is_ascii_text(label@));
        let mut first = Vec::new();
        push_all(&mut first, ascii_str_bytes(label));
        assert(first@ =~= spec[0]);
        pieces.push(first);
        if fault < 16 {
            pieces.push(one_byte(48));
            pieces.push(one_byte(hex_char(fault)));
        } else {
            let mut hex = Vec::new();
            hex.push(hex_char(fault / 16));
            hex.push(hex_char(fault % 16));
            assert(hex@ =~= hex2(fault));
            pieces.push(hex);
        }
        let end = vec![13u8, 10u8];
        assert(end@ =~= seq![13u8, 10u8]);
        pieces.push(end);
    }
    pieces
}


/// Pieces whose total fits in the room are all kept.
pub proof fn lemma_fitting_prefix_all(pieces: Seq<Seq<u8>>, room: int)
    requires
        concat_all(pieces).len() <= room,
    ensures
        fitting_prefix(pieces, room) == concat_all(pieces),
    decreases pieces.len(),
{
    if pieces.len() > 0 {
        lemma_fitting_prefix_all(pieces.drop_first(), room - pieces[0].len());
    }
}

} // verus!
