//! SDI-12 character frames on the bit-banged bus: 1200 baud, one start bit,
//! seven data bits (least significant first), even parity and one stop bit.
//! Levels here are logical: `true` is a one (MARK), `false` a zero (SPACE).

use vstd::prelude::*;

use crate::error::Sdi12Error;

verus! {

/// The length of one bit at 1200 baud, in microseconds.
pub const BIT_US: u64 = 833;

/// The bus speed, in bits per second.
pub const BAUD_RATE: u32 = 1200;

/// How long a break (SPACE) lasts before a command, in microseconds.
pub const BREAK_US: u64 = 12_000;

/// How long the bus is held at MARK after a break, in microseconds.
pub const MARKING_US: u64 = 8_330;

/// The number of bit cells in a character frame.
pub const FRAME_BITS: usize = 10;

/// Bit `i` of `b`.
pub open spec fn bit(b: u8, i: u8) -> bool {
    (b >> i) & 1u8 == 1u8
}

/// The seven data bits of `b`, least significant first.
pub open spec fn data_bits(b: u8) -> Seq<bool> {
    Seq::new(7, |j: int| bit(b, j as u8))
}

pub open spec fn one_if(x: bool) -> nat {
    if x {
        1
    } else {
        0
    }
}

/// The number of ones among seven bits.
pub open spec fn ones(d: Seq<bool>) -> nat {
    one_if(d[0]) + one_if(d[1]) + one_if(d[2]) + one_if(d[3]) + one_if(d[4]) + one_if(d[5])
        + one_if(d[6])
}

/// The parity bit sent with `b`: set where its seven data bits hold an odd
/// number of ones, so that data and parity together hold an even number.
pub open spec fn parity_of(b: u8) -> bool {
    ones(data_bits(b)) % 2 == 1
}

/// The character frame of `b`, in the order its bits go on the wire.
pub open spec fn frame_spec(b: u8) -> Seq<bool> {
    seq![false] + data_bits(b) + seq![parity_of(b), true]
}

/// The byte whose seven low bits are `d`, least significant first.
pub open spec fn assemble(d: Seq<bool>) -> u8 {
    (one_if(d[0]) + 2 * one_if(d[1]) + 4 * one_if(d[2]) + 8 * one_if(d[3]) + 16 * one_if(d[4])
        + 32 * one_if(d[5]) + 64 * one_if(d[6])) as u8
}

/// What the receiver makes of the seven data bits, the parity bit and the
/// stop bit that it sampled.
pub open spec fn decode_spec(d: Seq<bool>, parity: bool, stop: bool) -> Result<u8, Sdi12Error> {
    let b = assemble(d);
    if parity != parity_of(b) || !stop {
        Err(Sdi12Error::InvalidResponse)
    } else {
        Ok(b)
    }
}

proof fn lemma_bit_is_zero_or_one(b: u8, i: u8)
    ensures
        ((b >> i) & 1u8) == (if bit(b, i) {
            1u8
        } else {
            0u8
        }),
{
    assert((b >> i) & 1u8 <= 1u8) by (bit_vector);
}

proof fn lemma_assembled_bits(a0: bool, a1: bool, a2: bool, a3: bool, a4: bool, a5: bool, a6: bool)
    by (bit_vector)
    ensures
        ({
            let x: u8 = ((if a0 {
                1u8
            } else {
                0u8
            }) | (if a1 {
                2u8
            } else {
                0u8
            }) | (if a2 {
                4u8
            } else {
                0u8
            }) | (if a3 {
                8u8
            } else {
                0u8
            }) | (if a4 {
                16u8
            } else {
                0u8
            }) | (if a5 {
                32u8
            } else {
                0u8
            }) | (if a6 {
                64u8
            } else {
                0u8
            }));
            &&& ((x >> 0u8) & 1u8 == 1u8) == a0
            &&& ((x >> 1u8) & 1u8 == 1u8) == a1
            &&& ((x >> 2u8) & 1u8 == 1u8) == a2
            &&& ((x >> 3u8) & 1u8 == 1u8) == a3
            &&& ((x >> 4u8) & 1u8 == 1u8) == a4
            &&& ((x >> 5u8) & 1u8 == 1u8) == a5
            &&& ((x >> 6u8) & 1u8 == 1u8) == a6
            &&& x < 128u8
        }),
{
}

proof fn lemma_or_is_sum(a0: bool, a1: bool, a2: bool, a3: bool, a4: bool, a5: bool, a6: bool)
    by (bit_vector)
    ensures
        ((if a0 {
            1u8
        } else {
            0u8
        }) | (if a1 {
            2u8
        } else {
            0u8
        }) | (if a2 {
            4u8
        } else {
            0u8
        }) | (if a3 {
            8u8
        } else {
            0u8
        }) | (if a4 {
            16u8
        } else {
            0u8
        }) | (if a5 {
            32u8
        } else {
            0u8
        }) | (if a6 {
            64u8
        } else {
            0u8
        })) as int == (if a0 {
            1int
        } else {
            0int
        }) + (if a1 {
            2int
        } else {
            0int
        }) + (if a2 {
            4int
        } else {
            0int
        }) + (if a3 {
            8int
        } else {
            0int
        }) + (if a4 {
            16int
        } else {
            0int
        }) + (if a5 {
            32int
        } else {
            0int
        }) + (if a6 {
            64int
        } else {
            0int
        }),
{
}

/// The bits of an assembled byte are the bits it was assembled from.
pub proof fn lemma_data_bits_of_assemble(d: Seq<bool>)
    requires
        d.len() == 7,
    ensures
        data_bits(assemble(d)) == d,
        assemble(d) < 128,
{
    lemma_assembled_bits(d[0], d[1], d[2], d[3], d[4], d[5], d[6]);
    lemma_or_is_sum(d[0], d[1], d[2], d[3], d[4], d[5], d[6]);
    assert(data_bits(assemble(d)) =~= d);
}

proof fn lemma_low_bits(b: u8)
    by (bit_vector)
    ensures
        ((if (b >> 0u8) & 1u8 == 1u8 {
            1u8
        } else {
            0u8
        }) | (if (b >> 1u8) & 1u8 == 1u8 {
            2u8
        } else {
            0u8
        }) | (if (b >> 2u8) & 1u8 == 1u8 {
            4u8
        } else {
            0u8
        }) | (if (b >> 3u8) & 1u8 == 1u8 {
            8u8
        } else {
            0u8
        }) | (if (b >> 4u8) & 1u8 == 1u8 {
            16u8
        } else {
            0u8
        }) | (if (b >> 5u8) & 1u8 == 1u8 {
            32u8
        } else {
            0u8
        }) | (if (b >> 6u8) & 1u8 == 1u8 {
            64u8
        } else {
            0u8
        })) == b & 127u8,
{
}

/// Assembling the data bits of `b` gives its seven low bits.
pub proof fn lemma_assemble_data_bits(b: u8)
    ensures
        assemble(data_bits(b)) == b & 127u8,
{
    let d = data_bits(b);
    lemma_low_bits(b);
    lemma_or_is_sum(d[0], d[1], d[2], d[3], d[4], d[5], d[6]);
}

/// The parity bit that goes with `byte`.
pub fn parity_bit(byte: u8) -> (p: bool)
    ensures
        p == parity_of(byte),
{
    proof {
        lemma_bit_is_zero_or_one(byte, 0);
        lemma_bit_is_zero_or_one(byte, 1);
        lemma_bit_is_zero_or_one(byte, 2);
        lemma_bit_is_zero_or_one(byte, 3);
        lemma_bit_is_zero_or_one(byte, 4);
        lemma_bit_is_zero_or_one(byte, 5);
        lemma_bit_is_zero_or_one(byte, 6);
    }
    let count: u8 = ((byte >> 0) & 1) + ((byte >> 1) & 1) + ((byte >> 2) & 1) + ((byte >> 3) & 1)
        + ((byte >> 4) & 1) + ((byte >> 5) & 1) + ((byte >> 6) & 1);
    assert(count == ones(data_bits(byte)));
    count % 2 == 1
}

/// The frame that carries `byte` on the wire: start bit, seven data bits,
/// parity bit, stop bit. Bit 7 of `byte` is not sent.
pub fn frame_bits(byte: u8) -> (bits: [bool; 10])
    ensures
        bits@ == frame_spec(byte),
{
    let parity = parity_bit(byte);
    let bits = [
        false,
        (byte >> 0) & 1 == 1,
        (byte >> 1) & 1 == 1,
        (byte >> 2) & 1 == 1,
        (byte >> 3) & 1 == 1,
        (byte >> 4) & 1 == 1,
        (byte >> 5) & 1 == 1,
        (byte >> 6) & 1 == 1,
        parity,
        true,
    ];
    assert(bits@ =~= frame_spec(byte));
    bits
}

/// Checks a received frame: the byte its data bits carry where the parity
/// bit matches and the stop bit is a one, `InvalidResponse` otherwise.
pub fn decode_char(data: [bool; 7], parity: bool, stop: bool) -> (r: Result<u8, Sdi12Error>)
    ensures
        r == decode_spec(data@, parity, stop),
{
    let byte: u8 = (if data[0] {
        1
    } else {
        0
    }) + (if data[1] {
        2
    } else {
        0
    }) + (if data[2] {
        4
    } else {
        0
    }) + (if data[3] {
        8
    } else {
        0
    }) + (if data[4] {
        16
    } else {
        0
    }) + (if data[5] {
        32
    } else {
        0
    }) + (if data[6] {
        64
    } else {
        0
    });
    assert(byte == assemble(data@));
    let expected = parity_bit(byte);
    if parity != expected {
        return Err(Sdi12Error::InvalidResponse);
    }
    if !stop {
        return Err(Sdi12Error::InvalidResponse);
    }
    Ok(byte)
}

/// The level to drive the data pin to for a logical level: the pin drives
/// the bus through an inverting stage, so a one (MARK) is a low pin.
pub fn pin_high_for(logical: bool) -> (high: bool)
    ensures
        high == !logical,
{
    !logical
}

/// The logical level on the bus for the level read on the data pin.
pub fn logical_from_pin(pin_high: bool) -> (logical: bool)
    ensures
        logical == !pin_high,
{
    !pin_high
}

/// When the level of frame bit `index` is driven, in microseconds after
/// the frame starts: the end of that bit's cell.
pub fn bit_deadline_us(index: usize) -> (t: u64)
    requires
        index < FRAME_BITS,
    ensures
        t == (index + 1) * BIT_US,
{
    (index as u64 + 1) * BIT_US
}

/// When the receiver samples frame bit `slot` (1 to 7 data, 8 parity,
/// 9 stop), in microseconds after the falling edge of the start bit.
pub fn sample_offset_us(slot: usize) -> (t: u64)
    requires
        1 <= slot < FRAME_BITS,
    ensures
        t == BIT_US * (2 * slot + 1) / 2,
{
    BIT_US * (2 * slot as u64 + 1) / 2
}

/// A frame decodes to the seven low bits of the byte it was built from:
/// what the bus writer sends, its reader accepts and gives back.
pub proof fn lemma_frame_roundtrip(b: u8)
    ensures
        frame_spec(b).len() == FRAME_BITS,
        decode_spec(frame_spec(b).subrange(1, 8), frame_spec(b)[8], frame_spec(b)[9]) == Ok::<
            u8,
            Sdi12Error,
        >(b & 127u8),
{
    let f = frame_spec(b);
    assert(f.subrange(1, 8) =~= data_bits(b));
    lemma_assemble_data_bits(b);
    lemma_data_bits_of_assemble(data_bits(b));
}

/// Any single flipped bit among the data, parity and stop bits of a frame
/// makes the receiver refuse it.
pub proof fn lemma_single_bit_error_detected(b: u8, k: int)
    requires
        1 <= k < FRAME_BITS,
    ensures
        ({
            let f = frame_spec(b).update(k, !frame_spec(b)[k]);
            decode_spec(f.subrange(1, 8), f[8], f[9]) == Err::<u8, Sdi12Error>(
                Sdi12Error::InvalidResponse,
            )
        }),
{
    let f0 = frame_spec(b);
    let f = f0.update(k, !f0[k]);
    let d = f.subrange(1, 8);
    if k < 8 {
        let d0 = data_bits(b);
        assert(d =~= d0.update(k - 1, !d0[k - 1]));
        lemma_data_bits_of_assemble(d);
        assert(ones(d) + one_if(d0[k - 1]) == ones(d0) + one_if(d[k - 1]));
    } else if k == 8 {
        assert(d =~= data_bits(b));
        lemma_assemble_data_bits(b);
        lemma_data_bits_of_assemble(data_bits(b));
    }
}

/// A bit lasts one baud period, rounded down to a whole microsecond, and
/// the marking after a break lasts one character frame.
pub proof fn lemma_bus_timing()
    ensures
        BIT_US == 1_000_000int / (BAUD_RATE as int),
        MARKING_US == FRAME_BITS * BIT_US,
        BREAK_US > MARKING_US,
{
}

/// Every sampling point lies strictly inside its bit cell, away from both
/// edges.
pub proof fn lemma_samples_inside_cells(slot: int)
    requires
        1 <= slot < FRAME_BITS,
    ensures
        slot * BIT_US < BIT_US * (2 * slot + 1) / 2 < (slot + 1) * BIT_US,
{
}

} // verus!
