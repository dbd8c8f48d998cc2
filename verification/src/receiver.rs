//! Collecting an SDI-12 response, character by character, into a buffer of
//! fixed capacity. A response ends with a line feed.

use vstd::prelude::*;

use crate::error::Sdi12Error;

verus! {

/// How long to wait for the first character of a response, in milliseconds.
pub const FIRST_CHAR_TIMEOUT_MS: u64 = 100;

/// How long to wait for each further character, in milliseconds.
pub const NEXT_CHAR_TIMEOUT_MS: u64 = 15;

/// The line feed that ends every SDI-12 response.
pub const LINE_FEED: u8 = 0x0A;

/// What storing `byte` does to a buffer that holds `held` and has room
/// for `capacity` characters: the new contents, and whether the response
/// is complete, or the error where there is no room.
pub open spec fn push_outcome(held: Seq<u8>, capacity: nat, byte: u8) -> (
    Seq<u8>,
    Result<bool, Sdi12Error>,
) {
    if held.len() >= capacity {
        (held, Err(Sdi12Error::InvalidResponse))
    } else {
        (held.push(byte), Ok(byte == LINE_FEED))
    }
}

/// Storing the characters `s` one after another until the response is
/// complete or refused: the contents, and the outcome (`None` while the
/// response goes on).
pub open spec fn feed(held: Seq<u8>, capacity: nat, s: Seq<u8>) -> (
    Seq<u8>,
    Option<Result<(), Sdi12Error>>,
)
    decreases s.len(),
{
    if s.len() == 0 {
        (held, None)
    } else {
        let (next, r) = push_outcome(held, capacity, s[0]);
        match r {
            Err(e) => (next, Some(Err(e))),
            Ok(true) => (next, Some(Ok(()))),
            Ok(false) => feed(next, capacity, s.drop_first()),
        }
    }
}

/// A response is the characters up to and including the first line feed:
/// it is complete there where it fits, and refused once the buffer is full
/// before it.
pub proof fn lemma_response_ends_at_line_feed(held: Seq<u8>, capacity: nat, s: Seq<u8>, k: int)
    requires
        held.len() <= capacity,
        0 <= k < s.len(),
        s[k] == LINE_FEED,
        forall|j: int| 0 <= j < k ==> s[j] != LINE_FEED,
    ensures
        held.len() + k < capacity ==> feed(held, capacity, s) == (
            held + s.subrange(0, k + 1),
            Some(Ok::<(), Sdi12Error>(())),
        ),
        held.len() + k >= capacity ==> feed(held, capacity, s) == (
            held + s.subrange(0, capacity - held.len()),
            Some(Err::<(), Sdi12Error>(Sdi12Error::InvalidResponse)),
        ),
    decreases s.len(),
{
    if held.len() >= capacity {
        assert(s.subrange(0, capacity - held.len()) =~= Seq::<u8>::empty());
        assert(held + Seq::<u8>::empty() =~= held);
    } else if k == 0 {
        assert(held.push(s[0]) =~= held + s.subrange(0, 1));
    } else {
        let rest = s.drop_first();
        assert forall|j: int| 0 <= j < k - 1 implies rest[j] != LINE_FEED by {
            assert(rest[j] == s[j + 1]);
        }
        lemma_response_ends_at_line_feed(held.push(s[0]), capacity, rest, k - 1);
        if held.len() + k < capacity {
            assert(held.push(s[0]) + rest.subrange(0, k) =~= held + s.subrange(0, k + 1));
        } else {
            assert(held.push(s[0]) + rest.subrange(0, capacity - held.len() - 1) =~= held
                + s.subrange(0, capacity - held.len()));
        }
    }
}

/// The characters of a response received so far.
pub struct ResponseBuffer {
    bytes: Vec<u8>,
    capacity: usize,
}

impl View for ResponseBuffer {
    type V = Seq<u8>;

    closed spec fn view(&self) -> Seq<u8> {
        self.bytes@
    }
}

impl ResponseBuffer {
    /// How many characters the buffer can hold.
    pub closed spec fn max_len(&self) -> nat {
        self.capacity as nat
    }

    #[verifier::type_invariant]
    closed spec fn fits(&self) -> bool {
        self.bytes@.len() <= self.capacity
    }

    /// An empty buffer for at most `capacity` characters.
    pub fn new(capacity: usize) -> (r: Self)
        ensures
            r@ == Seq::<u8>::empty(),
            r.max_len() == capacity,
    {
        ResponseBuffer { bytes: Vec::new(), capacity }
    }

    /// The number of characters received.
    pub fn len(&self) -> (n: usize)
        ensures
            n == self@.len(),
    {
        self.bytes.len()
    }

    /// Whether no room is left.
    pub fn is_full(&self) -> (r: bool)
        ensures
            r == (self@.len() >= self.max_len()),
    {
        self.bytes.len() >= self.capacity
    }

    /// How long to wait for the next character: longer for the first one.
    pub fn timeout_ms(&self) -> (t: u64)
        ensures
            t == if self@.len() == 0 {
                FIRST_CHAR_TIMEOUT_MS
            } else {
                NEXT_CHAR_TIMEOUT_MS
            },
    {
        if self.bytes.len() == 0 {
            FIRST_CHAR_TIMEOUT_MS
        } else {
            NEXT_CHAR_TIMEOUT_MS
        }
    }

    /// Stores one received character. Refused with `InvalidResponse`, and
    /// nothing stored, where the buffer is full; otherwise tells whether the
    /// character ends the response.
    pub fn push(&mut self, byte: u8) -> (r: Result<bool, Sdi12Error>)
        ensures
            final(self).max_len() == old(self).max_len(),
            final(self)@.len() <= final(self).max_len(),
            (final(self)@, r) == push_outcome(old(self)@, old(self).max_len(), byte),
    {
        proof {
            use_type_invariant(&*self);
        }
        if self.bytes.len() >= self.capacity {
            return Err(Sdi12Error::InvalidResponse);
        }
        let mut bytes = Vec::new();
        std::mem::swap(&mut bytes, &mut self.bytes);
        bytes.push(byte);
        self.bytes = bytes;
        Ok(byte == LINE_FEED)
    }

    /// The characters received.
    pub fn as_slice(&self) -> (s: &[u8])
        ensures
            s@ == self@,
    {
        self.bytes.as_slice()
    }
}

/// A character read by the UART with its parity bit cleared: the UART
/// delivers seven data bits and the parity bit as one byte.
pub fn strip_parity(c: u8) -> (r: u8)
    ensures
        r == c & 0x7Fu8,
        r < 128,
{
    assert(c & 0x7Fu8 < 128u8) by (bit_vector);
    c & 0x7F
}

} // verus!
