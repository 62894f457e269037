//! The fixed 24-byte metadata block that opens every index file.
use vstd::prelude::*;

use crate::codec::{be_bytes, be_word_at, le_bytes, push_be, push_le, read_be};
use crate::flags::{bits_of, flags_of_bits, Flags};

verus! {

/// The only format generation this library reads and writes.
pub const SUPPORTED_VERSION: u32 = 2;

/// The record separator used when none is given.
pub const DEFAULT_SEPARATOR: char = '%';

/// Size in bytes of an encoded header.
pub const HEADER_LEN: usize = 24;

/// Metadata of one index: format generation, record count, extreme record
/// lengths, descriptive flags and the separator character of the source text.
#[derive(Clone, Copy, Debug, PartialEq, Eq, Structural)]
pub struct Header {
    pub version: u32,
    pub count: u32,
    pub longest: u32,
    pub shortest: u32,
    pub flags: Flags,
    pub separator: char,
}

/// Why an index could not be read.
#[derive(Clone, Copy, Debug, PartialEq, Eq, Structural)]
pub enum DecodeError {
    /// The bytes end before the header or the offset table is complete.
    Truncated,
}

/// The encoding of a header: five big-endian words, then the separator's
/// code point as a little-endian word.
pub open spec fn header_bytes(h: Header) -> Seq<u8> {
    be_bytes(h.version) + be_bytes(h.count) + be_bytes(h.longest) + be_bytes(h.shortest)
        + be_bytes(bits_of(h.flags)) + le_bytes(h.separator as u32)
}

/// The header that 24 or more bytes describe. Unknown flag bits read as no
/// flags; the separator is the low (first) byte of its word.
pub open spec fn header_of_bytes(b: Seq<u8>) -> Header {
    Header {
        version: be_word_at(b, 0),
        count: be_word_at(b, 4),
        longest: be_word_at(b, 8),
        shortest: be_word_at(b, 12),
        flags: match flags_of_bits(be_word_at(b, 16)) {
            Some(f) => f,
            None => Flags { random: false, ordered: false, rotated: false },
        },
        separator: b[20] as char,
    }
}

/// Reading a header from the start of `b`: an error when the bytes end too
/// early, `None` for a version this library does not read or an empty index.
/// The version is looked at before the count, and the count before the rest.
pub open spec fn decode_header(b: Seq<u8>) -> Result<Option<Header>, DecodeError> {
    if b.len() < 4 {
        Err(DecodeError::Truncated)
    } else if be_word_at(b, 0) != SUPPORTED_VERSION {
        Ok(None)
    } else if b.len() < 8 {
        Err(DecodeError::Truncated)
    } else if be_word_at(b, 4) == 0 {
        Ok(None)
    } else if b.len() < HEADER_LEN {
        Err(DecodeError::Truncated)
    } else {
        Ok(Some(header_of_bytes(b)))
    }
}

/// A header that reading its encoding gives back whole.
pub open spec fn header_round_trips(h: Header) -> bool {
    &&& h.version == SUPPORTED_VERSION
    &&& h.count > 0
    &&& (h.separator as u32) < 256
}

impl Header {
    pub fn new(
        version: u32,
        count: u32,
        longest: u32,
        shortest: u32,
        flags: Flags,
        separator: char,
    ) -> (r: Header)
        ensures
            r == (Header { version, count, longest, shortest, flags, separator }),
    {
        Header { version, count, longest, shortest, flags, separator }
    }

    /// The supported version, no records, no flags and the default separator.
    pub fn default_header() -> (r: Header)
        ensures
            r == (Header {
                version: SUPPORTED_VERSION,
                count: 0,
                longest: 0,
                shortest: 0,
                flags: Flags { random: false, ordered: false, rotated: false },
                separator: DEFAULT_SEPARATOR,
            }),
    {
        Header::new(SUPPORTED_VERSION, 0, 0, 0, Flags::empty(), DEFAULT_SEPARATOR)
    }

    pub fn version(&self) -> (r: u32)
        ensures
            r == self.version,
    {
        self.version
    }

    pub fn count(&self) -> (r: u32)
        ensures
            r == self.count,
    {
        self.count
    }

    pub fn set_count(&mut self, count: u32)
        ensures
            *final(self) == (Header { count, ..*old(self) }),
    {
        self.count = count;
    }

    pub fn longest(&self) -> (r: u32)
        ensures
            r == self.longest,
    {
        self.longest
    }

    pub fn set_longest(&mut self, longest: u32)
        ensures
            *final(self) == (Header { longest, ..*old(self) }),
    {
        self.longest = longest;
    }

    pub fn shortest(&self) -> (r: u32)
        ensures
            r == self.shortest,
    {
        self.shortest
    }

    pub fn set_shortest(&mut self, shortest: u32)
        ensures
            *final(self) == (Header { shortest, ..*old(self) }),
    {
        self.shortest = shortest;
    }

    pub fn separator(&self) -> (r: char)
        ensures
            r == self.separator,
    {
        self.separator
    }

    pub fn set_separator(&mut self, c: char)
        ensures
            *final(self) == (Header { separator: c, ..*old(self) }),
    {
        self.separator = c;
    }

    pub fn flags(&self) -> (r: &Flags)
        ensures
            *r == self.flags,
    {
        &self.flags
    }

    pub fn set_flags(&mut self, flags: Flags)
        ensures
            *final(self) == (Header { flags, ..*old(self) }),
    {
        self.flags = flags;
    }

    pub fn is_random(&self) -> (r: bool)
        ensures
            r == self.flags.random,
    {
        self.flags.random
    }

    /// Sets the Random flag, leaving the others as they are.
    pub fn set_is_random(&mut self)
        ensures
            *final(self) == (Header { flags: Flags { random: true, ..old(self).flags }, ..*old(self) }),
    {
        self.flags.random = true;
    }

    pub fn is_ordered(&self) -> (r: bool)
        ensures
            r == self.flags.ordered,
    {
        self.flags.ordered
    }

    /// Sets the Ordered flag, leaving the others as they are.
    pub fn set_is_ordered(&mut self)
        ensures
            *final(self) == (Header { flags: Flags { ordered: true, ..old(self).flags }, ..*old(self) }),
    {
        self.flags.ordered = true;
    }

    pub fn is_rotated(&self) -> (r: bool)
        ensures
            r == self.flags.rotated,
    {
        self.flags.rotated
    }

    /// Sets the Rotated flag, leaving the others as they are.
    pub fn set_is_rotated(&mut self)
        ensures
            *final(self) == (Header { flags: Flags { rotated: true, ..old(self).flags }, ..*old(self) }),
    {
        self.flags.rotated = true;
    }

    /// The encoded header.
    pub fn to_bytes(&self) -> (r: Vec<u8>)
        ensures
            r@ == header_bytes(*self),
            r@.len() == HEADER_LEN,
    {
        let mut out: Vec<u8> = Vec::new();
        push_be(&mut out, self.version);
        push_be(&mut out, self.count);
        push_be(&mut out, self.longest);
        push_be(&mut out, self.shortest);
        push_be(&mut out, self.flags.bits());
        push_le(&mut out, self.separator as u32);
        assert(out@ =~= header_bytes(*self));
        out
    }

    /// Reads a header from the start of `b`.
    pub fn from_bytes(b: &[u8]) -> (r: Result<Option<Header>, DecodeError>)
        ensures
            r == decode_header(b@),
    {
        if b.len() < 4 {
            return Err(DecodeError::Truncated);
        }
        let version = read_be(b, 0);
        if version != SUPPORTED_VERSION {
            return Ok(None);
        }
        if b.len() < 8 {
            return Err(DecodeError::Truncated);
        }
        let count = read_be(b, 4);
        if count == 0 {
            return Ok(None);
        }
        if b.len() < HEADER_LEN {
            return Err(DecodeError::Truncated);
        }
        let flags = match Flags::from_bits(read_be(b, 16)) {
            Some(f) => f,
            None => Flags::empty(),
        };
        Ok(Some(Header::new(version, count, read_be(b, 8), read_be(b, 12), flags, b[20] as char)))
    }
}

impl Default for Header {
    fn default() -> (r: Header)
        ensures
            r == (Header {
                version: SUPPORTED_VERSION,
                count: 0,
                longest: 0,
                shortest: 0,
                flags: Flags { random: false, ordered: false, rotated: false },
                separator: DEFAULT_SEPARATOR,
            }),
    {
        Header::default_header()
    }
}

/// Reading the encoding of a header whose version is supported, whose count is
/// positive and whose separator fits in one byte gives that header back,
/// whatever bytes follow it.
pub proof fn lemma_header_round_trip(h: Header, rest: Seq<u8>)
    requires
        header_round_trips(h),
    ensures
        decode_header(header_bytes(h) + rest) == Ok::<Option<Header>, DecodeError>(Some(h)),
{
    let b = header_bytes(h) + rest;
    crate::codec::lemma_be_word(h.version);
    crate::codec::lemma_be_word(h.count);
    crate::codec::lemma_be_word(h.longest);
    crate::codec::lemma_be_word(h.shortest);
    crate::codec::lemma_be_word(bits_of(h.flags));
    crate::flags::lemma_flags_round_trip(h.flags);
    assert(be_word_at(b, 0) == h.version);
    assert(be_word_at(b, 4) == h.count);
    assert(be_word_at(b, 8) == h.longest);
    assert(be_word_at(b, 12) == h.shortest);
    assert(be_word_at(b, 16) == bits_of(h.flags));
    let c = h.separator as u32;
    assert(b[20] == c as u8);
    assert((c as u8) as u32 == c) by (bit_vector)
        requires
            c < 256,
    ;
    assert(header_of_bytes(b) == h);
}

} // verus!
