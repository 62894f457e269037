//! The descriptive flag bits of an index header.
use vstd::prelude::*;

verus! {

/// Bit set when the records of the source text were shuffled.
pub const RANDOM_BIT: u32 = 1;

/// Bit set when the records of the source text were sorted.
pub const ORDERED_BIT: u32 = 2;

/// Bit set when the records of the source text are ROT13 encoded.
pub const ROTATED_BIT: u32 = 4;

/// Three independent, named capabilities; packed into the low three bits of a word.
#[derive(Clone, Copy, Debug, PartialEq, Eq, Structural)]
pub struct Flags {
    pub random: bool,
    pub ordered: bool,
    pub rotated: bool,
}

/// The word that packs the flags.
pub open spec fn bits_of(f: Flags) -> u32 {
    ((if f.random { RANDOM_BIT } else { 0 }) + (if f.ordered { ORDERED_BIT } else { 0 }) + (
    if f.rotated { ROTATED_BIT } else { 0 })) as u32
}

/// The flags that a word packs, when it holds no unknown bit.
pub open spec fn flags_of_bits(bits: u32) -> Option<Flags> {
    if bits > 7 {
        None
    } else {
        Some(Flags { random: bits % 2 == 1, ordered: (bits / 2) % 2 == 1, rotated: bits / 4 == 1 })
    }
}

/// The display names of the set flags, in bit order.
pub open spec fn names_of(f: Flags) -> Seq<Seq<char>> {
    (if f.random { seq!["Random"@] } else { seq![] }) + (if f.ordered { seq!["Ordered"@] } else {
        seq![]
    }) + (if f.rotated { seq!["Rotated"@] } else { seq![] })
}

impl Flags {
    /// No flag set.
    pub fn empty() -> (r: Flags)
        ensures
            !r.random && !r.ordered && !r.rotated,
    {
        Flags { random: false, ordered: false, rotated: false }
    }

    /// The packed word.
    pub fn bits(&self) -> (r: u32)
        ensures
            r == bits_of(*self),
            r <= 7,
    {
        let mut r: u32 = 0;
        if self.random {
            r = r + RANDOM_BIT;
        }
        if self.ordered {
            r = r + ORDERED_BIT;
        }
        if self.rotated {
            r = r + ROTATED_BIT;
        }
        r
    }

    /// Unpacks a word; `None` when it holds a bit that names no flag.
    pub fn from_bits(bits: u32) -> (r: Option<Flags>)
        ensures
            r == flags_of_bits(bits),
    {
        if bits > 7 {
            None
        } else {
            Some(Flags { random: bits % 2 == 1, ordered: (bits / 2) % 2 == 1, rotated: bits / 4 == 1 })
        }
    }

    /// The names of the set flags, in bit order.
    pub fn names(&self) -> (r: Vec<&'static str>)
        ensures
            r@.map_values(|s: &'static str| s@) == names_of(*self),
    {
        let mut r: Vec<&'static str> = Vec::new();
        if self.random {
            r.push("Random");
        }
        if self.ordered {
            r.push("Ordered");
        }
        if self.rotated {
            r.push("Rotated");
        }
        assert(r@.map_values(|s: &'static str| s@) =~= names_of(*self));
        r
    }
}

impl Default for Flags {
    fn default() -> (r: Flags)
        ensures
            !r.random && !r.ordered && !r.rotated,
    {
        Flags::empty()
    }
}

/// Packing a set of flags and unpacking the word gives the same flags back.
pub proof fn lemma_flags_round_trip(f: Flags)
    ensures
        flags_of_bits(bits_of(f)) == Some(f),
{
}

} // verus!
