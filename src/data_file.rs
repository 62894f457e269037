//! An index document: a header followed by its offset table.
use vstd::prelude::*;

use crate::codec::{be_bytes, be_word_at, push_be, read_be};
use crate::header::{decode_header, header_bytes, header_round_trips, DecodeError, Header, HEADER_LEN};

verus! {

/// A header and the offsets of its records in the source text, plus the
/// end-of-data sentinel.
#[derive(Debug)]
pub struct DataFile {
    pub header: Header,
    pub offsets: Vec<u32>,
}

/// The encoding of an offset table: one big-endian word per offset, in order.
pub open spec fn offsets_bytes(offs: Seq<u32>) -> Seq<u8>
    decreases offs.len(),
{
    if offs.len() == 0 {
        Seq::empty()
    } else {
        offsets_bytes(offs.drop_last()) + be_bytes(offs.last())
    }
}

/// The encoding of an index document.
pub open spec fn index_bytes(h: Header, offs: Seq<u32>) -> Seq<u8> {
    header_bytes(h) + offsets_bytes(offs)
}

/// The `n` big-endian words that start at position `start` of `b`.
pub open spec fn decode_offsets(b: Seq<u8>, start: int, n: int) -> Seq<u32> {
    Seq::new(n as nat, |i: int| be_word_at(b, start + 4 * i))
}

/// Reading an index document: the header as `decode_header` reads it, then
/// exactly `count + 1` offsets; bytes that end before them are an error.
pub open spec fn decode_index(b: Seq<u8>) -> Result<Option<(Header, Seq<u32>)>, DecodeError> {
    match decode_header(b) {
        Err(e) => Err(e),
        Ok(None) => Ok(None),
        Ok(Some(h)) => if b.len() < HEADER_LEN + 4 * (h.count + 1) {
            Err(DecodeError::Truncated)
        } else {
            Ok(Some((h, decode_offsets(b, HEADER_LEN as int, h.count + 1))))
        },
    }
}

/// `r` holds what `s` describes: the same error, nothing, or a document with
/// that header and those offsets.
pub open spec fn read_as(
    r: Result<Option<DataFile>, DecodeError>,
    s: Result<Option<(Header, Seq<u32>)>, DecodeError>,
) -> bool {
    match (r, s) {
        (Err(e1), Err(e2)) => e1 == e2,
        (Ok(None), Ok(None)) => true,
        (Ok(Some(d)), Ok(Some((h, o)))) => d.header == h && d.offsets@ == o,
        _ => false,
    }
}

/// Offsets never decrease along the table.
pub open spec fn non_decreasing(offs: Seq<u32>) -> bool {
    forall|i: int, j: int| 0 <= i <= j < offs.len() ==> offs[i] <= offs[j]
}

proof fn lemma_offsets_bytes_at(offs: Seq<u32>)
    ensures
        offsets_bytes(offs).len() == 4 * offs.len(),
        forall|i: int, j: int|
            0 <= i < offs.len() && 0 <= j < 4 ==> #[trigger] offsets_bytes(offs)[4 * i + j]
                == be_bytes(offs[i])[j],
    decreases offs.len(),
{
    if offs.len() > 0 {
        lemma_offsets_bytes_at(offs.drop_last());
        let n = offs.len() - 1;
        assert forall|i: int, j: int| 0 <= i < offs.len() && 0 <= j < 4 implies #[trigger] offsets_bytes(
            offs,
        )[4 * i + j] == be_bytes(offs[i])[j] by {
            if i < n {
                assert(offsets_bytes(offs)[4 * i + j] == offsets_bytes(offs.drop_last())[4 * i + j]);
            }
        }
    }
}

/// Reading back an encoded offset table gives the table, wherever it stands
/// among other bytes.
pub proof fn lemma_offsets_round_trip(prefix: Seq<u8>, offs: Seq<u32>, rest: Seq<u8>)
    ensures
        decode_offsets(prefix + offsets_bytes(offs) + rest, prefix.len() as int, offs.len() as int)
            == offs,
{
    lemma_offsets_bytes_at(offs);
    let b = prefix + offsets_bytes(offs) + rest;
    let p = prefix.len() as int;
    assert forall|i: int| 0 <= i < offs.len() implies be_word_at(b, p + 4 * i) == offs[i] by {
        crate::codec::lemma_be_word(offs[i]);
        assert(b[p + 4 * i] == offsets_bytes(offs)[4 * i + 0]);
        assert(b[p + 4 * i + 1] == offsets_bytes(offs)[4 * i + 1]);
        assert(b[p + 4 * i + 2] == offsets_bytes(offs)[4 * i + 2]);
        assert(b[p + 4 * i + 3] == offsets_bytes(offs)[4 * i + 3]);
    }
    assert(decode_offsets(b, p, offs.len() as int) =~= offs);
}

/// Reading the encoding of an index document gives the document back, when
/// its header round-trips and its table holds `count + 1` offsets.
pub proof fn lemma_index_round_trip(h: Header, offs: Seq<u32>)
    requires
        header_round_trips(h),
        offs.len() == h.count + 1,
    ensures
        decode_index(index_bytes(h, offs)) == Ok::<Option<(Header, Seq<u32>)>, DecodeError>(
            Some((h, offs)),
        ),
{
    let b = index_bytes(h, offs);
    crate::header::lemma_header_round_trip(h, offsets_bytes(offs));
    lemma_offsets_bytes_at(offs);
    lemma_offsets_round_trip(header_bytes(h), offs, Seq::empty());
    assert(header_bytes(h) + offsets_bytes(offs) + Seq::empty() =~= b);
}

impl DataFile {
    /// The encoded document: the header, then every offset.
    pub fn to_bytes(&self) -> (r: Vec<u8>)
        ensures
            r@ == index_bytes(self.header, self.offsets@),
    {
        let mut out = self.header.to_bytes();
        let mut i: usize = 0;
        while i < self.offsets.len()
            invariant
                i <= self.offsets@.len(),
                out@ == header_bytes(self.header) + offsets_bytes(self.offsets@.subrange(0, i as int)),
            decreases self.offsets@.len() - i,
        {
            proof {
                let s = self.offsets@.subrange(0, i as int + 1);
                assert(s.drop_last() =~= self.offsets@.subrange(0, i as int));
            }
            push_be(&mut out, self.offsets[i]);
            i = i + 1;
        }
        assert(self.offsets@.subrange(0, i as int) =~= self.offsets@);
        out
    }

    /// Reads an index document from `b`; `None` for an index of another
    /// version or without records, an error when the bytes end too early.
    pub fn from_bytes(b: &[u8]) -> (r: Result<Option<DataFile>, DecodeError>)
        ensures
            read_as(r, decode_index(b@)),
    {
        let header = match Header::from_bytes(b) {
            Err(e) => return Err(e),
            Ok(None) => return Ok(None),
            Ok(Some(h)) => h,
        };
        let n: u64 = header.count as u64 + 1;
        if (b.len() as u64) < HEADER_LEN as u64 + 4 * n {
            return Err(DecodeError::Truncated);
        }
        let len = b.len();
        let n = n as usize;
        let mut offsets: Vec<u32> = Vec::new();
        let mut i: usize = 0;
        while i < n
            invariant
                n == header.count + 1,
                len == b@.len(),
                HEADER_LEN + 4 * n <= b@.len(),
                i <= n,
                offsets@ == decode_offsets(b@, HEADER_LEN as int, i as int),
            decreases n - i,
        {
            offsets.push(read_be(b, HEADER_LEN + 4 * i));
            i = i + 1;
            assert(offsets@ =~= decode_offsets(b@, HEADER_LEN as int, i as int));
        }
        Ok(Some(DataFile { header, offsets }))
    }
}

} // verus!
