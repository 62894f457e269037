//! Building an index document by scanning delimited source text.
use vstd::prelude::*;

use crate::data_file::{non_decreasing, DataFile};
use crate::flags::Flags;
use crate::header::{Header, SUPPORTED_VERSION};

verus! {

/// The UTF-8 encoding of a character.
pub open spec fn utf8_of(c: char) -> Seq<u8> {
    let v = c as u32;
    if v < 0x80 {
        seq![v as u8]
    } else if v < 0x800 {
        seq![(0xC0 | (v >> 6)) as u8, (0x80 | (v & 0x3F)) as u8]
    } else if v < 0x10000 {
        seq![(0xE0 | (v >> 12)) as u8, (0x80 | ((v >> 6) & 0x3F)) as u8, (0x80 | (v & 0x3F)) as u8]
    } else {
        seq![
            (0xF0 | (v >> 18)) as u8,
            (0x80 | ((v >> 12) & 0x3F)) as u8,
            (0x80 | ((v >> 6) & 0x3F)) as u8,
            (0x80 | (v & 0x3F)) as u8,
        ]
    }
}

/// The line that ends a record: the separator alone, then a newline.
pub open spec fn separator_line_of(c: char) -> Seq<u8> {
    utf8_of(c).push(10u8)
}

/// What the scan knows after some lines: records ended so far, the shortest
/// and longest of their lengths, their start offsets, the start of the current
/// record and the bytes it holds so far.
pub struct ScanState {
    pub count: int,
    pub shortest: int,
    pub longest: int,
    pub offsets: Seq<int>,
    pub offset: int,
    pub len: int,
}

/// The state before any line.
pub open spec fn initial_scan() -> ScanState {
    ScanState { count: 0, shortest: u32::MAX as int, longest: 0, offsets: seq![], offset: 0, len: 0 }
}

/// A complete line of `line_len` bytes: a separator line ends the record,
/// any other adds to it.
pub open spec fn take_line(st: ScanState, is_separator: bool, line_len: int) -> ScanState {
    if is_separator {
        ScanState {
            count: st.count + 1,
            shortest: if st.len < st.shortest { st.len } else { st.shortest },
            longest: if st.len > st.longest { st.len } else { st.longest },
            offsets: st.offsets.push(st.offset),
            offset: st.offset + st.len + line_len,
            len: 0,
        }
    } else {
        ScanState { len: st.len + line_len, ..st }
    }
}

/// Scans `t` from byte `i`, where the current line began at `line_start`.
/// A line is complete at its newline; a last line without one ends no record.
pub open spec fn scan(t: Seq<u8>, sep: Seq<u8>, i: int, line_start: int, st: ScanState) -> ScanState
    decreases t.len() - i,
{
    if i < 0 || i >= t.len() {
        st
    } else if t[i] == 10 {
        let line = t.subrange(line_start, i + 1);
        scan(t, sep, i + 1, i + 1, take_line(st, line == sep, line.len() as int))
    } else {
        scan(t, sep, i + 1, line_start, st)
    }
}

/// The state after the whole text.
pub open spec fn scan_text(t: Seq<u8>, sep: Seq<u8>) -> ScanState {
    scan(t, sep, 0, 0, initial_scan())
}

/// The offset table of a scan: each record's start, then the end-of-data sentinel.
pub open spec fn table_of(st: ScanState) -> Seq<int> {
    st.offsets.push(st.offset)
}

pub open spec fn as_ints(s: Seq<u32>) -> Seq<int> {
    s.map_values(|x: u32| x as int)
}

/// The line ends with its only newline.
pub open spec fn single_line(d: Seq<u8>) -> bool {
    &&& d.len() >= 1
    &&& d.last() == 10
    &&& forall|k: int| 0 <= k < d.len() - 1 ==> d[k] != 10
}

/// A record body: whole lines, none of which is the line `d`.
pub open spec fn is_record_body(r: Seq<u8>, d: Seq<u8>) -> bool {
    &&& r.len() == 0 || r.last() == 10
    &&& forall|i: int|
        0 <= i && i + d.len() <= r.len() && (i == 0 || r[i - 1] == 10) ==> #[trigger] r.subrange(
            i,
            i + d.len(),
        ) != d
}

/// The records, each followed by the line `d`.
pub open spec fn records_text(rs: Seq<Seq<u8>>, d: Seq<u8>) -> Seq<u8>
    decreases rs.len(),
{
    if rs.len() == 0 {
        seq![]
    } else {
        records_text(rs.drop_last(), d) + rs.last() + d
    }
}

proof fn lemma_separator_line_shape(c: char)
    requires
        c != '\n',
    ensures
        single_line(separator_line_of(c)),
        separator_line_of(c).len() >= 2,
{
    let v = c as u32;
    assert(v != 10);
    assert(((0xC0u32 | (v >> 6)) as u8) != 10u8) by (bit_vector);
    assert(((0x80u32 | (v & 0x3F)) as u8) != 10u8) by (bit_vector);
    assert(((0xE0u32 | (v >> 12)) as u8) != 10u8) by (bit_vector);
    assert(((0x80u32 | ((v >> 6) & 0x3F)) as u8) != 10u8) by (bit_vector);
    assert(((0xF0u32 | (v >> 18)) as u8) != 10u8) by (bit_vector);
    assert(((0x80u32 | ((v >> 12) & 0x3F)) as u8) != 10u8) by (bit_vector);
    assert(v < 0x80 ==> (v as u8) != 10u8) by (bit_vector)
        requires
            v != 10,
    ;
}

/// Scanning the lines of a record body adds its bytes to the current record.
proof fn lemma_scan_body(t: Seq<u8>, d: Seq<u8>, p: int, r: Seq<u8>, k: int, j: int, st: ScanState)
    requires
        0 <= p,
        p + r.len() <= t.len(),
        t.subrange(p, p + r.len()) == r,
        is_record_body(r, d),
        0 <= k <= j <= r.len(),
        k == 0 || r[k - 1] == 10,
        forall|m: int| k <= m < j ==> r[m] != 10,
    ensures
        scan(t, d, p + j, p + k, st) == scan(
            t,
            d,
            p + r.len(),
            p + r.len(),
            ScanState { len: st.len + (r.len() - k), ..st },
        ),
    decreases r.len() - j,
{
    if j == r.len() {
        if k < j {
            assert(r[r.len() - 1] != 10);
        }
        assert(ScanState { len: st.len + (r.len() - k), ..st } == st);
    } else {
        assert(t[p + j] == r[j]);
        if r[j] == 10 {
            let line = t.subrange(p + k, p + j + 1);
            assert(line =~= r.subrange(k, j + 1));
            if line == d {
                assert(r.subrange(k, k + d.len()) != d);
            }
            let st2 = take_line(st, false, line.len() as int);
            lemma_scan_body(t, d, p, r, j + 1, j + 1, st2);
        } else {
            lemma_scan_body(t, d, p, r, k, j + 1, st);
        }
    }
}

/// Scanning the separator line ends the current record.
proof fn lemma_scan_separator(t: Seq<u8>, d: Seq<u8>, q: int, j: int, st: ScanState)
    requires
        0 <= q,
        q + d.len() <= t.len(),
        t.subrange(q, q + d.len()) == d,
        single_line(d),
        0 <= j < d.len(),
    ensures
        scan(t, d, q + j, q, st) == scan(t, d, q + d.len(), q + d.len(), take_line(st, true, d.len() as int)),
    decreases d.len() - j,
{
    assert(t[q + j] == d[j]);
    if j < d.len() - 1 {
        lemma_scan_separator(t, d, q, j + 1, st);
    } else {
        assert(t.subrange(q, q + j + 1) == d);
    }
}

proof fn lemma_scan_records(rs: Seq<Seq<u8>>, d: Seq<u8>, rest: Seq<u8>) -> (st: ScanState)
    requires
        single_line(d),
        forall|i: int| 0 <= i < rs.len() ==> is_record_body(#[trigger] rs[i], d),
    ensures
        ({
            let t = records_text(rs, d) + rest;
            let n = records_text(rs, d).len() as int;
            &&& scan(t, d, 0, 0, initial_scan()) == scan(t, d, n, n, st)
            &&& st.count == rs.len()
            &&& st.offsets.len() == rs.len()
            &&& st.len == 0
        }),
    decreases rs.len(),
{
    if rs.len() == 0 {
        assert(records_text(rs, d) + rest =~= rest);
        initial_scan()
    } else {
        let a = records_text(rs.drop_last(), d);
        let r = rs.last();
        let t = records_text(rs, d) + rest;
        assert(t =~= a + (r + d + rest));
        let st0 = lemma_scan_records(rs.drop_last(), d, r + d + rest);
        let p = a.len() as int;
        assert(is_record_body(rs[rs.len() - 1], d));
        assert(t.subrange(p, p + r.len()) =~= r);
        lemma_scan_body(t, d, p, r, 0, 0, st0);
        let st1 = ScanState { len: st0.len + r.len(), ..st0 };
        let q = p + r.len();
        assert(t.subrange(q, q + d.len()) =~= d);
        lemma_scan_separator(t, d, q, 0, st1);
        take_line(st1, true, d.len() as int)
    }
}

/// A text made of `n` records, each of whole lines none of which is the
/// separator line and each followed by the separator line, scans to `n`
/// records, so its offset table holds `n + 1` offsets.
pub proof fn lemma_records_counted(rs: Seq<Seq<u8>>, separator: char)
    requires
        separator != '\n',
        forall|i: int| 0 <= i < rs.len() ==> is_record_body(#[trigger] rs[i], separator_line_of(separator)),
    ensures
        scan_text(records_text(rs, separator_line_of(separator)), separator_line_of(separator)).count
            == rs.len(),
        table_of(scan_text(records_text(rs, separator_line_of(separator)), separator_line_of(separator))).len()
            == rs.len() + 1,
{
    let d = separator_line_of(separator);
    lemma_separator_line_shape(separator);
    let t = records_text(rs, d);
    let st = lemma_scan_records(rs, d, seq![]);
    assert(t + seq![] =~= t);
}

/// The separator line's bytes.
pub fn separator_line(c: char) -> (r: Vec<u8>)
    ensures
        r@ == separator_line_of(c),
{
    let v = c as u32;
    let mut r: Vec<u8> = Vec::new();
    if v < 0x80 {
        r.push(v as u8);
    } else if v < 0x800 {
        r.push((0xC0 | (v >> 6)) as u8);
        r.push((0x80 | (v & 0x3F)) as u8);
    } else if v < 0x10000 {
        r.push((0xE0 | (v >> 12)) as u8);
        r.push((0x80 | ((v >> 6) & 0x3F)) as u8);
        r.push((0x80 | (v & 0x3F)) as u8);
    } else {
        r.push((0xF0 | (v >> 18)) as u8);
        r.push((0x80 | ((v >> 12) & 0x3F)) as u8);
        r.push((0x80 | ((v >> 6) & 0x3F)) as u8);
        r.push((0x80 | (v & 0x3F)) as u8);
    }
    r.push(10u8);
    assert(r@ =~= separator_line_of(c));
    r
}

/// Whether `t[start..end]` holds exactly the bytes of `pat`.
fn range_equals(t: &[u8], start: usize, end: usize, pat: &Vec<u8>) -> (r: bool)
    requires
        start <= end <= t@.len(),
    ensures
        r == (t@.subrange(start as int, end as int) == pat@),
{
    if end - start != pat.len() {
        return false;
    }
    let mut k: usize = 0;
    while k < pat.len()
        invariant
            start <= end <= t@.len(),
            end - start == pat@.len(),
            k <= pat@.len(),
            forall|m: int| 0 <= m < k ==> t@[start + m] == pat@[m],
        decreases pat@.len() - k,
    {
        if t[start + k] != pat[k] {
            assert(t@.subrange(start as int, end as int)[k as int] != pat@[k as int]);
            return false;
        }
        k = k + 1;
    }
    assert(t@.subrange(start as int, end as int) =~= pat@);
    true
}

/// Indexes `text`, whose records each end with a line holding `separator`
/// alone. Offsets count bytes, line terminators included; a record's length
/// leaves out its separator line. Content after the last separator line is
/// not a record.
pub fn build_data_file(text: &[u8], separator: char, flags: Flags) -> (r: DataFile)
    requires
        text@.len() <= u32::MAX,
    ensures
        ({
            let st = scan_text(text@, separator_line_of(separator));
            &&& r.header == (Header {
                version: SUPPORTED_VERSION,
                count: st.count as u32,
                longest: st.longest as u32,
                shortest: st.shortest as u32,
                flags,
                separator,
            })
            &&& r.header.count == st.count
            &&& r.header.longest == st.longest
            &&& r.header.shortest == st.shortest
            &&& as_ints(r.offsets@) == table_of(st)
        }),
        r.offsets@.len() == r.header.count + 1,
        non_decreasing(r.offsets@),
{
    let sep = separator_line(separator);
    let ghost sep_s = separator_line_of(separator);
    let mut count: u32 = 0;
    let mut shortest: u32 = u32::MAX;
    let mut longest: u32 = 0;
    let mut offsets: Vec<u32> = Vec::new();
    let mut offset: u32 = 0;
    let mut len: u32 = 0;
    let mut line_start: usize = 0;
    let mut i: usize = 0;
    proof {
        assert(as_ints(offsets@) =~= seq![]);
    }
    while i < text.len()
        invariant
            text@.len() <= u32::MAX,
            sep@ == sep_s,
            sep_s == separator_line_of(separator),
            sep_s.len() >= 2,
            i <= text@.len(),
            line_start <= i,
            offset + len == line_start,
            count <= offset,
            longest <= offset,
            offsets@.len() == count,
            non_decreasing(offsets@),
            forall|k: int| 0 <= k < offsets@.len() ==> offsets@[k] <= offset,
            scan(
                text@,
                sep_s,
                i as int,
                line_start as int,
                ScanState {
                    count: count as int,
                    shortest: shortest as int,
                    longest: longest as int,
                    offsets: as_ints(offsets@),
                    offset: offset as int,
                    len: len as int,
                },
            ) == scan_text(text@, sep_s),
        decreases text@.len() - i,
    {
        if text[i] == 10u8 {
            let line_len = (i + 1 - line_start) as u32;
            if range_equals(text, line_start, i + 1, &sep) {
                if len < shortest {
                    shortest = len;
                }
                if len > longest {
                    longest = len;
                }
                let ghost before = offsets@;
                offsets.push(offset);
                proof {
                    assert(as_ints(offsets@) =~= as_ints(before).push(offset as int));
                }
                offset = offset + len + line_len;
                count = count + 1;
                len = 0;
            } else {
                len = len + line_len;
            }
            line_start = i + 1;
        }
        i = i + 1;
    }
    let ghost before = offsets@;
    offsets.push(offset);
    proof {
        assert(as_ints(offsets@) =~= as_ints(before).push(offset as int));
    }
    let header = Header::new(SUPPORTED_VERSION, count, longest, shortest, flags, separator);
    DataFile { header, offsets }
}

} // verus!
