//! Weighted random choice of one record among all usable indexes.
use vstd::prelude::*;

use crate::error::{Failure, FortuneError};
use crate::store::FortuneFileInfo;

verus! {

/// Where a chosen record lies: which index, which of its records, and the
/// bytes of the source text that hold it (separator line left out).
#[derive(Clone, Copy, Debug, PartialEq, Eq, Structural)]
pub struct RecordRange {
    pub file_index: usize,
    pub record: usize,
    pub start: u32,
    pub len: u32,
}

/// The record counts of the indexes, in order.
pub open spec fn counts_of(infos: Seq<FortuneFileInfo>) -> Seq<int> {
    infos.map_values(|f: FortuneFileInfo| f.data_file.header.count as int)
}

/// The sum of the counts from position `k` on.
pub open spec fn sum_from(c: Seq<int>, k: int) -> int
    decreases c.len() - k,
{
    if k < 0 || k >= c.len() {
        0
    } else {
        c[k] + sum_from(c, k + 1)
    }
}

/// The number of records in all indexes.
pub open spec fn total_of(infos: Seq<FortuneFileInfo>) -> int {
    sum_from(counts_of(infos), 0)
}

/// Walks the counts from position `k` with a remaining draw `index`: an index
/// whose count is less than the draw passes it on, reduced by that count;
/// otherwise the index owns the draw, which is then the local record number.
/// A draw equal to the count stays with the index.
pub open spec fn resolve_from(c: Seq<int>, k: int, index: int) -> (int, int)
    decreases c.len() - k,
{
    if k < 0 || k >= c.len() {
        (k, index)
    } else if c[k] < index {
        resolve_from(c, k + 1, index - c[k])
    } else {
        (k, index)
    }
}

/// Where global draw `index` lands: the index that owns it and the local record.
pub open spec fn resolve(infos: Seq<FortuneFileInfo>, index: int) -> (int, int) {
    resolve_from(counts_of(infos), 0, index)
}

/// The outcome of locating draw `index`: the record's byte range, or the
/// failure that the owning index causes.
pub open spec fn locate_spec(infos: Seq<FortuneFileInfo>, index: int) -> Result<RecordRange, Failure> {
    let (f, l) = resolve(infos, index);
    let info = infos[f];
    let offs = info.data_file.offsets@;
    if l == info.data_file.header.count {
        Err(Failure::RecordOutOfRange(info.path@))
    } else if offs[l + 1] < offs[l] + 2 {
        Err(Failure::CorruptIndex(info.path@))
    } else {
        Ok(
            RecordRange {
                file_index: f as usize,
                record: l as usize,
                start: offs[l],
                len: (offs[l + 1] - offs[l] - 2) as u32,
            },
        )
    }
}

pub open spec fn outcome_view(r: Result<RecordRange, FortuneError>) -> Result<RecordRange, Failure> {
    match r {
        Ok(x) => Ok(x),
        Err(e) => Err(e@),
    }
}

pub open spec fn all_wf(infos: Seq<FortuneFileInfo>) -> bool {
    forall|k: int| 0 <= k < infos.len() ==> (#[trigger] infos[k]).wf()
}

proof fn lemma_resolve_in_range(c: Seq<int>, k: int, index: int)
    requires
        0 <= k <= c.len(),
        0 <= index < sum_from(c, k),
        forall|m: int| 0 <= m < c.len() ==> c[m] >= 0,
    ensures
        k <= resolve_from(c, k, index).0 < c.len(),
        0 <= resolve_from(c, k, index).1 <= c[resolve_from(c, k, index).0],
    decreases c.len() - k,
{
    if k < c.len() && c[k] < index {
        lemma_resolve_in_range(c, k + 1, index - c[k]);
    }
}

/// A draw below the total lands in some index, on a local number no larger
/// than that index's count.
pub proof fn lemma_draw_lands(infos: Seq<FortuneFileInfo>, index: int)
    requires
        0 <= index < total_of(infos),
    ensures
        0 <= resolve(infos, index).0 < infos.len(),
        0 <= resolve(infos, index).1 <= infos[resolve(infos, index).0].data_file.header.count,
{
    lemma_resolve_in_range(counts_of(infos), 0, index);
}

/// Over one index of three records the total is three, and draw `r` lands on
/// record `r` of that index; with a record at least as long as its separator
/// line, locating the draw gives that record's bytes.
pub proof fn lemma_single_index_draws(infos: Seq<FortuneFileInfo>, r: int)
    requires
        infos.len() == 1,
        infos[0].data_file.header.count == 3,
        0 <= r < 3,
    ensures
        total_of(infos) == 3,
        resolve(infos, r) == (0int, r),
        ({
            let offs = infos[0].data_file.offsets@;
            offs[r + 1] >= offs[r] + 2 ==> locate_spec(infos, r) == Ok::<RecordRange, Failure>(
                RecordRange {
                    file_index: 0,
                    record: r as usize,
                    start: offs[r],
                    len: (offs[r + 1] - offs[r] - 2) as u32,
                },
            )
        }),
{
    let c = counts_of(infos);
    assert(c =~= seq![3int]);
    reveal_with_fuel(sum_from, 2);
}

/// Over two indexes of two and three records the total is five. Draws 0 and 1
/// land on those records of the first index; draws 3 and 4 on records 1 and 2
/// of the second, the first index's count taken off. Draw 2 equals the first
/// count and so stays with the first index, on its end-of-data position,
/// which starts no record.
pub proof fn lemma_two_index_draws(infos: Seq<FortuneFileInfo>, r: int)
    requires
        infos.len() == 2,
        infos[0].data_file.header.count == 2,
        infos[1].data_file.header.count == 3,
        0 <= r < 5,
    ensures
        total_of(infos) == 5,
        r < 2 ==> resolve(infos, r) == (0int, r),
        r == 2 ==> resolve(infos, r) == (0int, 2int) && locate_spec(infos, r)
            == Err::<RecordRange, Failure>(Failure::RecordOutOfRange(infos[0].path@)),
        r > 2 ==> resolve(infos, r) == (1int, r - 2),
        ({
            let offs = infos[0].data_file.offsets@;
            r < 2 && offs[r + 1] >= offs[r] + 2 ==> locate_spec(infos, r) == Ok::<
                RecordRange,
                Failure,
            >(
                RecordRange {
                    file_index: 0,
                    record: r as usize,
                    start: offs[r],
                    len: (offs[r + 1] - offs[r] - 2) as u32,
                },
            )
        }),
        ({
            let offs = infos[1].data_file.offsets@;
            let l = r - 2;
            r > 2 && offs[l + 1] >= offs[l] + 2 ==> locate_spec(infos, r) == Ok::<
                RecordRange,
                Failure,
            >(
                RecordRange {
                    file_index: 1,
                    record: l as usize,
                    start: offs[l],
                    len: (offs[l + 1] - offs[l] - 2) as u32,
                },
            )
        }),
{
    let c = counts_of(infos);
    assert(c =~= seq![2int, 3int]);
    reveal_with_fuel(sum_from, 3);
    reveal_with_fuel(resolve_from, 3);
}

/// The total number of records, summed from the last index to the first.
pub fn total_count(infos: &Vec<FortuneFileInfo>) -> (r: u128)
    ensures
        r == total_of(infos@),
{
    let ghost c = counts_of(infos@);
    let mut total: u128 = 0;
    let len = infos.len();
    let mut i: usize = len;
    while i > 0
        invariant
            len == infos@.len(),
            i <= infos@.len(),
            c == counts_of(infos@),
            total == sum_from(c, i as int),
            total <= (infos@.len() - i) * 0xFFFF_FFFFnat,
        decreases i,
    {
        let n = infos[i - 1].count();
        proof {
            assert(infos@.len() <= usize::MAX);
            assert((infos@.len() - i + 1) * 0xFFFF_FFFFnat <= 0x1_0000_0000_0000_0000nat * 0xFFFF_FFFFnat)
                by (nonlinear_arith)
                requires
                    infos@.len() - i + 1 <= 0x1_0000_0000_0000_0000nat,
            ;
            assert((infos@.len() - i + 1) * 0xFFFF_FFFFnat == (infos@.len() - i) * 0xFFFF_FFFFnat
                + 0xFFFF_FFFFnat) by (nonlinear_arith);
        }
        total = total + n as u128;
        i = i - 1;
    }
    total
}

/// Locates global draw `index`: the owning index and the record's bytes.
pub fn locate(infos: &Vec<FortuneFileInfo>, index: u128) -> (r: Result<RecordRange, FortuneError>)
    requires
        all_wf(infos@),
        index < total_of(infos@),
    ensures
        outcome_view(r) == locate_spec(infos@, index as int),
{
    let ghost c = counts_of(infos@);
    proof {
        lemma_draw_lands(infos@, index as int);
    }
    let mut k: usize = 0;
    let mut idx: u128 = index;
    while k < infos.len() && (infos[k].count() as u128) < idx
        invariant
            c == counts_of(infos@),
            k <= infos@.len(),
            idx < sum_from(c, k as int),
            resolve_from(c, k as int, idx as int) == resolve(infos@, index as int),
        decreases infos@.len() - k,
    {
        idx = idx - infos[k].count() as u128;
        k = k + 1;
    }
    let info = &infos[k];
    let local = idx as usize;
    if local == info.count() {
        return Err(FortuneError::RecordOutOfRange(info.path.clone()));
    }
    let start = info.offset_at(local);
    let end = info.offset_at(local + 1);
    if end < start || end - start < 2 {
        return Err(FortuneError::CorruptIndex(info.path.clone()));
    }
    Ok(RecordRange { file_index: k, record: local, start, len: end - start - 2 })
}

/// Relies on `rand::Rng::gen_range` over the thread's generator: a number
/// drawn from `0..total`, which must not be empty.
#[verifier::external_body]
fn draw_below(total: u128) -> (r: u128)
    requires
        total > 0,
    ensures
        r < total,
{
    rand::Rng::gen_range(&mut rand::thread_rng(), 0..total)
}

/// Draws one record uniformly among all records of all indexes and locates
/// it. Fails with `NoFortunesAvailable` exactly when there is no record.
pub fn random_fortune(infos: &Vec<FortuneFileInfo>) -> (r: Result<RecordRange, FortuneError>)
    requires
        all_wf(infos@),
    ensures
        (outcome_view(r) == Err::<RecordRange, Failure>(Failure::NoFortunesAvailable)) <==> total_of(
            infos@,
        ) == 0,
        total_of(infos@) > 0 ==> exists|index: int|
            0 <= index < total_of(infos@) && outcome_view(r) == locate_spec(infos@, index),
{
    let total = total_count(infos);
    if total == 0 {
        return Err(FortuneError::NoFortunesAvailable);
    }
    let index = draw_below(total);
    let r = locate(infos, index);
    assert(0 <= index < total_of(infos@) && outcome_view(r) == locate_spec(infos@, index as int));
    r
}

} // verus!
