//! The usable indexes of a directory, each beside the path of its index file.
use vstd::prelude::*;

use crate::data_file::{decode_index, DataFile};
use crate::error::{Failure, FortuneError};
use crate::header::SUPPORTED_VERSION;
use crate::paths::{is_index_path, is_index_path_spec, logical_name_of, path_file_name, path_with_extension, text_path_of};

verus! {

/// One directory entry handed in for aggregation: its path and its bytes.
pub struct IndexEntry {
    pub path: String,
    pub bytes: Vec<u8>,
}

/// A usable index and the path of its index file.
#[derive(Debug)]
pub struct FortuneFileInfo {
    pub path: String,
    pub data_file: DataFile,
}

/// A usable index as a mathematical value: path, header, offsets.
pub type InfoView = (Seq<char>, crate::header::Header, Seq<u32>);

impl FortuneFileInfo {
    /// The offset table holds one offset per record plus the sentinel.
    pub open spec fn wf(&self) -> bool {
        self.data_file.offsets@.len() == self.data_file.header.count + 1
    }

    pub open spec fn view_info(&self) -> InfoView {
        (self.path@, self.data_file.header, self.data_file.offsets@)
    }

    pub fn new(path: String, data_file: DataFile) -> (r: FortuneFileInfo)
        ensures
            r.path == path,
            r.data_file == data_file,
    {
        FortuneFileInfo { path, data_file }
    }

    pub fn path(&self) -> (r: &String)
        ensures
            r == &self.path,
    {
        &self.path
    }

    /// The number of records.
    pub fn count(&self) -> (r: usize)
        ensures
            r == self.data_file.header.count,
    {
        self.data_file.header.count as usize
    }

    /// The offset at position `index` of the table.
    pub fn offset_at(&self, index: usize) -> (r: u32)
        requires
            index < self.data_file.offsets@.len(),
        ensures
            r == self.data_file.offsets@[index as int],
    {
        self.data_file.offsets[index]
    }

    /// The path of the source text: the index path without its extension.
    pub fn text_path(&self) -> (r: String)
        ensures
            r@ == text_path_of(self.path@),
    {
        proof {
            reveal_strlit("");
        }
        path_with_extension(self.path.as_str(), "")
    }

    /// The logical name: the source text's file name.
    pub fn fortune_file(&self) -> (r: String)
        ensures
            r@ == logical_name_of(self.path@),
    {
        let text = self.text_path();
        path_file_name(text.as_str())
    }
}

/// Aggregating entries in order: entries that are not index files and indexes
/// of another version or without records are left out; the first index that
/// ends too early fails the whole scan, naming its path.
pub open spec fn aggregate(es: Seq<(Seq<char>, Seq<u8>)>) -> Result<Seq<InfoView>, Failure>
    decreases es.len(),
{
    if es.len() == 0 {
        Ok(seq![])
    } else {
        match aggregate(es.drop_last()) {
            Err(f) => Err(f),
            Ok(v) => {
                let (p, b) = es.last();
                if !is_index_path_spec(p) {
                    Ok(v)
                } else {
                    match decode_index(b) {
                        Err(_) => Err(Failure::CorruptIndex(p)),
                        Ok(None) => Ok(v),
                        Ok(Some((h, o))) => Ok(v.push((p, h, o))),
                    }
                }
            },
        }
    }
}

pub open spec fn entries_view(es: Seq<IndexEntry>) -> Seq<(Seq<char>, Seq<u8>)> {
    es.map_values(|e: IndexEntry| (e.path@, e.bytes@))
}

pub open spec fn infos_view(v: Seq<FortuneFileInfo>) -> Seq<InfoView> {
    v.map_values(|i: FortuneFileInfo| i.view_info())
}

/// Every index is well formed, of the supported version and holds records.
pub open spec fn all_usable(v: Seq<FortuneFileInfo>) -> bool {
    forall|k: int|
        0 <= k < v.len() ==> {
            &&& (#[trigger] v[k]).wf()
            &&& v[k].data_file.header.version == SUPPORTED_VERSION
            &&& v[k].data_file.header.count > 0
        }
}

/// Bytes whose header marks an index of another version, or one without records.
pub open spec fn incompatible(b: Seq<u8>) -> bool {
    &&& b.len() >= 4
    &&& (crate::codec::be_word_at(b, 0) != SUPPORTED_VERSION || (b.len() >= 8
        && crate::codec::be_word_at(b, 4) == 0))
}

/// Reads the usable indexes among `entries`, in their order.
pub fn fortune_files(entries: Vec<IndexEntry>) -> (r: Result<Vec<FortuneFileInfo>, FortuneError>)
    ensures
        match r {
            Ok(v) => aggregate(entries_view(entries@)) == Ok::<Seq<InfoView>, Failure>(
                infos_view(v@),
            ) && all_usable(v@),
            Err(e) => aggregate(entries_view(entries@)) == Err::<Seq<InfoView>, Failure>(e@),
        },
{
    let mut out: Vec<FortuneFileInfo> = Vec::new();
    let mut i: usize = 0;
    assert(entries_view(entries@).subrange(0, 0) =~= seq![]);
    assert(infos_view(out@) =~= seq![]);
    while i < entries.len()
        invariant
            i <= entries@.len(),
            aggregate(entries_view(entries@).subrange(0, i as int)) == Ok::<Seq<InfoView>, Failure>(
                infos_view(out@),
            ),
            all_usable(out@),
        decreases entries@.len() - i,
    {
        let ghost es = entries_view(entries@);
        proof {
            assert(es.subrange(0, i as int + 1).drop_last() =~= es.subrange(0, i as int));
        }
        let entry = &entries[i];
        if is_index_path(entry.path.as_str()) {
            match DataFile::from_bytes(entry.bytes.as_slice()) {
                Err(_) => {
                    proof {
                        lemma_failure_stays(es, i as int + 1);
                        assert(es.subrange(0, es.len() as int) =~= es);
                    }
                    return Err(FortuneError::CorruptIndex(entry.path.clone()));
                },
                Ok(None) => {},
                Ok(Some(d)) => {
                    let ghost before = out@;
                    out.push(FortuneFileInfo::new(entry.path.clone(), d));
                    proof {
                        assert(infos_view(out@) =~= infos_view(before).push(out@.last().view_info()));
                    }
                },
            }
        }
        i = i + 1;
    }
    assert(entries_view(entries@).subrange(0, i as int) =~= entries_view(entries@));
    Ok(out)
}

proof fn lemma_failure_stays(es: Seq<(Seq<char>, Seq<u8>)>, j: int)
    requires
        0 <= j <= es.len(),
        aggregate(es.subrange(0, j)) is Err,
    ensures
        forall|k: int| j <= k <= es.len() ==> #[trigger] aggregate(es.subrange(0, k)) == aggregate(es.subrange(0, j)),
    decreases es.len() - j,
{
    if j < es.len() {
        assert(es.subrange(0, j + 1).drop_last() =~= es.subrange(0, j));
        lemma_failure_stays(es, j + 1);
    }
}

/// An index of another version, or one without records, neither appears in
/// the aggregate nor stops the scan: with it or without it, the result is the same.
pub proof fn lemma_incompatible_skipped(
    a: Seq<(Seq<char>, Seq<u8>)>,
    e: (Seq<char>, Seq<u8>),
    b: Seq<(Seq<char>, Seq<u8>)>,
)
    requires
        incompatible(e.1),
    ensures
        aggregate(a + seq![e] + b) == aggregate(a + b),
    decreases b.len(),
{
    if b.len() == 0 {
        assert(a + seq![e] + b =~= a.push(e));
        assert(a.push(e).drop_last() =~= a);
        assert(a + b =~= a);
    } else {
        lemma_incompatible_skipped(a, e, b.drop_last());
        assert((a + seq![e] + b).drop_last() =~= a + seq![e] + b.drop_last());
        assert((a + b).drop_last() =~= a + b.drop_last());
    }
}

/// The entries that are not incompatible indexes.
pub open spec fn without_incompatible(es: Seq<(Seq<char>, Seq<u8>)>) -> Seq<(Seq<char>, Seq<u8>)> {
    es.filter(|e: (Seq<char>, Seq<u8>)| !incompatible(e.1))
}

/// However many indexes of another version, or without records, stand among
/// the entries and wherever they stand, the aggregate is that of the entries
/// without them: they never appear in it and never stop the scan.
pub proof fn lemma_aggregate_ignores_incompatible(es: Seq<(Seq<char>, Seq<u8>)>)
    ensures
        aggregate(es) == aggregate(without_incompatible(es)),
    decreases es.len(),
{
    if es.len() > 0 {
        let rest = es.drop_last();
        lemma_aggregate_ignores_incompatible(rest);
        let e = es.last();
        let f = without_incompatible(es);
        reveal_with_fuel(Seq::filter, 1);
        if !incompatible(e.1) {
            assert(f == without_incompatible(rest).push(e));
            assert(f.drop_last() =~= without_incompatible(rest));
        } else {
            assert(f == without_incompatible(rest));
        }
    }
}

/// Two directories whose entries differ only in incompatible indexes hold the
/// same usable indexes, so the same total number of records: one has no
/// record to draw exactly when the other has none.
pub proof fn lemma_same_total_despite_incompatible(
    es1: Seq<IndexEntry>,
    es2: Seq<IndexEntry>,
    v1: Seq<FortuneFileInfo>,
    v2: Seq<FortuneFileInfo>,
)
    requires
        without_incompatible(entries_view(es1)) == without_incompatible(entries_view(es2)),
        aggregate(entries_view(es1)) == Ok::<Seq<InfoView>, Failure>(infos_view(v1)),
        aggregate(entries_view(es2)) == Ok::<Seq<InfoView>, Failure>(infos_view(v2)),
    ensures
        crate::select::total_of(v1) == crate::select::total_of(v2),
{
    lemma_aggregate_ignores_incompatible(entries_view(es1));
    lemma_aggregate_ignores_incompatible(entries_view(es2));
    assert(infos_view(v1) == infos_view(v2));
    assert(v1.len() == infos_view(v1).len());
    assert forall|k: int| 0 <= k < v1.len() implies v1[k].data_file.header.count
        == v2[k].data_file.header.count by {
        assert(infos_view(v1)[k] == infos_view(v2)[k]);
    }
    assert(crate::select::counts_of(v1) =~= crate::select::counts_of(v2));
}

} // verus!
