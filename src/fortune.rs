//! Query results: one record's text, and per-index record counts.
use vstd::prelude::*;

use crate::builder::utf8_of;
use crate::paths::logical_name_of;
use crate::store::FortuneFileInfo;

verus! {

/// A record's text and the logical name of the index it came from.
#[derive(Debug)]
pub struct Fortune {
    pub file: String,
    pub fortune: String,
}

impl Fortune {
    pub fn new(file: String, fortune: String) -> (r: Fortune)
        ensures
            r.file@ == file@,
            r.fortune@ == fortune@,
    {
        Fortune { file, fortune }
    }

    pub fn file(&self) -> (r: String)
        ensures
            r@ == self.file@,
    {
        self.file.clone()
    }

    pub fn fortune(&self) -> (r: String)
        ensures
            r@ == self.fortune@,
    {
        self.fortune.clone()
    }
}

/// The logical name of an index and how many records it holds.
#[derive(Debug)]
pub struct FortuneStats {
    pub file: String,
    pub count: usize,
}

impl FortuneStats {
    pub fn new(file: String, count: usize) -> (r: FortuneStats)
        ensures
            r.file@ == file@,
            r.count == count,
    {
        FortuneStats { file, count }
    }

    pub fn file(&self) -> (r: String)
        ensures
            r@ == self.file@,
    {
        self.file.clone()
    }

    pub fn count(&self) -> (r: usize)
        ensures
            r == self.count,
    {
        self.count
    }
}

/// The UTF-8 encoding of a text: the encodings of its characters, in order.
pub open spec fn utf8_encode(s: Seq<char>) -> Seq<u8>
    decreases s.len(),
{
    if s.len() == 0 {
        seq![]
    } else {
        utf8_encode(s.drop_last()) + utf8_of(s.last())
    }
}

/// Relies on `String::from_utf8`: the text whose UTF-8 encoding the bytes
/// are, or `None` when the bytes encode no text.
#[verifier::external_body]
fn utf8_text(b: Vec<u8>) -> (r: Option<String>)
    ensures
        match r {
            Some(s) => utf8_encode(s@) == b@,
            None => forall|s: Seq<char>| #[trigger] utf8_encode(s) != b@,
        },
{
    String::from_utf8(b).ok()
}

/// `t` is the text of a record of bytes `b`: the text that they encode, or
/// the empty text when they encode none.
pub open spec fn is_record_text(t: Seq<char>, b: Seq<u8>) -> bool {
    ||| utf8_encode(t) == b
    ||| t.len() == 0 && forall|s: Seq<char>| #[trigger] utf8_encode(s) != b
}

/// Turns a decoding result into the record's text.
pub fn text_or_empty(d: Option<String>) -> (r: String)
    ensures
        r@ == match d {
            Some(s) => s@,
            None => Seq::<char>::empty(),
        },
{
    match d {
        Some(s) => s,
        None => String::new(),
    }
}

/// The text of a record read from its source file.
pub fn record_text(bytes: Vec<u8>) -> (r: String)
    ensures
        is_record_text(r@, bytes@),
{
    text_or_empty(utf8_text(bytes))
}

/// The fortune made of a record's bytes, read from the source text of `info`.
pub fn fortune_of(info: &FortuneFileInfo, bytes: Vec<u8>) -> (r: Fortune)
    ensures
        r.file@ == logical_name_of(info.path@),
        is_record_text(r.fortune@, bytes@),
{
    Fortune::new(info.fortune_file(), record_text(bytes))
}

/// One entry per index, in order: its logical name and its record count.
pub fn fortune_stats(infos: &Vec<FortuneFileInfo>) -> (r: Vec<FortuneStats>)
    ensures
        r@.len() == infos@.len(),
        forall|k: int|
            0 <= k < r@.len() ==> (#[trigger] r@[k]).file@ == logical_name_of(infos@[k].path@)
                && r@[k].count == infos@[k].data_file.header.count,
{
    let mut r: Vec<FortuneStats> = Vec::new();
    let mut i: usize = 0;
    while i < infos.len()
        invariant
            i <= infos@.len(),
            r@.len() == i,
            forall|k: int|
                0 <= k < i ==> (#[trigger] r@[k]).file@ == logical_name_of(infos@[k].path@)
                    && r@[k].count == infos@[k].data_file.header.count,
        decreases infos@.len() - i,
    {
        let info = &infos[i];
        r.push(FortuneStats::new(info.fortune_file(), info.count()));
        i = i + 1;
    }
    r
}

} // verus!
