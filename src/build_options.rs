//! Options of an index build.
use vstd::prelude::*;

use crate::flags::Flags;
use crate::paths::{path_with_extension, with_extension_of};

verus! {

/// The source text, where to write its index, and what to put in the header.
#[derive(Debug)]
pub struct Options {
    pub file: String,
    pub dat_file: Option<String>,
    pub quiet: bool,
    pub separator: char,
    pub random: bool,
    pub ordered: bool,
    pub rotated: bool,
}

/// The default index path: the source path's stem with the extension `dat`.
pub open spec fn default_dat_file(file: Seq<char>) -> Seq<char> {
    with_extension_of(file, "dat"@)
}

impl Options {
    pub fn file(&self) -> (r: String)
        ensures
            r@ == self.file@,
    {
        self.file.clone()
    }

    /// The index path: the one given, else the default beside the source.
    pub fn dat_file(&self) -> (r: String)
        ensures
            r@ == match &self.dat_file {
                Some(d) => d@,
                None => default_dat_file(self.file@),
            },
    {
        match &self.dat_file {
            Some(d) => d.clone(),
            None => {
                proof {
                    reveal_strlit("dat");
                }
                path_with_extension(self.file.as_str(), "dat")
            },
        }
    }

    /// Do not show the summary after the build.
    pub fn quiet(&self) -> (r: bool)
        ensures
            r == self.quiet,
    {
        self.quiet
    }

    pub fn separator(&self) -> (r: char)
        ensures
            r == self.separator,
    {
        self.separator
    }

    /// The flags to record in the header.
    pub fn flags(&self) -> (r: Flags)
        ensures
            r == (Flags { random: self.random, ordered: self.ordered, rotated: self.rotated }),
    {
        let mut flags = Flags::empty();
        if self.random {
            flags.random = true;
        }
        if self.ordered {
            flags.ordered = true;
        }
        if self.rotated {
            flags.rotated = true;
        }
        flags
    }
}

} // verus!
