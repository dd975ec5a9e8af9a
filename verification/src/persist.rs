//! When the state of the coordinator is written to disk.
//!
//! The state is looked at at a fixed interval and written only when it is not
//! what was written last. What is compared is a checksum of the serialised
//! state, so once in a long while a change may go unwritten until the next.

use std::hash::{DefaultHasher, Hasher};
use vstd::prelude::*;
use vstd::std_specs::hash::DefaultHasherAdditionalSpecFns;

verus! {

/// How many milliseconds lie between two looks at the state.
pub const SAVE_INTERVAL: u64 = 500;

/// The file that holds the state where no other is named.
pub const STATE_FILE: &'static str = "state.json";

/// The checksum of `data`: what the standard hasher makes of it.
pub open spec fn checksum_of(data: Seq<u8>) -> u64 {
    DefaultHasher::spec_finish(seq![data])
}

/// The checksum of `data`.
pub fn checksum(data: &[u8]) -> (sum: u64)
    ensures
        sum == checksum_of(data@),
{
    let mut hasher = DefaultHasher::new();
    hasher.write(data);
    assert(hasher@ =~= seq![data@]);
    hasher.finish()
}

/// What was written last, as far as it has to be remembered.
#[derive(Debug, Clone, Copy, PartialEq, Eq, Structural)]
pub struct Saver {
    /// The checksum of what was written last, and zero before anything was.
    pub written: u64,
}

impl Saver {
    /// Nothing has been written yet.
    pub fn new() -> (saver: Saver)
        ensures
            saver.written == 0,
    {
        Saver { written: 0 }
    }

    /// Whether `data` is to be written: whether its checksum is not that of
    /// what was written last. It then counts as written.
    pub fn due(&mut self, data: &[u8]) -> (write: bool)
        ensures
            write == (checksum_of(data@) != old(self).written),
            final(self).written == checksum_of(data@),
    {
        let sum = checksum(data);
        let write = sum != self.written;
        self.written = sum;
        write
    }
}

impl Default for Saver {
    fn default() -> (saver: Saver)
        ensures
            saver.written == 0,
    {
        Saver::new()
    }
}

} // verus!
