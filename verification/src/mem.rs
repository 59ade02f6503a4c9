//! The memory budget of an interpreter.
//!
//! The runtime asks the host for every block it needs. The host keeps count
//! of what it has handed out and refuses a request that would take the
//! interpreter over its limit.
use vstd::prelude::*;

verus! {

/// The count of the memory of one interpreter: the bytes in use, the limit,
/// the mark at which growth is next reported, and a name for the reports.
pub struct MemLimit {
    pub mem: isize,
    pub mem_limit: isize,
    pub mem_report: isize,
    pub name: Option<String>,
}

/// What the host does with a request of the runtime for memory.
#[derive(PartialEq, Eq, Structural, Debug, Clone, Copy)]
pub enum AllocAction {
    /// Free the block, if there is one, and hand back no block.
    Release,
    /// Hand back no block: the request would go over the limit.
    Refuse,
    /// Resize the block, or make one, and hand it back.
    Resize,
}

/// The first mark at which growth is reported.
pub const FIRST_REPORT: isize = 1024;

/// A number brought into the range of a signed size.
pub open spec fn clamp(x: int) -> int {
    if x < isize::MIN {
        isize::MIN as int
    } else if x > isize::MAX {
        isize::MAX as int
    } else {
        x
    }
}

/// Brings a number into the range of a signed size.
fn clamped(x: i128) -> (r: isize)
    ensures
        r == clamp(x as int),
{
    if x < isize::MIN as i128 {
        isize::MIN
    } else if x > isize::MAX as i128 {
        isize::MAX
    } else {
        x as isize
    }
}

impl MemLimit {
    /// The bytes in use after a request that turns a block of `osize` bytes
    /// into one of `nsize` bytes: a release gives the old block back where
    /// there is one, any other request takes the difference.
    pub open spec fn used_after(self, no_block: bool, osize: usize, nsize: usize) -> int {
        if nsize == 0 {
            if no_block {
                self.mem as int
            } else {
                clamp(self.mem - clamp(osize as int))
            }
        } else {
            clamp(self.mem + (clamp(nsize as int) - clamp(osize as int)))
        }
    }

    /// Whether a request is refused: it is no release, it takes the bytes in
    /// use over the report mark and over the limit, and it asks for a new or
    /// a larger block.
    pub open spec fn refuses(self, no_block: bool, osize: usize, nsize: usize) -> bool {
        &&& nsize != 0
        &&& self.used_after(no_block, osize, nsize) > self.mem_report
        &&& self.used_after(no_block, osize, nsize) > self.mem_limit
        &&& (no_block || nsize > osize)
    }

    /// A count that starts at nothing in use, with `mem_limit` as the limit
    /// (taken as a signed size, bit for bit) and the first report at
    /// `FIRST_REPORT` bytes.
    pub fn new(mem_limit: usize, name: Option<String>) -> (r: MemLimit)
        ensures
            r.mem == 0,
            r.mem_limit == mem_limit as isize,
            r.mem_report == FIRST_REPORT,
            r.name == name,
    {
        MemLimit {
            mem: 0,
            mem_limit: #[verifier::truncate] (mem_limit as isize),
            mem_report: FIRST_REPORT,
            name,
        }
    }

    /// Decides a request of the runtime to turn a block of `osize` bytes
    /// into one of `nsize` bytes; `no_block` says that there is no block yet.
    ///
    /// A request for no bytes is a release. Any other request is counted
    /// first and then refused where `refuses` says so; the count stays as it
    /// was counted. A request that is granted over the report mark doubles
    /// the mark. The sums saturate at the bounds of a signed size.
    pub fn lalloc(&mut self, no_block: bool, osize: usize, nsize: usize) -> (r: AllocAction)
        ensures
            final(self).mem_limit == old(self).mem_limit,
            final(self).name == old(self).name,
            final(self).mem == old(self).used_after(no_block, osize, nsize),
            r == (if nsize == 0 {
                AllocAction::Release
            } else if old(self).refuses(no_block, osize, nsize) {
                AllocAction::Refuse
            } else {
                AllocAction::Resize
            }),
            final(self).mem_report == (if nsize != 0 && r == AllocAction::Resize && final(self).mem
                > old(self).mem_report {
                clamp(old(self).mem_report * 2)
            } else {
                old(self).mem_report as int
            }),
    {
        let old_size: isize = clamped(osize as i128);
        let new_size: isize = clamped(nsize as i128);
        if nsize == 0 {
            if !no_block {
                self.mem = clamped(self.mem as i128 - old_size as i128);
            }
            return AllocAction::Release;
        }
        let mem_diff: i128 = new_size as i128 - old_size as i128;
        self.mem = clamped(self.mem as i128 + mem_diff);
        if self.mem > self.mem_report {
            if self.mem > self.mem_limit && (no_block || nsize > osize) {
                return AllocAction::Refuse;
            }
            self.mem_report = clamped(self.mem_report as i128 * 2);
        }
        AllocAction::Resize
    }
}

} // verus!
