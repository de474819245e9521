use vstd::prelude::*;

use crate::util::{percent, show_progress};

verus! {

/// What the stream copy does after a read.
#[derive(Debug, Clone, Copy, PartialEq, Eq, Structural)]
pub enum StreamStep {
    /// The source is exhausted: flush the destination and stop.
    Finish,
    /// Write the `len` bytes just read, and report progress `report` if any.
    Write { len: usize, report: Option<u64> },
}

/// Bookkeeping of a buffered stream copy: bytes written so far and the last
/// progress percentage reported.
pub struct StreamCopy {
    file_size: u64,
    write_size: u64,
    progress: u64,
}

impl StreamCopy {
    pub closed spec fn spec_file_size(&self) -> nat {
        self.file_size as nat
    }

    pub closed spec fn spec_write_size(&self) -> nat {
        self.write_size as nat
    }

    pub closed spec fn spec_progress(&self) -> nat {
        self.progress as nat
    }

    /// A copy of a file of `file_size` bytes, with nothing written yet.
    pub fn new(file_size: u64) -> (c: StreamCopy)
        ensures
            c.spec_file_size() == file_size,
            c.spec_write_size() == 0,
            c.spec_progress() == 0,
    {
        StreamCopy { file_size, write_size: 0, progress: 0 }
    }

    /// Decides what follows a read of `n` bytes: an empty read ends the copy;
    /// otherwise the `n` bytes are written, counted, and the progress
    /// percentage is reported when it moved forward.
    pub fn after_read(&mut self, n: usize) -> (step: StreamStep)
        requires
            n > 0 ==> old(self).spec_file_size() > 0,
            n > 0 ==> 100 * (old(self).spec_write_size() + n) <= u64::MAX,
        ensures
            final(self).spec_file_size() == old(self).spec_file_size(),
            final(self).spec_write_size() == old(self).spec_write_size() + n,
            n == 0 ==> step == StreamStep::Finish && final(self).spec_write_size()
                == old(self).spec_write_size() && final(self).spec_progress()
                == old(self).spec_progress(),
            n > 0 ==> {
                let pct = 100 * (old(self).spec_write_size() + n) / (old(self).spec_file_size() as int);
                &&& final(self).spec_write_size() == old(self).spec_write_size() + n
                &&& final(self).spec_progress() == if pct > old(self).spec_progress() {
                    pct
                } else {
                    old(self).spec_progress() as int
                }
                &&& step == StreamStep::Write {
                    len: n,
                    report: if pct > old(self).spec_progress() {
                        Some(pct as u64)
                    } else {
                        None::<u64>
                    },
                }
            },
    {
        if n == 0 {
            return StreamStep::Finish;
        }
        self.write_size = self.write_size + n as u64;
        let pct = percent(self.write_size, self.file_size);
        let advanced = show_progress(&mut self.progress, pct);
        StreamStep::Write { len: n, report: if advanced { Some(pct) } else { None } }
    }

    /// Bytes written so far.
    pub fn written(&self) -> (n: u64)
        ensures
            n == self.spec_write_size(),
    {
        self.write_size
    }
}

} // verus!
