use vstd::prelude::*;

use crate::error::DcpError;
use crate::io::check_size_or_errno;
use crate::util::show_progress;

verus! {

/// Bytes asked of each `copy_file_range` call.
pub const COPY_SIZE: usize = 16 * 1024 * 1024;

/// The inode flag that turns copy-on-write off for a file.
pub const FS_NOCOW_FL: i32 = 0x00800000;

/// File attribute flags with copy-on-write turned off.
pub fn with_nocow(flags: i32) -> (r: i32)
    ensures
        r == flags | FS_NOCOW_FL,
{
    flags | FS_NOCOW_FL
}

/// Bookkeeping of a copy made with `copy_file_range`: bytes copied so far and
/// the last progress percentage reported.
pub struct SyscallCopy {
    file_size: usize,
    write_size: usize,
    progress: u64,
}

impl SyscallCopy {
    pub closed spec fn spec_file_size(&self) -> nat {
        self.file_size as nat
    }

    pub closed spec fn spec_write_size(&self) -> nat {
        self.write_size as nat
    }

    pub closed spec fn spec_progress(&self) -> nat {
        self.progress as nat
    }

    /// A copy of a file of `file_size` bytes, with nothing copied yet.
    pub fn new(file_size: usize) -> (c: SyscallCopy)
        ensures
            c.spec_file_size() == file_size,
            c.spec_write_size() == 0,
            c.spec_progress() == 0,
    {
        SyscallCopy { file_size, write_size: 0, progress: 0 }
    }

    /// Whether bytes remain to be copied.
    pub fn in_progress(&self) -> (r: bool)
        ensures
            r == (self.spec_write_size() < self.spec_file_size()),
    {
        self.write_size < self.file_size
    }

    /// Length to ask of the next `copy_file_range` call.
    pub fn chunk(&self) -> (n: usize)
        ensures
            n == COPY_SIZE,
    {
        COPY_SIZE
    }

    /// Accounts for a `copy_file_range` call that returned `res`: a negative
    /// result is the error in `errno` and changes nothing; otherwise `res`
    /// bytes are counted and the progress percentage is returned when it
    /// moved forward.
    pub fn after_copy(&mut self, res: isize) -> (r: Result<Option<u64>, DcpError>)
        requires
            old(self).spec_write_size() < old(self).spec_file_size(),
            res >= 0 ==> 100 * (old(self).spec_write_size() + res) <= usize::MAX,
        ensures
            final(self).spec_file_size() == old(self).spec_file_size(),
            res < 0 ==> r is Err && r->Err_0 is Io && final(self).spec_write_size()
                == old(self).spec_write_size() && final(self).spec_progress()
                == old(self).spec_progress(),
            res >= 0 ==> {
                let pct = 100 * (old(self).spec_write_size() + res) / (old(self).spec_file_size() as int);
                &&& final(self).spec_write_size() == old(self).spec_write_size() + res
                &&& final(self).spec_progress() == if pct > old(self).spec_progress() {
                    pct
                } else {
                    old(self).spec_progress() as int
                }
                &&& r == Ok::<Option<u64>, DcpError>(
                    if pct > old(self).spec_progress() {
                        Some(pct as u64)
                    } else {
                        None::<u64>
                    },
                )
            },
    {
        let size = match check_size_or_errno(res) {
            Ok(size) => size,
            Err(e) => return Err(e),
        };
        self.write_size = self.write_size + size;
        let pct = (100 * self.write_size / self.file_size) as u64;
        let advanced = show_progress(&mut self.progress, pct);
        if advanced {
            Ok(Some(pct))
        } else {
            Ok(None)
        }
    }

    /// Bytes copied so far.
    pub fn written(&self) -> (n: u64)
        ensures
            n == self.spec_write_size(),
    {
        self.write_size as u64
    }
}

} // verus!
