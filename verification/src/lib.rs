//! Verified core of a file copier that moves data through aligned buffers,
//! either with io_uring, with buffered streams, or with `copy_file_range`.
//!
//! The library holds the decisions: result checking, buffer geometry,
//! progress reporting and the schedulers that drive each copy loop.  The
//! program around it performs the system calls and feeds the outcomes back.

pub mod error;
pub mod io;
pub mod iouring;
pub mod stream;
pub mod syscall;
pub mod util;

pub use error::DcpError;
pub use io::{
    align_up, buffer_layout, buffer_len, check_path, check_size_or_errno, check_size_or_error, mapping_len, size_or_errno, open_plan, Mode,
    OpenPlan,
};
pub use iouring::{initial_indices, RingCopy, Stage, Transfer};
pub use stream::{StreamCopy, StreamStep};
pub use syscall::{with_nocow, SyscallCopy, COPY_SIZE, FS_NOCOW_FL};
pub use util::{calc_sizes, checked_calc_sizes, log, percent, show_progress};
