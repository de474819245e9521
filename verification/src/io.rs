use vstd::prelude::*;

use vstd::arithmetic::power::pow;
use vstd::arithmetic::power2::{
    is_pow2, is_pow2_equiv, is_pow2_exists, lemma2_to64, lemma_pow2, lemma_pow2_pos,
    lemma_pow2_strictly_increases, pow2,
};
use vstd::bits::{lemma_usize_low_bits_mask_is_mod, low_bits_mask};

use crate::error::DcpError;

verus! {

/// Reads the calling thread's current `errno` value through
/// `nix::errno::Errno::last_raw`.  It depends on the thread's state, so
/// nothing is promised of the value.
#[verifier::external_body]
fn last_errno() -> (code: i32) {
    nix::errno::Errno::last_raw()
}

/// Interprets the result of an io_uring completion: a negative value is the
/// negated OS error code, anything else is a byte count.
pub fn check_size_or_error(res: i32) -> (r: Result<u32, DcpError>)
    requires
        res > i32::MIN,
    ensures
        res >= 0 ==> r == Ok::<u32, DcpError>(res as u32),
        res < 0 ==> r == Err::<u32, DcpError>(DcpError::Io(-res as i32)),
{
    if res < 0 {
        Err(DcpError::Io(-res))
    } else {
        Ok(res as u32)
    }
}

/// Interprets the result `res` of a system call that reports failure as a
/// negative return value, given the `errno` value read after the call.
pub fn size_or_errno(res: isize, errno: i32) -> (r: Result<usize, DcpError>)
    ensures
        res >= 0 ==> r == Ok::<usize, DcpError>(res as usize),
        res < 0 ==> r == Err::<usize, DcpError>(DcpError::Io(errno)),
{
    if res < 0 {
        Err(DcpError::Io(errno))
    } else {
        Ok(res as usize)
    }
}

/// Interprets the result of a system call that reports failure as a negative
/// return value and the cause in `errno`, reading `errno` only on failure.
pub fn check_size_or_errno(res: isize) -> (r: Result<usize, DcpError>)
    ensures
        res >= 0 ==> r == Ok::<usize, DcpError>(res as usize),
        res < 0 ==> r is Err && r->Err_0 is Io,
{
    let errno = if res < 0 {
        last_errno()
    } else {
        0
    };
    size_or_errno(res, errno)
}

/// For a power-of-two `align`, masking with `align - 1` is the remainder
/// modulo `align`.
proof fn lemma_mask_is_mod(x: usize, align: usize)
    requires
        is_pow2(align as int),
    ensures
        x & ((align - 1) as usize) == x % align,
{
    is_pow2_equiv(align as int);
    assert(is_pow2_exists(align as int));
    let n: nat = choose|i: nat| pow(2, i) == align as int;
    assert(pow(2, n) == align as int);
    lemma_pow2(n);
    assert(pow2(n) == align as int);
    lemma2_to64();
    if n >= usize::BITS {
        if n > usize::BITS {
            lemma_pow2_strictly_increases(usize::BITS as nat, n);
        }
        assert(pow2(usize::BITS as nat) == usize::MAX + 1);
        assert(false);
    }
    lemma_usize_low_bits_mask_is_mod(x, n);
    lemma_pow2_pos(n);
    assert(low_bits_mask(n) == align - 1);
}

/// Rounds `addr` up to the next multiple of `align` with the usual mask trick.
/// For a power-of-two alignment the result is the smallest multiple of
/// `align` that is not below `addr`.
pub fn align_up(addr: usize, align: usize) -> (r: usize)
    requires
        align > 0,
        addr + align - 1 <= usize::MAX,
    ensures
        r == (((addr + align - 1) as usize) & !((align - 1) as usize)),
        is_pow2(align as int) ==> r % align == 0 && addr <= r && r < addr + align,
{
    let r = (addr + (align - 1)) & !(align - 1);
    proof {
        let y: usize = (addr + align - 1) as usize;
        let m: usize = (align - 1) as usize;
        assert((y & !m) & m == 0 && (y & !m) <= y && y - (y & !m) <= m) by (bit_vector);
        if is_pow2(align as int) {
            lemma_mask_is_mod(r, align);
        }
    }
    r
}


#[verifier::external_type_specification]
#[verifier::external_body]
pub struct ExLayout(std::alloc::Layout);

#[verifier::external_type_specification]
#[verifier::external_body]
pub struct ExLayoutError(std::alloc::LayoutError);

/// The size, in bytes, that `std::alloc::Layout::size` reports of a layout.
pub uninterp spec fn layout_size(l: std::alloc::Layout) -> usize;

/// The alignment that `std::alloc::Layout::align` reports of a layout.
pub uninterp spec fn layout_align(l: std::alloc::Layout) -> usize;

/// Calls `std::alloc::Layout::from_size_align`.  Its documentation promises
/// success exactly when `align` is a power of two and `size`, rounded up to a
/// multiple of `align`, does not exceed `isize::MAX` (vstd's `valid_layout`),
/// and that the layout it builds has the given size and alignment.
#[verifier::external_body]
fn layout_from_size_align(size: usize, align: usize) -> (r: Result<
    std::alloc::Layout,
    std::alloc::LayoutError,
>)
    ensures
        r is Ok <==> vstd::layout::valid_layout(size, align),
        r matches Ok(l) ==> layout_size(l) == size && layout_align(l) == align,
{
    std::alloc::Layout::from_size_align(size, align)
}

/// The memory layout of one copy buffer of `size` bytes aligned to `align`.
pub fn buffer_layout(size: usize, align: usize) -> (r: Result<std::alloc::Layout, DcpError>)
    ensures
        r is Ok <==> vstd::layout::valid_layout(size, align),
        r matches Ok(l) ==> layout_size(l) == size && layout_align(l) == align,
        r is Err ==> r == Err::<std::alloc::Layout, DcpError>(DcpError::Layout),
{
    match layout_from_size_align(size, align) {
        Ok(layout) => Ok(layout),
        Err(_) => Err(DcpError::Layout),
    }
}

/// `std::alloc::Layout::size` reports the size of a layout, the value that
/// `layout_size` names.
pub assume_specification[ std::alloc::Layout::size ](l: &std::alloc::Layout) -> (r: usize)
    ensures
        r == layout_size(*l),
;

/// The number of bytes of a copy buffer with layout `layout`: the length of
/// the iovec it is registered with.
pub fn buffer_len(layout: &std::alloc::Layout) -> (n: usize)
    ensures
        n == layout_size(*layout),
{
    layout.size()
}

/// Length of the anonymous mapping that backs a buffer of `size` bytes which
/// must start on an `align` boundary: enough room to slide the start forward.
pub fn mapping_len(size: u32, align: u32) -> (total: usize)
    requires
        size + align <= usize::MAX,
    ensures
        total == size + align,
{
    size as usize + align as usize
}

/// Where the aligned buffer starts inside a mapping at `base`: it lies wholly
/// inside the `mapping_len(size, align)` bytes that were mapped.
pub proof fn lemma_aligned_buffer_in_mapping(base: usize, size: usize, align: usize)
    requires
        is_pow2(align as int),
        base + size + align <= usize::MAX + 1,
    ensures
        ({
            let start = ((base + align - 1) as usize) & !((align - 1) as usize);
            &&& start % align == 0
            &&& base <= start
            &&& start + size <= base + size + align
        }),
{
    assert(align > 0) by {
        reveal(is_pow2);
    }
    let y: usize = (base + align - 1) as usize;
    let m: usize = (align - 1) as usize;
    assert((y & !m) & m == 0 && (y & !m) <= y && y - (y & !m) <= m) by (bit_vector);
    lemma_mask_is_mod(y & !m, align);
}

/// Checks that a path can be handed to the kernel as a C string: it fails
/// with the position of its first NUL byte, if it has one.
pub fn check_path(bytes: &[u8]) -> (r: Result<(), DcpError>)
    ensures
        r is Ok <==> forall|j: int| 0 <= j < bytes@.len() ==> bytes@[j] != 0,
        r matches Err(e) ==> e matches DcpError::Nul(i) && i < bytes@.len() && bytes@[i as int] == 0
            && forall|j: int| 0 <= j < i ==> bytes@[j] != 0,
{
    let mut i: usize = 0;
    while i < bytes.len()
        invariant
            i <= bytes@.len(),
            forall|j: int| 0 <= j < i ==> bytes@[j] != 0,
        decreases bytes@.len() - i,
    {
        if bytes[i] == 0 {
            return Err(DcpError::Nul(i));
        }
        i = i + 1;
    }
    Ok(())
}

/// How a file is opened for one side of the copy.
#[derive(Debug, Clone, Copy, PartialEq, Eq, Structural)]
pub enum Mode {
    Read,
    Write,
}

/// The options a file is opened with, and the advice given on it afterwards.
#[derive(Debug, Clone, Copy, PartialEq, Eq, Structural)]
pub struct OpenPlan {
    pub read: bool,
    pub write: bool,
    pub create: bool,
    pub truncate: bool,
    /// Extra `open(2)` flags, when any are asked for.
    pub custom_flags: Option<i32>,
    /// `posix_fadvise` advice for the whole file, when any is asked for.
    pub advise: Option<i32>,
}

/// Decides how to open a file: a source is opened for reading, a destination
/// for writing, created and truncated; zero `flags` or `advise` mean none.
pub fn open_plan(mode: Mode, flags: i32, advise: i32) -> (plan: OpenPlan)
    ensures
        plan.read == (mode == Mode::Read),
        plan.write == (mode == Mode::Write),
        plan.create == (mode == Mode::Write),
        plan.truncate == (mode == Mode::Write),
        plan.custom_flags == (if flags != 0 { Some(flags) } else { None::<i32> }),
        plan.advise == (if advise != 0 { Some(advise) } else { None::<i32> }),
{
    let is_write = match mode {
        Mode::Read => false,
        Mode::Write => true,
    };
    OpenPlan {
        read: !is_write,
        write: is_write,
        create: is_write,
        truncate: is_write,
        custom_flags: if flags != 0 { Some(flags) } else { None },
        advise: if advise != 0 { Some(advise) } else { None },
    }
}

} // verus!
