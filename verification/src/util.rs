use vstd::prelude::*;

verus! {

/// `m` is a positive multiple of both `a` and `b`.
pub open spec fn is_common_multiple(m: int, a: int, b: int) -> bool {
    m > 0 && m % a == 0 && m % b == 0
}

/// `l` is the least common multiple of `a` and `b`, taken as zero when either
/// of them is zero.
pub open spec fn is_lcm(l: int, a: int, b: int) -> bool {
    if a == 0 || b == 0 {
        l == 0
    } else {
        &&& is_common_multiple(l, a, b)
        &&& forall|m: int| #[trigger] is_common_multiple(m, a, b) ==> l <= m
    }
}

/// The least common multiple of `a` and `b` can be held in a `u32`.
pub open spec fn lcm_fits_u32(a: u32, b: u32) -> bool {
    a == 0 || b == 0 || exists|m: int| #[trigger]
        is_common_multiple(m, a as int, b as int) && m <= u32::MAX
}

/// Calls `num_integer::lcm` on two `u32`s widened to `u64`.  Its source
/// returns zero when either argument is zero and otherwise
/// `a * (b / gcd(a, b))`, the least common multiple; for `u32` inputs that
/// product is at most `a * b` and cannot overflow a `u64`.
#[verifier::external_body]
fn lcm_wide(a: u32, b: u32) -> (l: u64)
    ensures
        is_lcm(l as int, a as int, b as int),
{
    num_integer::lcm(a as u64, b as u64)
}

/// The file size to copy and the buffer alignment, from the source's length
/// and the preferred I/O block sizes of source and destination: buffers are
/// aligned to the least common multiple of both block sizes.
pub fn calc_sizes(src_len: u64, src_block: u32, dst_block: u32) -> (r: (u64, u32))
    requires
        lcm_fits_u32(src_block, dst_block),
    ensures
        r.0 == src_len,
        is_lcm(r.1 as int, src_block as int, dst_block as int),
{
    let l = lcm_wide(src_block, dst_block);
    proof {
        if src_block != 0 && dst_block != 0 {
            let m = choose|m: int| #[trigger]
                is_common_multiple(m, src_block as int, dst_block as int) && m <= u32::MAX;
            assert(l <= m);
        }
    }
    (src_len, l as u32)
}

/// `calc_sizes` for any block sizes: `None` when their least common multiple
/// does not fit in a `u32`.
pub fn checked_calc_sizes(src_len: u64, src_block: u32, dst_block: u32) -> (r: Option<(u64, u32)>)
    ensures
        r is Some <==> lcm_fits_u32(src_block, dst_block),
        r matches Some(p) ==> p.0 == src_len && is_lcm(p.1 as int, src_block as int, dst_block as int),
{
    let l = lcm_wide(src_block, dst_block);
    if l <= u32::MAX as u64 {
        proof {
            if src_block != 0 && dst_block != 0 {
                assert(is_common_multiple(l as int, src_block as int, dst_block as int));
            }
        }
        Some((src_len, l as u32))
    } else {
        proof {
            assert forall|m: int| #[trigger]
                is_common_multiple(m, src_block as int, dst_block as int) implies m > u32::MAX by {
                assert(l <= m);
            }
        }
        None
    }
}

/// The whole percentage of `total` that `done` amounts to, rounded down.
pub fn percent(done: u64, total: u64) -> (p: u64)
    requires
        total > 0,
        100 * done <= u64::MAX,
    ensures
        p as int == (100 * done) / (total as int),
{
    100 * done / total
}

/// The progress kept after the values `cs` are offered in turn to
/// `show_progress`, starting from `p0`: each value replaces the kept one only
/// when it is larger.
pub open spec fn progress_after(p0: nat, cs: Seq<nat>) -> nat
    decreases cs.len(),
{
    if cs.len() == 0 {
        p0
    } else {
        let p = progress_after(p0, cs.drop_last());
        if cs.last() > p {
            cs.last()
        } else {
            p
        }
    }
}

/// Whether the `i`-th of the values `cs` offered after `p0` gets reported.
pub open spec fn is_reported(p0: nat, cs: Seq<nat>, i: int) -> bool {
    cs[i] > progress_after(p0, cs.take(i))
}

/// The kept progress is the largest of the starting value and all values
/// offered.
pub proof fn lemma_progress_is_max(p0: nat, cs: Seq<nat>)
    ensures
        progress_after(p0, cs) >= p0,
        forall|i: int| 0 <= i < cs.len() ==> progress_after(p0, cs) >= #[trigger] cs[i],
        progress_after(p0, cs) == p0 || exists|i: int|
            0 <= i < cs.len() && progress_after(p0, cs) == #[trigger] cs[i],
    decreases cs.len(),
{
    if cs.len() > 0 {
        let init = cs.drop_last();
        lemma_progress_is_max(p0, init);
        assert forall|i: int| 0 <= i < cs.len() implies progress_after(p0, cs) >= #[trigger] cs[i] by {
            if i < init.len() {
                assert(init[i] == cs[i]);
            }
        }
        if progress_after(p0, cs) != p0 {
            if cs.last() > progress_after(p0, init) {
                assert(progress_after(p0, cs) == cs[cs.len() - 1]);
            } else {
                let i = choose|i: int| 0 <= i < init.len() && progress_after(p0, init) == #[trigger] init[i];
                assert(progress_after(p0, cs) == cs[i]);
            }
        }
    }
}

/// Over any run of `show_progress` calls, a reported value is larger than
/// every value offered before it, so the reported percentages strictly
/// increase.
pub proof fn lemma_reports_strictly_increase(p0: nat, cs: Seq<nat>, i: int, j: int)
    requires
        0 <= i < j < cs.len(),
        is_reported(p0, cs, j),
    ensures
        cs[i] < cs[j],
{
    lemma_progress_is_max(p0, cs.take(j));
    assert(cs.take(j)[i] == cs[i]);
}

/// Offering `cs` and then `c` keeps, and reports `c`, exactly as offering `c`
/// alone does after `cs`: one `show_progress` call continues a run.
pub proof fn lemma_progress_after_push(p0: nat, cs: Seq<nat>, c: nat)
    ensures
        progress_after(p0, cs.push(c)) == progress_after(progress_after(p0, cs), seq![c]),
        is_reported(p0, cs.push(c), cs.len() as int) == is_reported(
            progress_after(p0, cs),
            seq![c],
            0,
        ),
{
    let one = seq![c];
    assert(cs.push(c).drop_last() =~= cs);
    assert(one.drop_last() =~= Seq::<nat>::empty());
    assert(one.take(0) =~= Seq::<nat>::empty());
    assert(cs.push(c).take(cs.len() as int) =~= cs);
    let q = progress_after(p0, cs);
    assert(progress_after(q, one.drop_last()) == q);
    assert(one.last() == c);
    assert(cs.push(c).last() == c);
    assert(progress_after(p0, cs.push(c).drop_last()) == q);
}

/// A run of `show_progress` calls offering `cs[0]`, `cs[1]`, ... from `p0`,
/// each call behaving as its contract states, keeps `progress_after(p0, cs)`
/// at the end, keeps `progress_after(p0, cs.take(i))` before call `i`, and
/// reports `cs[i]` exactly when it exceeds all that came before.
pub proof fn lemma_progress_run(p0: nat, cs: Seq<nat>, prevs: Seq<nat>, reports: Seq<bool>)
    requires
        prevs.len() == cs.len() + 1,
        reports.len() == cs.len(),
        prevs[0] == p0,
        forall|i: int|
            0 <= i < cs.len() ==> #[trigger] prevs[i + 1] == progress_after(prevs[i], seq![cs[i]]),
        forall|i: int|
            0 <= i < cs.len() ==> #[trigger] reports[i] == is_reported(prevs[i], seq![cs[i]], 0),
    ensures
        prevs.last() == progress_after(p0, cs),
        forall|i: int| 0 <= i <= cs.len() ==> #[trigger] prevs[i] == progress_after(p0, cs.take(i)),
        forall|i: int| 0 <= i < cs.len() ==> #[trigger] reports[i] == is_reported(p0, cs, i),
{
    assert forall|i: int| 0 <= i <= cs.len() implies #[trigger] prevs[i] == progress_after(
        p0,
        cs.take(i),
    ) by {
        lemma_progress_run_prefix(p0, cs, prevs, i);
    }
    assert(cs.take(cs.len() as int) =~= cs);
    assert forall|i: int| 0 <= i < cs.len() implies #[trigger] reports[i] == is_reported(p0, cs, i) by {
        assert(prevs[i] == progress_after(p0, cs.take(i)));
        let one = seq![cs[i]];
        assert(one.take(0) =~= Seq::<nat>::empty());
    }
}

proof fn lemma_progress_run_prefix(p0: nat, cs: Seq<nat>, prevs: Seq<nat>, i: int)
    requires
        prevs.len() == cs.len() + 1,
        prevs[0] == p0,
        forall|k: int|
            0 <= k < cs.len() ==> #[trigger] prevs[k + 1] == progress_after(prevs[k], seq![cs[k]]),
        0 <= i <= cs.len(),
    ensures
        prevs[i] == progress_after(p0, cs.take(i)),
    decreases i,
{
    if i == 0 {
        assert(cs.take(0) =~= Seq::<nat>::empty());
    } else {
        lemma_progress_run_prefix(p0, cs, prevs, i - 1);
        assert(cs.take(i) =~= cs.take(i - 1).push(cs[i - 1]));
        lemma_progress_after_push(p0, cs.take(i - 1), cs[i - 1]);
        assert(prevs[(i - 1) + 1] == progress_after(prevs[i - 1], seq![cs[i - 1]]));
    }
}

/// The sum of a sequence of byte counts.
pub open spec fn total_len(ns: Seq<nat>) -> nat
    decreases ns.len(),
{
    if ns.len() == 0 {
        0
    } else {
        total_len(ns.drop_last()) + ns.last()
    }
}

/// Byte counts add up the same however a run is split in two.
pub proof fn lemma_total_len_concat(a: Seq<nat>, b: Seq<nat>)
    ensures
        total_len(a + b) == total_len(a) + total_len(b),
    decreases b.len(),
{
    if b.len() > 0 {
        lemma_total_len_concat(a, b.drop_last());
        assert((a + b).drop_last() =~= a + b.drop_last());
    } else {
        assert(a + b =~= a);
    }
}

/// A count that grows by `ns[i]` at step `i` ends at its start plus the total
/// of `ns`.  `StreamCopy::after_read` and `SyscallCopy::after_copy` each add
/// exactly the length they are given, so a copy's byte count depends only on
/// the total transferred, not on the buffer or chunk size that split it.
pub proof fn lemma_running_count(counts: Seq<nat>, ns: Seq<nat>)
    requires
        counts.len() == ns.len() + 1,
        forall|i: int| 0 <= i < ns.len() ==> #[trigger] counts[i + 1] == counts[i] + ns[i],
    ensures
        counts.last() == counts[0] + total_len(ns),
    decreases ns.len(),
{
    if ns.len() > 0 {
        let c = counts.drop_last();
        let m = ns.drop_last();
        assert forall|i: int| 0 <= i < m.len() implies #[trigger] c[i + 1] == c[i] + m[i] by {
            assert(counts[i + 1] == counts[i] + ns[i]);
        }
        lemma_running_count(c, m);
        assert(counts[ns.len() as int] == counts[ns.len() - 1] + ns[ns.len() - 1]);
    }
}

/// Two runs that start from the same count and add lengths of the same total
/// end at the same count, however each run split its bytes: a stream copy's
/// result does not depend on its buffer size, nor a `copy_file_range` copy's
/// on its chunk size.
pub proof fn lemma_count_independent_of_split(
    counts1: Seq<nat>,
    ns1: Seq<nat>,
    counts2: Seq<nat>,
    ns2: Seq<nat>,
)
    requires
        counts1.len() == ns1.len() + 1,
        forall|i: int| 0 <= i < ns1.len() ==> #[trigger] counts1[i + 1] == counts1[i] + ns1[i],
        counts2.len() == ns2.len() + 1,
        forall|i: int| 0 <= i < ns2.len() ==> #[trigger] counts2[i + 1] == counts2[i] + ns2[i],
        counts1[0] == counts2[0],
        total_len(ns1) == total_len(ns2),
    ensures
        counts1.last() == counts2.last(),
{
    lemma_running_count(counts1, ns1);
    lemma_running_count(counts2, ns2);
}

/// Records progress `curr` against the last reported value `prev`.  Progress
/// is reported only when it moved forward, so `prev` never decreases and the
/// reported values strictly increase.  Returns whether `curr` is to be
/// reported.
pub fn show_progress(prev: &mut u64, curr: u64) -> (advanced: bool)
    ensures
        advanced == (curr > *old(prev)),
        *final(prev) == if advanced { curr } else { *old(prev) },
        *final(prev) >= *old(prev),
        *final(prev) == progress_after(*old(prev) as nat, seq![curr as nat]),
        advanced == is_reported(*old(prev) as nat, seq![curr as nat], 0),
{
    proof {
        let cs = seq![curr as nat];
        assert(cs.drop_last() =~= Seq::<nat>::empty());
        assert(cs.take(0) =~= Seq::<nat>::empty());
        assert(progress_after(*prev as nat, cs.drop_last()) == *prev as nat);
        assert(cs.last() == curr as nat);
        assert(progress_after(*prev as nat, cs) == if curr > *prev { curr as nat } else { *prev as nat });
    }
    if curr > *prev {
        *prev = curr;
        true
    } else {
        false
    }
}

/// The error, if any, that the outcome of a run leaves to be reported.
pub fn log<T, E>(result: Result<T, E>) -> (reported: Option<E>)
    ensures
        reported == match result {
            Ok(_) => None::<E>,
            Err(e) => Some(e),
        },
{
    match result {
        Ok(_) => None,
        Err(e) => Some(e),
    }
}

} // verus!
