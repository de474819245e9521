use vstd::prelude::*;

use std::collections::VecDeque;

use crate::error::DcpError;
use crate::io::check_size_or_error;
use crate::util::{percent, show_progress};

verus! {

/// Where one copy buffer is in the read/write pipeline.
#[derive(Debug, Clone, Copy, PartialEq, Eq, Structural)]
pub enum Stage {
    /// Empty, waiting in the read queue.
    Free,
    /// Handed to the kernel to be filled from the source.
    Reading,
    /// Filled, waiting in the write queue.
    Filled,
    /// Handed to the kernel to be written to the destination.
    Writing,
}

/// One fixed-buffer transfer to submit: `len` bytes between buffer `index`
/// and the file at `offset`.
#[derive(Debug, Clone, Copy, PartialEq, Eq, Structural)]
pub struct Transfer {
    pub index: usize,
    pub offset: u64,
    pub len: u32,
}

/// The indices that a ring hands out first: all buffers `0..count` in order
/// when `fill` is set (the read side), none otherwise (the write side).
pub fn initial_indices(count: usize, fill: bool) -> (q: VecDeque<usize>)
    ensures
        fill ==> q@ == Seq::new(count as nat, |i: int| i as usize),
        !fill ==> q@ == Seq::<usize>::empty(),
{
    let mut q: VecDeque<usize> = VecDeque::with_capacity(count);
    if fill {
        let mut i: usize = 0;
        while i < count
            invariant
                i <= count,
                q@ == Seq::new(i as nat, |k: int| k as usize),
            decreases count - i,
        {
            q.push_back(i);
            i = i + 1;
        }
    }
    q
}

/// `s` lists distinct buffer indices below `n`.
pub open spec fn is_index_queue(s: Seq<usize>, n: nat) -> bool {
    &&& s.no_duplicates()
    &&& forall|k: int| 0 <= k < s.len() ==> #[trigger] s[k] < n
}

/// The abstract state of an io_uring copy: the buffer queues, the buffers in
/// flight, and the byte counters.
#[verifier::ext_equal]
pub struct RingView {
    pub file_size: nat,
    pub buffer_size: nat,
    /// Stage of each buffer, by index.
    pub stages: Seq<Stage>,
    /// Empty buffers, in the order they are handed out for reading.
    pub read_queue: Seq<usize>,
    /// Filled buffers, in the order they are handed out for writing.
    pub write_queue: Seq<usize>,
    /// Buffers being read, in the order the reads were submitted.
    pub reading: Seq<usize>,
    /// Buffers being written.
    pub writing: Set<usize>,
    /// Offset of the next read and of the next write.
    pub read_offset: nat,
    pub write_offset: nat,
    /// Bytes reported read and written so far.
    pub read_size: nat,
    pub write_size: nat,
    /// Largest progress percentage reported so far.
    pub progress: nat,
    /// The file offset that each buffer was last filled from.
    pub origin: Map<usize, nat>,
    /// Whether every read so far completed in the order it was submitted.
    pub in_order: bool,
}

impl RingView {
    /// Filled buffers followed by buffers being read: the data still on its
    /// way from the source to the destination, in file order when reads
    /// complete in order.
    pub open spec fn pipeline(self) -> Seq<usize> {
        self.write_queue + self.reading
    }

    /// Each buffer is at the stage given by the one queue or set that holds it.
    pub open spec fn stages_match(self) -> bool {
        forall|i: usize|
            #![trigger self.stages[i as int]]
            i < self.stages.len() ==> {
                &&& (self.stages[i as int] == Stage::Free) == self.read_queue.contains(i)
                &&& (self.stages[i as int] == Stage::Filled) == self.write_queue.contains(i)
                &&& (self.stages[i as int] == Stage::Reading) == self.reading.contains(i)
                &&& (self.stages[i as int] == Stage::Writing) == self.writing.contains(i)
            }
    }

    /// The state is one that the copy can reach.
    pub open spec fn wf(self) -> bool {
        let n = self.stages.len();
        let bs = self.buffer_size;
        &&& n <= u8::MAX
        &&& self.file_size <= u64::MAX
        &&& self.buffer_size <= u32::MAX
        &&& self.stages_match()
        &&& is_index_queue(self.read_queue, n)
        &&& is_index_queue(self.write_queue, n)
        &&& is_index_queue(self.reading, n)
        &&& self.writing.finite()
        &&& forall|i: usize| #[trigger] self.writing.contains(i) ==> i < n
        &&& self.write_offset + (self.write_queue.len() + self.reading.len()) * bs
            == self.read_offset
        &&& self.read_size + self.reading.len() * bs <= self.read_offset
        &&& self.write_size + self.writing.len() * bs <= self.write_offset
        &&& self.read_offset == 0 || self.read_offset < self.file_size + bs
        &&& self.write_offset == 0 || self.write_offset < self.file_size + bs
        &&& self.file_size == 0 ==> self.write_queue.len() == 0 && self.reading.len() == 0
            && self.writing.len() == 0
        &&& forall|k: int|
            0 <= k < self.pipeline().len() ==> self.origin.contains_key(#[trigger] self.pipeline()[k])
        &&& self.in_order ==> forall|k: int|
            0 <= k < self.pipeline().len() ==> #[trigger] self.origin[self.pipeline()[k]]
                == self.write_offset + k * bs
    }

    /// The state right after the copy is set up.
    pub open spec fn initial(file_size: nat, buffer_size: nat, count: nat) -> RingView {
        RingView {
            file_size,
            buffer_size,
            stages: Seq::new(count, |i: int| Stage::Free),
            read_queue: Seq::new(count, |i: int| i as usize),
            write_queue: Seq::empty(),
            reading: Seq::empty(),
            writing: Set::empty(),
            read_offset: 0,
            write_offset: 0,
            read_size: 0,
            write_size: 0,
            progress: 0,
            origin: Map::empty(),
            in_order: true,
        }
    }

    /// A read is due: the source has unread bytes and an empty buffer waits.
    pub open spec fn can_read(self) -> bool {
        self.read_offset < self.file_size && self.read_queue.len() > 0
    }

    /// The read that is due next.
    pub open spec fn next_read(self) -> Transfer {
        Transfer {
            index: self.read_queue[0],
            offset: self.read_offset as u64,
            len: self.buffer_size as u32,
        }
    }

    /// Hands the first empty buffer out to be filled from the read offset.
    pub open spec fn submit_read(self) -> RingView {
        let idx = self.read_queue[0];
        RingView {
            stages: self.stages.update(idx as int, Stage::Reading),
            read_queue: self.read_queue.drop_first(),
            reading: self.reading.push(idx),
            read_offset: self.read_offset + self.buffer_size,
            origin: self.origin.insert(idx, self.read_offset),
            ..self
        }
    }

    /// A write is due: the destination is not yet complete and a filled buffer
    /// waits.
    pub open spec fn can_write(self) -> bool {
        self.write_offset < self.file_size && self.write_queue.len() > 0
    }

    /// The write that is due next.
    pub open spec fn next_write(self) -> Transfer {
        Transfer {
            index: self.write_queue[0],
            offset: self.write_offset as u64,
            len: self.buffer_size as u32,
        }
    }

    /// Hands the first filled buffer out to be written at the write offset.
    pub open spec fn submit_write(self) -> RingView {
        let idx = self.write_queue[0];
        RingView {
            stages: self.stages.update(idx as int, Stage::Writing),
            write_queue: self.write_queue.drop_first(),
            writing: self.writing.insert(idx),
            write_offset: self.write_offset + self.buffer_size,
            ..self
        }
    }

    /// The read into buffer `idx` completed with `size` bytes: the buffer joins
    /// the write queue.
    pub open spec fn complete_read(self, idx: usize, size: nat) -> RingView {
        RingView {
            stages: self.stages.update(idx as int, Stage::Filled),
            write_queue: self.write_queue.push(idx),
            reading: self.reading.remove(self.reading.index_of(idx)),
            read_size: self.read_size + size,
            in_order: self.in_order && self.reading[0] == idx,
            ..self
        }
    }

    /// The progress percentage once `size` more bytes are written.
    pub open spec fn percent_after_write(self, size: nat) -> nat {
        100 * (self.write_size + size) / self.file_size
    }

    /// The write from buffer `idx` completed with `size` bytes: the buffer
    /// joins the read queue and the progress may move forward.
    pub open spec fn complete_write(self, idx: usize, size: nat) -> RingView {
        let pct = self.percent_after_write(size);
        RingView {
            stages: self.stages.update(idx as int, Stage::Free),
            read_queue: self.read_queue.push(idx),
            writing: self.writing.remove(idx),
            write_size: self.write_size + size,
            progress: if pct > self.progress { pct } else { self.progress },
            ..self
        }
    }

    /// The copy loop goes on while either side has not seen the whole file.
    pub open spec fn in_progress(self) -> bool {
        self.read_size < self.file_size || self.write_size < self.file_size
    }
}

proof fn lemma_drop_first(s: Seq<usize>, n: nat)
    requires
        s.len() > 0,
        is_index_queue(s, n),
    ensures
        is_index_queue(s.drop_first(), n),
        forall|x: usize| #[trigger]
            s.drop_first().contains(x) == (s.contains(x) && x != s[0]),
{
    assert forall|x: usize| #[trigger] s.drop_first().contains(x) == (s.contains(x) && x != s[0]) by {
        if s.contains(x) && x != s[0] {
            let k = choose|k: int| 0 <= k < s.len() && s[k] == x;
            assert(s.drop_first()[k - 1] == x);
        }
        if s.drop_first().contains(x) {
            let k = choose|k: int| 0 <= k < s.len() - 1 && s.drop_first()[k] == x;
            assert(s[k + 1] == x);
        }
    }
}

proof fn lemma_push(s: Seq<usize>, a: usize, n: nat)
    requires
        is_index_queue(s, n),
        !s.contains(a),
        a < n,
    ensures
        is_index_queue(s.push(a), n),
        forall|x: usize| #[trigger] s.push(a).contains(x) == (s.contains(x) || x == a),
{
    assert forall|x: usize| #[trigger] s.push(a).contains(x) == (s.contains(x) || x == a) by {
        if s.contains(x) {
            let k = choose|k: int| 0 <= k < s.len() && s[k] == x;
            assert(s.push(a)[k] == x);
        }
        if x == a {
            assert(s.push(a)[s.len() as int] == x);
        }
        if s.push(a).contains(x) {
            let k = choose|k: int| 0 <= k < s.len() + 1 && s.push(a)[k] == x;
            if k < s.len() {
                assert(s[k] == x);
            }
        }
    }
    assert forall|i: int, j: int|
        0 <= i < s.push(a).len() && 0 <= j < s.push(a).len() && i != j implies s.push(a)[i]
        != s.push(a)[j] by {
        if i < s.len() && j == s.len() {
            assert(s.contains(s[i]));
        }
        if j < s.len() && i == s.len() {
            assert(s.contains(s[j]));
        }
    }
}

proof fn lemma_remove(s: Seq<usize>, j: int, n: nat)
    requires
        is_index_queue(s, n),
        0 <= j < s.len(),
    ensures
        is_index_queue(s.remove(j), n),
        s.remove(j).len() == s.len() - 1,
        forall|x: usize| #[trigger] s.remove(j).contains(x) == (s.contains(x) && x != s[j]),
{
    s.remove_ensures(j);
    let r = s.remove(j);
    assert forall|x: usize| #[trigger] r.contains(x) == (s.contains(x) && x != s[j]) by {
        if s.contains(x) && x != s[j] {
            let k = choose|k: int| 0 <= k < s.len() && s[k] == x;
            if k < j {
                assert(r[k] == x);
            } else {
                assert(r[k - 1] == x);
            }
        }
        if r.contains(x) {
            let k = choose|k: int| 0 <= k < r.len() && r[k] == x;
            if k < j {
                assert(s[k] == x);
            } else {
                assert(s[k + 1] == x);
            }
        }
    }
    assert forall|a: int, b: int| 0 <= a < r.len() && 0 <= b < r.len() && a != b implies r[a]
        != r[b] by {
        let sa = if a < j { a } else { a + 1 };
        let sb = if b < j { b } else { b + 1 };
        assert(r[a] == s[sa]);
        assert(r[b] == s[sb]);
    }
    assert forall|k: int| 0 <= k < r.len() implies #[trigger] r[k] < n by {
        if k < j {
            assert(r[k] == s[k]);
        } else {
            assert(r[k] == s[k + 1]);
        }
    }
}

proof fn lemma_contains_index(s: Seq<usize>, x: usize) -> (k: int)
    requires
        s.contains(x),
    ensures
        0 <= k < s.len(),
        s[k] == x,
        k == s.index_of(x),
{
    s.index_of(x)
}

proof fn lemma_mul_succ(a: nat, b: nat)
    ensures
        (a + 1) * b == a * b + b,
{
    assert((a + 1) * b == a * b + b) by (nonlinear_arith);
}

/// Moving buffer `idx` to stage `s` keeps stages and collections in step,
/// when `idx` now sits exactly in the collection of `s` and every other buffer
/// stays where it was.
proof fn lemma_stages_match_update(v: RingView, w: RingView, idx: usize, s: Stage)
    requires
        v.stages_match(),
        idx < v.stages.len(),
        w.stages == v.stages.update(idx as int, s),
        w.read_queue.contains(idx) == (s == Stage::Free),
        w.write_queue.contains(idx) == (s == Stage::Filled),
        w.reading.contains(idx) == (s == Stage::Reading),
        w.writing.contains(idx) == (s == Stage::Writing),
        forall|x: usize|
            x != idx ==> {
                &&& #[trigger] w.read_queue.contains(x) == v.read_queue.contains(x)
                &&& w.write_queue.contains(x) == v.write_queue.contains(x)
                &&& w.reading.contains(x) == v.reading.contains(x)
                &&& w.writing.contains(x) == v.writing.contains(x)
            },
    ensures
        w.stages_match(),
{
    assert forall|i: usize| #![trigger w.stages[i as int]] i < w.stages.len() implies {
        &&& (w.stages[i as int] == Stage::Free) == w.read_queue.contains(i)
        &&& (w.stages[i as int] == Stage::Filled) == w.write_queue.contains(i)
        &&& (w.stages[i as int] == Stage::Reading) == w.reading.contains(i)
        &&& (w.stages[i as int] == Stage::Writing) == w.writing.contains(i)
    } by {
        if i == idx {
            assert(w.stages[i as int] == s);
        } else {
            assert(w.stages[i as int] == v.stages[i as int]);
            assert(w.read_queue.contains(i) == v.read_queue.contains(i));
        }
    }
}

/// The state a copy starts in is reachable.
pub proof fn lemma_initial_wf(file_size: nat, buffer_size: nat, count: nat)
    requires
        file_size <= u64::MAX,
        buffer_size <= u32::MAX,
        count <= u8::MAX,
    ensures
        RingView::initial(file_size, buffer_size, count).wf(),
{
    let v = RingView::initial(file_size, buffer_size, count);
    assert forall|i: usize| #![trigger v.stages[i as int]] i < v.stages.len() implies {
        &&& (v.stages[i as int] == Stage::Free) == v.read_queue.contains(i)
        &&& (v.stages[i as int] == Stage::Filled) == v.write_queue.contains(i)
        &&& (v.stages[i as int] == Stage::Reading) == v.reading.contains(i)
        &&& (v.stages[i as int] == Stage::Writing) == v.writing.contains(i)
    } by {
        assert(v.read_queue[i as int] == i);
    }
}

/// Submitting the due read keeps the state reachable.
pub proof fn lemma_submit_read_wf(v: RingView)
    requires
        v.wf(),
        v.can_read(),
    ensures
        v.submit_read().wf(),
{
    let n = v.stages.len();
    let bs = v.buffer_size;
    let idx = v.read_queue[0];
    let w = v.submit_read();
    assert(v.read_queue.contains(idx));
    assert(idx < n);
    assert(v.stages[idx as int] == Stage::Free);
    lemma_drop_first(v.read_queue, n);
    lemma_push(v.reading, idx, n);
    lemma_stages_match_update(v, w, idx, Stage::Reading);
    let a = v.write_queue.len() + v.reading.len();
    lemma_mul_succ(a, bs);
    lemma_mul_succ(v.reading.len(), bs);
    assert(w.pipeline() =~= v.pipeline().push(idx));
    assert forall|k: int| 0 <= k < w.pipeline().len() implies w.origin.contains_key(
        #[trigger] w.pipeline()[k],
    ) by {
        if k < v.pipeline().len() {
            assert(w.pipeline()[k] == v.pipeline()[k]);
        }
    }
    if v.in_order {
        assert forall|k: int| 0 <= k < w.pipeline().len() implies #[trigger] w.origin[w.pipeline()[k]]
            == w.write_offset + k * bs by {
            if k < v.pipeline().len() {
                let x = v.pipeline()[k];
                if k < v.write_queue.len() {
                    assert(v.write_queue.contains(x));
                    assert(v.write_queue[k] == x);
                } else {
                    assert(v.reading[k - v.write_queue.len()] == x);
                    assert(v.reading.contains(x));
                }
                assert(x != idx);
                assert(w.pipeline()[k] == x);
            } else {
                assert(w.pipeline()[k] == idx);
            }
        }
    }
}

/// Submitting the due write keeps the state reachable.
pub proof fn lemma_submit_write_wf(v: RingView)
    requires
        v.wf(),
        v.can_write(),
    ensures
        v.submit_write().wf(),
{
    let n = v.stages.len();
    let bs = v.buffer_size;
    let idx = v.write_queue[0];
    let w = v.submit_write();
    assert(v.write_queue.contains(idx));
    assert(idx < n);
    assert(v.stages[idx as int] == Stage::Filled);
    assert(!v.writing.contains(idx));
    lemma_drop_first(v.write_queue, n);
    assert(w.writing.len() == v.writing.len() + 1);
    lemma_stages_match_update(v, w, idx, Stage::Writing);
    let a = (v.write_queue.len() - 1 + v.reading.len()) as nat;
    lemma_mul_succ(a, bs);
    lemma_mul_succ(v.writing.len(), bs);
    assert(w.pipeline() =~= v.pipeline().drop_first());
    assert forall|k: int| 0 <= k < w.pipeline().len() implies w.origin.contains_key(
        #[trigger] w.pipeline()[k],
    ) by {
        assert(w.pipeline()[k] == v.pipeline()[k + 1]);
    }
    if v.in_order {
        assert forall|k: int| 0 <= k < w.pipeline().len() implies #[trigger] w.origin[w.pipeline()[k]]
            == w.write_offset + k * bs by {
            assert(w.pipeline()[k] == v.pipeline()[k + 1]);
            assert(v.origin[v.pipeline()[k + 1]] == v.write_offset + (k + 1) * bs);
            lemma_mul_succ(k as nat, bs);
        }
    }
}

/// Accounting for a completed read of `size` bytes into a buffer being read
/// keeps the state reachable.
pub proof fn lemma_complete_read_wf(v: RingView, idx: usize, size: nat)
    requires
        v.wf(),
        idx < v.stages.len(),
        v.stages[idx as int] == Stage::Reading,
        size <= v.buffer_size,
    ensures
        v.complete_read(idx, size).wf(),
{
    let n = v.stages.len();
    let bs = v.buffer_size;
    let w = v.complete_read(idx, size);
    assert(v.stages[idx as int] == v.stages[idx as int]);
    assert(v.reading.contains(idx));
    let j = lemma_contains_index(v.reading, idx);
    lemma_remove(v.reading, j, n);
    lemma_push(v.write_queue, idx, n);
    lemma_stages_match_update(v, w, idx, Stage::Filled);
    let r = (v.reading.len() - 1) as nat;
    lemma_mul_succ(r, bs);
    assert forall|k: int| 0 <= k < w.pipeline().len() implies w.origin.contains_key(
        #[trigger] w.pipeline()[k],
    ) by {
        let x = w.pipeline()[k];
        if k < w.write_queue.len() {
            assert(w.write_queue[k] == x);
            if k < v.write_queue.len() {
                assert(v.pipeline()[k] == x);
            } else {
                assert(x == idx);
                assert(v.pipeline()[v.write_queue.len() + j] == idx);
            }
        } else {
            assert(w.reading[k - w.write_queue.len()] == x);
            assert(w.reading.contains(x));
            assert(v.reading.contains(x));
            let m = lemma_contains_index(v.reading, x);
            assert(v.pipeline()[v.write_queue.len() + m] == x);
        }
    }
    if w.in_order {
        assert(v.reading[0] == idx);
        assert(j == 0);
        assert(w.reading =~= v.reading.drop_first());
        assert(w.pipeline() =~= v.pipeline());
    }
}

/// Accounting for a completed write of `size` bytes from a buffer being
/// written keeps the state reachable.
pub proof fn lemma_complete_write_wf(v: RingView, idx: usize, size: nat)
    requires
        v.wf(),
        idx < v.stages.len(),
        v.stages[idx as int] == Stage::Writing,
        size <= v.buffer_size,
    ensures
        v.complete_write(idx, size).wf(),
{
    let n = v.stages.len();
    let bs = v.buffer_size;
    let w = v.complete_write(idx, size);
    assert(v.stages[idx as int] == v.stages[idx as int]);
    assert(v.writing.contains(idx));
    assert(!v.read_queue.contains(idx));
    lemma_push(v.read_queue, idx, n);
    assert(w.writing.len() == v.writing.len() - 1);
    lemma_stages_match_update(v, w, idx, Stage::Free);
    let r = (v.writing.len() - 1) as nat;
    lemma_mul_succ(r, bs);
    assert(w.pipeline() =~= v.pipeline());
}

/// Every buffer is in exactly one place: the read queue, the write queue,
/// the reads in flight or the writes in flight.
pub proof fn lemma_buffer_in_one_place(v: RingView, i: usize)
    requires
        v.wf(),
        i < v.stages.len(),
    ensures
        v.read_queue.contains(i) || v.write_queue.contains(i) || v.reading.contains(i)
            || v.writing.contains(i),
        !(v.read_queue.contains(i) && v.write_queue.contains(i)),
        !(v.read_queue.contains(i) && v.reading.contains(i)),
        !(v.read_queue.contains(i) && v.writing.contains(i)),
        !(v.write_queue.contains(i) && v.reading.contains(i)),
        !(v.write_queue.contains(i) && v.writing.contains(i)),
        !(v.reading.contains(i) && v.writing.contains(i)),
{
    match v.stages[i as int] {
        Stage::Free => {},
        Stage::Reading => {},
        Stage::Filled => {},
        Stage::Writing => {},
    }
}

/// No buffer is lost or duplicated: the queues and the transfers in flight
/// together hold exactly as many buffers as there are.
pub proof fn lemma_buffers_conserved(v: RingView)
    requires
        v.wf(),
    ensures
        v.read_queue.len() + v.write_queue.len() + v.reading.len() + v.writing.len()
            == v.stages.len(),
{
    broadcast use vstd::seq_lib::seq_to_set_is_finite;

    let n = v.stages.len();
    let a = v.read_queue.to_set();
    let b = v.write_queue.to_set();
    let c = v.reading.to_set();
    let d = v.writing;
    v.read_queue.unique_seq_to_set();
    v.write_queue.unique_seq_to_set();
    v.reading.unique_seq_to_set();
    let all = Seq::new(n, |i: int| i as usize);
    assert(all.no_duplicates());
    all.unique_seq_to_set();
    assert forall|x: usize| #[trigger] (a + b + c + d).contains(x) == all.to_set().contains(x) by {
        if x < n {
            lemma_buffer_in_one_place(v, x);
            assert(all[x as int] == x);
        }
        if a.contains(x) {
            lemma_contains_index(v.read_queue, x);
        }
        if b.contains(x) {
            lemma_contains_index(v.write_queue, x);
        }
        if c.contains(x) {
            lemma_contains_index(v.reading, x);
        }
        if all.to_set().contains(x) {
            lemma_contains_index(all, x);
        }
    }
    assert(a + b + c + d =~= all.to_set());
    assert(a.disjoint(b) && (a + b).disjoint(c) && (a + b + c).disjoint(d)) by {
        assert forall|x: usize| x < n implies {
            &&& !(a.contains(x) && b.contains(x))
            &&& !(a.contains(x) && c.contains(x))
            &&& !(a.contains(x) && d.contains(x))
            &&& !(b.contains(x) && c.contains(x))
            &&& !(b.contains(x) && d.contains(x))
            &&& !(c.contains(x) && d.contains(x))
        } by {
            lemma_buffer_in_one_place(v, x);
        }
        assert forall|x: usize| a.contains(x) || b.contains(x) || c.contains(x) || d.contains(x) implies x < n by {
            if a.contains(x) {
                lemma_contains_index(v.read_queue, x);
            }
            if b.contains(x) {
                lemma_contains_index(v.write_queue, x);
            }
            if c.contains(x) {
                lemma_contains_index(v.reading, x);
            }
        }
    }
    vstd::set_lib::lemma_set_disjoint_lens(a, b);
    vstd::set_lib::lemma_set_disjoint_lens(a + b, c);
    vstd::set_lib::lemma_set_disjoint_lens(a + b + c, d);
}

/// Writes never run ahead of reads, and no side counts more bytes than it has
/// asked for.
pub proof fn lemma_writes_trail_reads(v: RingView)
    requires
        v.wf(),
    ensures
        v.write_size <= v.write_offset,
        v.write_offset <= v.read_offset,
        v.read_size <= v.read_offset,
        v.read_offset <= v.file_size + v.buffer_size,
{
    let bs = v.buffer_size;
    assert(v.write_offset <= v.read_offset) by (nonlinear_arith)
        requires
            v.write_offset + (v.write_queue.len() + v.reading.len()) * bs == v.read_offset,
    ;
    assert(v.read_size <= v.read_offset) by (nonlinear_arith)
        requires
            v.read_size + v.reading.len() * bs <= v.read_offset,
    ;
    assert(v.write_size <= v.write_offset) by (nonlinear_arith)
        requires
            v.write_size + v.writing.len() * bs <= v.write_offset,
    ;
}

/// While reads complete in the order they were submitted, the write that is
/// due goes to the very offset its buffer was filled from: the copy puts each
/// block where it found it.
pub proof fn lemma_write_lands_where_read(v: RingView)
    requires
        v.wf(),
        v.in_order,
        v.can_write(),
    ensures
        v.origin.contains_key(v.next_write().index),
        v.origin[v.next_write().index] == v.next_write().offset,
{
    assert(v.pipeline()[0] == v.write_queue[0]);
    assert(v.origin[v.pipeline()[0]] == v.write_offset + 0 * v.buffer_size);
    assert(v.write_offset < v.file_size);
}

/// A due read fills the first empty buffer with `buffer_size` bytes taken at
/// the read offset, records that offset as where the buffer's data comes
/// from, and moves the read offset on by exactly one buffer.
pub proof fn lemma_read_transfer(v: RingView)
    requires
        v.wf(),
        v.can_read(),
    ensures
        v.next_read().index == v.read_queue[0],
        v.next_read().offset == v.read_offset,
        v.next_read().len == v.buffer_size,
        v.submit_read().origin[v.next_read().index] == v.next_read().offset,
        v.submit_read().read_offset == v.read_offset + v.buffer_size,
        v.submit_read().stages[v.next_read().index as int] == Stage::Reading,
{
    assert(v.read_queue.contains(v.read_queue[0]));
}

/// A due write sends the whole of the first filled buffer, `buffer_size`
/// bytes, the same length every read asks for, at the write offset, and
/// moves the write offset on by exactly one buffer.
pub proof fn lemma_write_transfer(v: RingView)
    requires
        v.wf(),
        v.can_write(),
    ensures
        v.next_write().index == v.write_queue[0],
        v.next_write().offset == v.write_offset,
        v.next_write().len == v.buffer_size,
        v.next_write().len == v.next_read().len,
        v.submit_write().write_offset == v.write_offset + v.buffer_size,
        v.submit_write().stages[v.next_write().index as int] == Stage::Writing,
{
    assert(v.write_queue.contains(v.write_queue[0]));
}

/// The copy goes on exactly while fewer bytes than the file holds have been
/// reported read, or reported written; once it stops, both sides have seen
/// the whole file.
pub proof fn lemma_in_progress_meaning(v: RingView)
    ensures
        v.in_progress() == (v.read_size < v.file_size || v.write_size < v.file_size),
        !v.in_progress() ==> v.read_size >= v.file_size && v.write_size >= v.file_size,
{
}

/// While a buffer is being read, waits to be written or is being written, a
/// nonempty copy is not done.
pub proof fn lemma_busy_copy_in_progress(v: RingView)
    requires
        v.wf(),
        v.file_size > 0,
        v.reading.len() > 0 || v.write_queue.len() > 0 || v.writing.len() > 0,
    ensures
        v.in_progress(),
{
    let bs = v.buffer_size;
    if v.reading.len() > 0 {
        assert(v.read_size + bs <= v.read_offset) by (nonlinear_arith)
            requires
                v.read_size + v.reading.len() * bs <= v.read_offset,
                v.reading.len() >= 1,
        ;
    } else if v.write_queue.len() > 0 {
        assert(v.write_offset + bs <= v.read_offset) by (nonlinear_arith)
            requires
                v.write_offset + (v.write_queue.len() + v.reading.len()) * bs == v.read_offset,
                v.write_queue.len() >= 1,
        ;
        assert(v.write_size <= v.write_offset) by (nonlinear_arith)
            requires
                v.write_size + v.writing.len() * bs <= v.write_offset,
        ;
    } else {
        assert(v.write_size + bs <= v.write_offset) by (nonlinear_arith)
            requires
                v.write_size + v.writing.len() * bs <= v.write_offset,
                v.writing.len() >= 1,
        ;
    }
}

/// A completed read of `size` bytes into a buffer being read adds `size` to
/// the bytes read and puts that buffer, still attributed to the offset it was
/// filled from, at the back of the write queue; the offsets do not move.
pub proof fn lemma_complete_read_effect(v: RingView, idx: usize, size: nat)
    requires
        v.wf(),
        idx < v.stages.len(),
        v.stages[idx as int] == Stage::Reading,
    ensures
        ({
            let w = v.complete_read(idx, size);
            &&& w.read_size == v.read_size + size
            &&& w.write_queue == v.write_queue.push(idx)
            &&& w.write_queue.last() == idx
            &&& w.origin[idx] == v.origin[idx]
            &&& w.stages[idx as int] == Stage::Filled
            &&& !w.reading.contains(idx)
            &&& w.read_offset == v.read_offset
            &&& w.write_offset == v.write_offset
        }),
{
    assert(v.stages[idx as int] == v.stages[idx as int]);
    let j = lemma_contains_index(v.reading, idx);
    lemma_remove(v.reading, j, v.stages.len());
}

/// A completed write of `size` bytes adds `size` to the bytes written and
/// keeps as progress the larger of the old progress and the whole percentage
/// now written, `100 * (write_size + size) / file_size`: progress never moves
/// back, and over a run of completions it is what `progress_after` keeps, so
/// the reported percentages strictly increase.
pub proof fn lemma_complete_write_progress(v: RingView, idx: usize, size: nat)
    requires
        v.file_size > 0,
    ensures
        ({
            let w = v.complete_write(idx, size);
            let pct: nat = 100 * (v.write_size + size) / v.file_size;
            &&& w.write_size == v.write_size + size
            &&& w.progress == if pct > v.progress { pct } else { v.progress }
            &&& w.progress >= v.progress
            &&& w.progress >= pct
            &&& w.progress == crate::util::progress_after(v.progress, seq![pct])
        }),
{
    let pct: nat = 100 * (v.write_size + size) / v.file_size;
    let one = seq![pct];
    assert(one.drop_last() =~= Seq::<nat>::empty());
    assert(crate::util::progress_after(v.progress, one.drop_last()) == v.progress);
    assert(one.last() == pct);
}

/// Scheduler of an io_uring copy: decides which buffer to read into or write
/// from next, at which offset, and accounts for the completions.  The caller
/// performs the submissions and hands back each completion.
pub struct RingCopy {
    file_size: u64,
    buffer_size: u32,
    stages: Vec<Stage>,
    read_indices: VecDeque<usize>,
    write_indices: VecDeque<usize>,
    read_offset: u64,
    write_offset: u64,
    read_size: u64,
    write_size: u64,
    progress: u64,
    reading: Ghost<Seq<usize>>,
    writing: Ghost<Set<usize>>,
    origin: Ghost<Map<usize, nat>>,
    in_order: Ghost<bool>,
}

impl View for RingCopy {
    type V = RingView;

    closed spec fn view(&self) -> RingView {
        RingView {
            file_size: self.file_size as nat,
            buffer_size: self.buffer_size as nat,
            stages: self.stages@,
            read_queue: self.read_indices@,
            write_queue: self.write_indices@,
            reading: self.reading@,
            writing: self.writing@,
            read_offset: self.read_offset as nat,
            write_offset: self.write_offset as nat,
            read_size: self.read_size as nat,
            write_size: self.write_size as nat,
            progress: self.progress as nat,
            origin: self.origin@,
            in_order: self.in_order@,
        }
    }
}

impl RingCopy {
    /// Sets up the copy of a file of `file_size` bytes through `buffer_count`
    /// buffers of `buffer_size` bytes: every buffer waits to be read into, in
    /// index order, and nothing waits to be written.
    pub fn new(file_size: u64, buffer_size: u32, buffer_count: u8) -> (c: RingCopy)
        ensures
            c@ == RingView::initial(file_size as nat, buffer_size as nat, buffer_count as nat),
            c@.wf(),
    {
        let count = buffer_count as usize;
        let mut stages: Vec<Stage> = Vec::with_capacity(count);
        let mut i: usize = 0;
        while i < count
            invariant
                i <= count,
                stages@ == Seq::new(i as nat, |k: int| Stage::Free),
            decreases count - i,
        {
            stages.push(Stage::Free);
            i = i + 1;
        }
        let c = RingCopy {
            file_size,
            buffer_size,
            stages,
            read_indices: initial_indices(count, true),
            write_indices: initial_indices(count, false),
            read_offset: 0,
            write_offset: 0,
            read_size: 0,
            write_size: 0,
            progress: 0,
            reading: Ghost(Seq::empty()),
            writing: Ghost(Set::empty()),
            origin: Ghost(Map::empty()),
            in_order: Ghost(true),
        };
        proof {
            lemma_initial_wf(file_size as nat, buffer_size as nat, buffer_count as nat);
            assert(c@ =~= RingView::initial(file_size as nat, buffer_size as nat, buffer_count as nat));
        }
        c
    }

    /// Hands out the due read, if any: the first empty buffer, to be filled
    /// with `buffer_size` bytes from the read offset, which then moves on by
    /// one buffer.
    pub fn next_read(&mut self) -> (t: Option<Transfer>)
        requires
            old(self)@.wf(),
            old(self)@.can_read() ==> old(self)@.read_offset + old(self)@.buffer_size <= u64::MAX,
        ensures
            final(self)@.wf(),
            old(self)@.can_read() ==> t == Some(old(self)@.next_read()) && final(self)@
                == old(self)@.submit_read(),
            !old(self)@.can_read() ==> t == None::<Transfer> && final(self)@ == old(self)@,
            t is Some <==> old(self)@.read_offset < old(self)@.file_size
                && old(self)@.read_queue.len() > 0,
            t matches Some(tr) ==> {
                &&& tr.index == old(self)@.read_queue[0]
                &&& tr.offset == old(self)@.read_offset
                &&& tr.len == old(self)@.buffer_size
                &&& final(self)@.read_offset == old(self)@.read_offset + old(self)@.buffer_size
                &&& final(self)@.origin[tr.index] == tr.offset
                &&& final(self)@.stages[tr.index as int] == Stage::Reading
                &&& final(self)@.read_queue == old(self)@.read_queue.drop_first()
                &&& final(self)@.reading == old(self)@.reading.push(tr.index)
            },
    {
        if self.read_offset < self.file_size {
            let ghost v = self@;
            if let Some(idx) = self.read_indices.pop_front() {
                proof {
                    lemma_submit_read_wf(v);
                    assert(v.read_queue.contains(idx));
                }
                let offset = self.read_offset;
                self.stages.set(idx, Stage::Reading);
                self.reading = Ghost(self.reading@.push(idx));
                self.origin = Ghost(self.origin@.insert(idx, offset as nat));
                self.read_offset = offset + self.buffer_size as u64;
                proof {
                    assert(self@ =~= v.submit_read());
                }
                return Some(Transfer { index: idx, offset, len: self.buffer_size });
            }
        }
        None
    }

    /// Hands out the due write, if any: the first filled buffer, to be written
    /// as `buffer_size` bytes at the write offset, which then moves on by one
    /// buffer.
    pub fn next_write(&mut self) -> (t: Option<Transfer>)
        requires
            old(self)@.wf(),
        ensures
            final(self)@.wf(),
            old(self)@.can_write() ==> t == Some(old(self)@.next_write()) && final(self)@
                == old(self)@.submit_write(),
            !old(self)@.can_write() ==> t == None::<Transfer> && final(self)@ == old(self)@,
            t is Some <==> old(self)@.write_offset < old(self)@.file_size
                && old(self)@.write_queue.len() > 0,
            t matches Some(tr) ==> {
                &&& tr.index == old(self)@.write_queue[0]
                &&& tr.offset == old(self)@.write_offset
                &&& tr.len == old(self)@.buffer_size
                &&& final(self)@.write_offset == old(self)@.write_offset + old(self)@.buffer_size
                &&& final(self)@.stages[tr.index as int] == Stage::Writing
                &&& final(self)@.write_queue == old(self)@.write_queue.drop_first()
                &&& old(self)@.in_order ==> old(self)@.origin[tr.index] == tr.offset
            },
    {
        if self.write_offset < self.file_size {
            let ghost v = self@;
            if let Some(idx) = self.write_indices.pop_front() {
                proof {
                    lemma_submit_write_wf(v);
                    if v.in_order {
                        lemma_write_lands_where_read(v);
                    }
                    assert(v.write_queue.contains(idx));
                }
                let offset = self.write_offset;
                self.stages.set(idx, Stage::Writing);
                self.writing = Ghost(self.writing@.insert(idx));
                self.write_offset = offset + self.buffer_size as u64;
                proof {
                    assert(self@ =~= v.submit_write());
                }
                return Some(Transfer { index: idx, offset, len: self.buffer_size });
            }
        }
        None
    }

    /// Whether buffer `index` is being read, so that a read completion for it
    /// can be accepted.
    pub fn is_reading(&self, index: u64) -> (r: bool)
        ensures
            r == (index < self@.stages.len() && self@.stages[index as int] == Stage::Reading),
    {
        if index < self.stages.len() as u64 {
            match self.stages[index as usize] {
                Stage::Reading => true,
                _ => false,
            }
        } else {
            false
        }
    }

    /// Whether buffer `index` is being written, so that a write completion for
    /// it can be accepted.
    pub fn is_writing(&self, index: u64) -> (r: bool)
        ensures
            r == (index < self@.stages.len() && self@.stages[index as int] == Stage::Writing),
    {
        if index < self.stages.len() as u64 {
            match self.stages[index as usize] {
                Stage::Writing => true,
                _ => false,
            }
        } else {
            false
        }
    }

    /// Accounts for the completion of the read into buffer `index` with kernel
    /// result `result`: a negative result is the error it names and changes
    /// nothing; otherwise the buffer, now holding `result` bytes, joins the
    /// write queue and the byte count is returned.
    pub fn read_completed(&mut self, index: u64, result: i32) -> (r: Result<u32, DcpError>)
        requires
            old(self)@.wf(),
            index < old(self)@.stages.len(),
            old(self)@.stages[index as int] == Stage::Reading,
            result > i32::MIN,
            result <= old(self)@.buffer_size,
        ensures
            final(self)@.wf(),
            result < 0 ==> r == Err::<u32, DcpError>(DcpError::Io(-result as i32)) && final(self)@
                == old(self)@,
            result >= 0 ==> r == Ok::<u32, DcpError>(result as u32) && final(self)@
                == old(self)@.complete_read(index as usize, result as nat),
            result >= 0 ==> {
                &&& final(self)@.read_size == old(self)@.read_size + result
                &&& final(self)@.write_queue == old(self)@.write_queue.push(index as usize)
                &&& final(self)@.stages[index as int] == Stage::Filled
                &&& final(self)@.read_offset == old(self)@.read_offset
                &&& final(self)@.in_order == (old(self)@.in_order && old(self)@.reading[0]
                    == index)
            },
    {
        let size = match check_size_or_error(result) {
            Ok(size) => size,
            Err(e) => return Err(e),
        };
        let ghost v = self@;
        let idx = index as usize;
        proof {
            lemma_complete_read_wf(v, idx, size as nat);
            assert(v.stages[idx as int] == v.stages[idx as int]);
            assert(v.reading.contains(idx));
            assert(self.read_size + size <= v.read_offset) by (nonlinear_arith)
                requires
                    self.read_size + v.reading.len() * v.buffer_size <= v.read_offset,
                    v.reading.len() >= 1,
                    size <= v.buffer_size,
            ;
        }
        self.stages.set(idx, Stage::Filled);
        self.write_indices.push_back(idx);
        proof {
            self.in_order@ = v.in_order && v.reading[0] == idx;
            self.reading@ = v.reading.remove(v.reading.index_of(idx));
        }
        self.read_size = self.read_size + size as u64;
        proof {
            assert(self@ =~= v.complete_read(idx, size as nat));
        }
        Ok(size)
    }

    /// Accounts for the completion of the write from buffer `index` with
    /// kernel result `result`: a negative result is the error it names and
    /// changes nothing; otherwise the buffer joins the read queue, the written
    /// byte count grows by `result`, and the new progress percentage is
    /// returned when it moved forward.
    pub fn write_completed(&mut self, index: u64, result: i32) -> (r: Result<Option<u64>, DcpError>)
        requires
            old(self)@.wf(),
            index < old(self)@.stages.len(),
            old(self)@.stages[index as int] == Stage::Writing,
            result > i32::MIN,
            result <= old(self)@.buffer_size,
            result >= 0 ==> 100 * (old(self)@.write_size + result) <= u64::MAX,
        ensures
            final(self)@.wf(),
            result < 0 ==> r == Err::<Option<u64>, DcpError>(DcpError::Io(-result as i32))
                && final(self)@ == old(self)@,
            result >= 0 ==> final(self)@ == old(self)@.complete_write(index as usize, result as nat),
            result >= 0 ==> r == Ok::<Option<u64>, DcpError>(
                if old(self)@.percent_after_write(result as nat) > old(self)@.progress {
                    Some(old(self)@.percent_after_write(result as nat) as u64)
                } else {
                    None::<u64>
                },
            ),
            result >= 0 ==> {
                let pct = 100 * (old(self)@.write_size + result) / (old(self)@.file_size as int);
                &&& final(self)@.write_size == old(self)@.write_size + result
                &&& final(self)@.progress == if pct > old(self)@.progress {
                    pct
                } else {
                    old(self)@.progress as int
                }
                &&& r == Ok::<Option<u64>, DcpError>(
                    if pct > old(self)@.progress {
                        Some(pct as u64)
                    } else {
                        None::<u64>
                    },
                )
            },
            final(self)@.progress >= old(self)@.progress,
            result >= 0 ==> {
                &&& final(self)@.read_queue == old(self)@.read_queue.push(index as usize)
                &&& final(self)@.stages[index as int] == Stage::Free
                &&& final(self)@.write_offset == old(self)@.write_offset
            },
    {
        let size = match check_size_or_error(result) {
            Ok(size) => size,
            Err(e) => return Err(e),
        };
        let ghost v = self@;
        let idx = index as usize;
        proof {
            lemma_complete_write_wf(v, idx, size as nat);
            assert(v.stages[idx as int] == v.stages[idx as int]);
            assert(v.writing.contains(idx));
            assert(v.writing.len() >= 1) by {
                if v.writing.len() == 0 {
                    v.writing.lemma_len0_is_empty();
                }
            }
            assert(self.write_size + size <= v.write_offset) by (nonlinear_arith)
                requires
                    self.write_size + v.writing.len() * v.buffer_size <= v.write_offset,
                    v.writing.len() >= 1,
                    size <= v.buffer_size,
            ;
            assert(v.write_offset <= v.read_offset) by (nonlinear_arith)
                requires
                    v.write_offset + (v.write_queue.len() + v.reading.len()) * v.buffer_size
                        == v.read_offset,
            ;
        }
        self.stages.set(idx, Stage::Free);
        self.read_indices.push_back(idx);
        self.writing = Ghost(self.writing@.remove(idx));
        self.write_size = self.write_size + size as u64;
        let pct = percent(self.write_size, self.file_size);
        let advanced = show_progress(&mut self.progress, pct);
        proof {
            assert(self@ =~= v.complete_write(idx, size as nat));
        }
        if advanced {
            Ok(Some(pct))
        } else {
            Ok(None)
        }
    }

    /// Whether a read is due: bytes remain unread and an empty buffer waits.
    pub fn read_due(&self) -> (r: bool)
        ensures
            r == self@.can_read(),
    {
        self.read_offset < self.file_size && self.read_indices.len() > 0
    }

    /// Offset of the next read.
    pub fn read_offset(&self) -> (n: u64)
        ensures
            n == self@.read_offset,
    {
        self.read_offset
    }

    /// Whether the copy loop goes on: some bytes are still to be read or to be
    /// written.
    pub fn in_progress(&self) -> (r: bool)
        ensures
            r == self@.in_progress(),
            r == (self@.read_size < self@.file_size || self@.write_size < self@.file_size),
    {
        self.read_size < self.file_size || self.write_size < self.file_size
    }

    /// Bytes reported written so far.
    pub fn written(&self) -> (n: u64)
        ensures
            n == self@.write_size,
    {
        self.write_size
    }

    /// The size of the file being copied.
    pub fn file_size(&self) -> (n: u64)
        ensures
            n == self@.file_size,
    {
        self.file_size
    }
}

} // verus!
