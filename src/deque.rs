//! The GPU-mirrored point queue: host pushes and pops, the reconciliation
//! that plans allocations and uploads, and the draw ranges.
use vstd::prelude::*;

use crate::arith::{is_pow2, lemma_mask_is_mod, lemma_wrap};
use crate::ring::{HostRing, MAX_LEN, MAX_SLOTS};

verus! {

/// One upload: the `len` elements of the plan's source starting at `src`
/// go to the GPU buffer's elements starting at `dst`.
#[derive(Clone, Copy, Debug, PartialEq, Eq, Structural)]
pub struct GpuWrite {
    pub dst: usize,
    pub src: usize,
    pub len: usize,
}

/// Where the writes of a plan read from: the host ring's storage itself, or
/// a temporary copy made because the elements to upload straddle the end of
/// that storage.
#[derive(Debug)]
pub enum UploadSource<V> {
    Ring,
    Copied(Vec<V>),
}

/// What one reconciliation asks of the GPU: an optional reallocation to a
/// number of elements (which wipes the buffer), then the writes in order.
#[derive(Debug)]
pub struct SyncPlan<V> {
    pub allocate: Option<usize>,
    pub source: UploadSource<V>,
    pub writes: Vec<GpuWrite>,
}

/// The elements a source holds, given the ring's storage.
pub open spec fn source_view<V>(source: UploadSource<V>, storage: Seq<V>) -> Seq<V> {
    match source {
        UploadSource::Ring => storage,
        UploadSource::Copied(v) => v@,
    }
}

/// The elements the writes of `plan` read from, given the ring's storage.
pub open spec fn plan_source<V>(plan: SyncPlan<V>, storage: Seq<V>) -> Seq<V> {
    source_view(plan.source, storage)
}

/// The elements one write carries.
pub open spec fn write_data<V>(w: GpuWrite, src: Seq<V>) -> Seq<V> {
    src.subrange(w.src as int, w.src + w.len)
}

/// GPU contents after one write.
pub open spec fn apply_write<V>(gpu: Seq<V>, w: GpuWrite, src: Seq<V>) -> Seq<V> {
    Seq::new(
        gpu.len(),
        |i: int|
            if w.dst <= i < w.dst + w.len {
                src[w.src + (i - w.dst)]
            } else {
                gpu[i]
            },
    )
}

/// GPU contents after the writes, first to last.
pub open spec fn apply_writes<V>(gpu: Seq<V>, ws: Seq<GpuWrite>, src: Seq<V>) -> Seq<V>
    decreases ws.len(),
{
    if ws.len() == 0 {
        gpu
    } else {
        apply_write(apply_writes(gpu, ws.drop_last(), src), ws.last(), src)
    }
}

/// Each write is non-empty and stays within the GPU buffer and the source.
pub open spec fn writes_in_bounds(ws: Seq<GpuWrite>, gpu_len: nat, src_len: nat) -> bool {
    forall|k: int|
        0 <= k < ws.len() ==> {
            &&& ws[k].len > 0
            &&& ws[k].dst + ws[k].len <= gpu_len
            &&& ws[k].src + ws[k].len <= src_len
        }
}

/// The writes carry `data` in order, one write or two; each later write goes
/// at `next_dst` for the GPU element that follows the earlier one.
pub open spec fn writes_carry<V>(ws: Seq<GpuWrite>, src: Seq<V>, data: Seq<V>) -> bool {
    &&& ws.len() <= 2
    &&& ws.len() == 0 <==> data.len() == 0
    &&& ws.len() == 1 ==> write_data(ws[0], src) == data
    &&& ws.len() == 2 ==> write_data(ws[0], src) + write_data(ws[1], src) == data
}

/// Distance from `from` forward to `i` on a ring of `cap` positions.
pub open spec fn ring_dist(from: int, i: int, cap: int) -> int {
    if i >= from {
        i - from
    } else {
        i + cap - from
    }
}

/// Contents of a freshly allocated GPU buffer: unknown.
pub open spec fn wiped<V>(len: nat) -> Seq<V> {
    Seq::new(len, |i: int| vstd::pervasive::arbitrary::<V>())
}

/// The non-empty ranges `(start, count)` that cover the occupied GPU
/// elements from `tail` up to `head`, wrapping at `cap`.
pub open spec fn draw_spec(tail: nat, head: nat, cap: nat) -> Seq<(usize, usize)> {
    if tail <= head {
        if head > tail {
            seq![(tail as usize, (head - tail) as usize)]
        } else {
            seq![]
        }
    } else {
        (if cap > tail {
            seq![(tail as usize, (cap - tail) as usize)]
        } else {
            seq![]
        }) + (if head > 0 {
            seq![(0usize, head as usize)]
        } else {
            seq![]
        })
    }
}

/// Sum of the counts of the ranges.
pub open spec fn total(rs: Seq<(usize, usize)>) -> nat
    decreases rs.len(),
{
    if rs.len() == 0 {
        0
    } else {
        total(rs.drop_last()) + rs.last().1 as nat
    }
}

/// A queue of vertices kept on the host and mirrored in a GPU buffer of
/// `capacity` elements, read from `tail` and written at `head`. `pushed` and
/// `popped` count the pushes and pops since the last reconciliation.
pub struct PointRenderDeque<V> {
    capacity: usize,
    tail: usize,
    head: usize,
    buffer: HostRing<V>,
    popped: usize,
    pushed: usize,
    gpu: Ghost<Seq<V>>,
}

impl<V: Copy> PointRenderDeque<V> {
    pub closed spec fn spec_capacity(&self) -> nat {
        self.capacity as nat
    }

    pub closed spec fn spec_tail(&self) -> nat {
        self.tail as nat
    }

    pub closed spec fn spec_head(&self) -> nat {
        self.head as nat
    }

    pub closed spec fn spec_pushed(&self) -> nat {
        self.pushed as nat
    }

    pub closed spec fn spec_popped(&self) -> nat {
        self.popped as nat
    }

    /// What the GPU buffer holds, element by element.
    pub closed spec fn gpu_view(&self) -> Seq<V> {
        self.gpu@
    }

    /// The host ring.
    pub closed spec fn ring(&self) -> HostRing<V> {
        self.buffer
    }

    /// The queued elements, oldest first.
    pub open spec fn view(&self) -> Seq<V> {
        self.ring()@
    }

    /// Pushed elements still in the queue: the pushes beyond the queue's
    /// length were popped again before they were ever uploaded.
    pub open spec fn new_pushed(&self) -> nat {
        if self.spec_pushed() < self@.len() {
            self.spec_pushed()
        } else {
            self@.len()
        }
    }

    /// Pops of uploaded elements: each push cancelled above cancels one pop.
    pub open spec fn net_popped(&self) -> int {
        self.spec_popped() - (self.spec_pushed() - self.new_pushed())
    }

    /// Number of elements the GPU range from `tail` to `head` covers.
    pub open spec fn occupied(&self) -> int {
        self@.len() + self.spec_popped() - self.spec_pushed()
    }

    /// No pushes or pops wait to be reconciled.
    pub open spec fn synced(&self) -> bool {
        self.spec_pushed() == 0 && self.spec_popped() == 0
    }

    pub closed spec fn wf(&self) -> bool {
        &&& self.buffer.wf()
        &&& self.gpu@.len() == self.capacity
        &&& self.occupied() >= 0
        &&& self.capacity == 0 ==> {
            &&& self.tail == 0
            &&& self.head == 0
            &&& self.occupied() == 0
        }
        &&& self.capacity > 0 ==> {
            &&& is_pow2(self.capacity as nat)
            &&& self.capacity <= MAX_SLOTS
            &&& self.tail < self.capacity
            &&& self.head < self.capacity
            &&& self.occupied() < self.capacity
            &&& self.head == (self.tail + self.occupied()) % (self.capacity as int)
            &&& forall|i: int|
                0 <= i < self.buffer@.len() - self.new_pushed() ==> self.gpu@[(self.tail
                    + self.net_popped() + i) % (self.capacity as int)] == #[trigger] self.buffer@[i]
        }
    }

    /// The facts about the ring and the cursors that every valid queue has.
    pub proof fn lemma_cursors(&self)
        requires
            self.wf(),
        ensures
            self.ring().wf(),
            self.gpu_view().len() == self.spec_capacity(),
            0 <= self.occupied(),
            self.spec_capacity() == 0 ==> self.spec_tail() == 0 && self.spec_head() == 0
                && self.occupied() == 0,
            self.spec_capacity() > 0 ==> {
                &&& is_pow2(self.spec_capacity())
                &&& self.spec_tail() < self.spec_capacity()
                &&& self.spec_head() < self.spec_capacity()
                &&& self.occupied() < self.spec_capacity()
                &&& self.spec_head() as int == (self.spec_tail() + self.occupied()) % (
                self.spec_capacity() as int)
            },
    {
    }

    fn from_ring(buffer: HostRing<V>) -> (r: Self)
        requires
            buffer.wf(),
            buffer@.len() == 0,
        ensures
            r.wf(),
            r.ring() == buffer,
            r.spec_capacity() == 0,
            r.spec_tail() == 0,
            r.spec_head() == 0,
            r.synced(),
    {
        PointRenderDeque {
            capacity: 0,
            tail: 0,
            head: 0,
            buffer,
            popped: 0,
            pushed: 0,
            gpu: Ghost(Seq::empty()),
        }
    }

    /// An empty queue with no GPU storage yet; its ring starts with
    /// `STARTING_SLOTS` slots.
    pub fn new() -> (r: Self)
        ensures
            r.wf(),
            r@ == Seq::<V>::empty(),
            r.spec_capacity() == 0,
            r.spec_tail() == 0,
            r.spec_head() == 0,
            r.ring().spec_slots() == crate::ring::STARTING_SLOTS,
            r.synced(),
    {
        Self::from_ring(HostRing::new())
    }

    /// An empty queue with no GPU storage yet, whose ring starts with the
    /// slots that `HostRing::with_slots(min_slots)` gives.
    pub fn with_capacity(min_slots: usize) -> (r: Self)
        ensures
            r.wf(),
            r@ == Seq::<V>::empty(),
            r.spec_capacity() == 0,
            r.spec_tail() == 0,
            r.spec_head() == 0,
            r.ring().spec_slots() >= min_slots || r.ring().spec_slots() * 2 > MAX_LEN,
            r.ring().spec_slots() == 1 || r.ring().spec_slots() < 2 * min_slots,
            r.synced(),
    {
        Self::from_ring(HostRing::with_slots(min_slots))
    }

    /// Appends `v` and counts the push, unless the queue already holds
    /// `MAX_LEN` elements, in which case the push is dropped and nothing
    /// changes.
    pub fn push_back(&mut self, v: V)
        requires
            old(self).wf(),
            old(self).spec_pushed() < usize::MAX,
        ensures
            final(self).wf(),
            old(self)@.len() >= MAX_LEN ==> *final(self) == *old(self),
            old(self)@.len() < MAX_LEN ==> {
                &&& final(self)@ == old(self)@.push(v)
                &&& final(self).spec_pushed() == old(self).spec_pushed() + 1
                &&& final(self).spec_popped() == old(self).spec_popped()
            },
            final(self).ring().spec_slots() == if old(self)@.len() < MAX_LEN && old(self)@.len() + 1
                == old(self).ring().spec_slots() {
                2 * old(self).ring().spec_slots()
            } else {
                old(self).ring().spec_slots()
            },
            final(self).spec_capacity() == old(self).spec_capacity(),
            final(self).spec_tail() == old(self).spec_tail(),
            final(self).spec_head() == old(self).spec_head(),
            final(self).gpu_view() == old(self).gpu_view(),
    {
        if self.buffer.len() >= MAX_LEN {
            return;
        }
        let ghost before = self.buffer@;
        self.pushed = self.pushed + 1;
        self.buffer.push_back(v);
        proof {
            assert forall|i: int| 0 <= i < before.len() implies self.buffer@[i] == before[i] by {}
        }
    }

    /// Removes and returns the oldest element and counts the pop.
    pub fn pop_front(&mut self) -> (r: V)
        requires
            old(self).wf(),
            old(self)@.len() > 0,
            old(self).spec_popped() < usize::MAX,
        ensures
            final(self).wf(),
            r == old(self)@[0],
            final(self)@ == old(self)@.drop_first(),
            final(self).spec_popped() == old(self).spec_popped() + 1,
            final(self).spec_pushed() == old(self).spec_pushed(),
            final(self).ring().spec_slots() == old(self).ring().spec_slots(),
            final(self).spec_capacity() == old(self).spec_capacity(),
            final(self).spec_tail() == old(self).spec_tail(),
            final(self).spec_head() == old(self).spec_head(),
            final(self).gpu_view() == old(self).gpu_view(),
    {
        let ghost before = self.buffer@;
        self.popped = self.popped + 1;
        let r = self.buffer.pop_front();
        proof {
            if self.capacity > 0 && self.pushed < before.len() {
                assert forall|i: int| 0 <= i < self.buffer@.len() - self.new_pushed() implies self.gpu@[(
                self.tail + self.net_popped() + i) % (self.capacity as int)]
                    == #[trigger] self.buffer@[i] by {
                    assert(self.buffer@[i] == before[i + 1]);
                }
            }
        }
        r
    }

    /// The oldest element, if any.
    pub fn front(&self) -> (r: Option<&V>)
        requires
            self.wf(),
        ensures
            match r {
                None => self@.len() == 0,
                Some(x) => self@.len() > 0 && *x == self@[0],
            },
    {
        self.buffer.front()
    }

    /// The host ring, whose storage the writes of a `SyncPlan` may read from.
    pub fn get_buffer(&self) -> (r: &HostRing<V>)
        requires
            self.wf(),
        ensures
            *r == self.ring(),
            r.wf(),
    {
        &self.buffer
    }

    /// Reconciles the GPU buffer with the host ring and returns what the GPU
    /// must do for that.
    ///
    /// When the ring has more slots than the GPU buffer has elements, the
    /// buffer is reallocated to that many elements and the whole queue is
    /// uploaded from element 0, one write per run of the ring's storage.
    ///
    /// Otherwise, after any pushes or pops, the pushes of elements that were
    /// popped again are dropped together with as many pops; the tail moves
    /// past the remaining pops, and the remaining pushed elements are written
    /// at `head`, in a second write from element 0 where they pass the end
    /// of the buffer. They are read from the ring's storage where they lie in
    /// one run of it, else from a temporary copy.
    ///
    /// Afterwards the occupied GPU range from `tail` holds exactly the queue.
    /// Reallocation to the ring's slot count and upload of the whole queue.
    fn sync_grow(&mut self) -> (r: SyncPlan<V>)
        requires
            old(self).wf(),
            old(self).ring().spec_slots() > old(self).spec_capacity(),
        ensures
            final(self).wf(),
            final(self).synced(),
            final(self).ring() == old(self).ring(),
            writes_in_bounds(
                r.writes@,
                final(self).spec_capacity(),
                plan_source(r, old(self).ring().spec_storage()).len(),
            ),
            r.allocate == Some(old(self).ring().spec_slots() as usize),
            r.source is Ring,
            final(self).spec_capacity() == old(self).ring().spec_slots(),
            final(self).spec_tail() == 0,
            final(self).spec_head() == old(self)@.len(),
            writes_carry(r.writes@, old(self).ring().spec_storage(), old(self)@),
            r.writes@.len() > 0 ==> r.writes@[0].dst == 0,
            r.writes@.len() == 2 ==> r.writes@[1].dst == r.writes@[0].len,
            final(self).gpu_view() == apply_writes(
                wiped(final(self).spec_capacity()),
                r.writes@,
                old(self).ring().spec_storage(),
            ),
    {
        let n = self.buffer.len();
        let new_cap = self.buffer.slots();
        let ghost storage = self.buffer.spec_storage();
        proof {
            self.buffer.lemma_position_all();
        }
        let ghost base = wiped::<V>(new_cap as nat);
        let start = self.buffer.start();
        let first = if n <= new_cap - start { n } else { new_cap - start };
        let mut writes: Vec<GpuWrite> = Vec::new();
        if n > 0 {
            writes.push(GpuWrite { dst: 0, src: start, len: first });
        }
        if first < n {
            writes.push(GpuWrite { dst: first, src: 0, len: n - first });
        }
        proof {
            reveal_with_fuel(apply_writes, 3);
            let q = self.buffer@;
            if n > 0 {
                assert forall|i: int| 0 <= i < first implies storage[start + i] == q[i] by {
                    lemma_wrap(start + i, new_cap as int);
                }
                assert(write_data(writes@[0], storage) =~= q.subrange(0, first as int));
            }
            if first < n {
                assert forall|i: int| first <= i < n implies storage[i - first] == q[i] by {
                    lemma_wrap(start + i, new_cap as int);
                }
                assert(write_data(writes@[1], storage) =~= q.subrange(first as int, n as int));
                assert(q =~= q.subrange(0, first as int) + q.subrange(first as int, n as int));
            } else if n > 0 {
                assert(q =~= q.subrange(0, first as int));
            }
        }
        self.capacity = new_cap;
        self.tail = 0;
        self.head = n;
        self.gpu = Ghost(apply_writes(base, writes@, storage));
        self.pushed = 0;
        self.popped = 0;
        proof {
            reveal_with_fuel(apply_writes, 3);
            lemma_wrap(n as int, new_cap as int);
            assert forall|i: int| 0 <= i < n implies self.gpu@[(self.tail + self.net_popped()
                + i) % (self.capacity as int)] == #[trigger] self.buffer@[i] by {
                lemma_wrap(i, new_cap as int);
                lemma_wrap(start + i, new_cap as int);
            }
            self.lemma_draw_covers_queue();
        }
        SyncPlan { allocate: Some(new_cap), source: UploadSource::Ring, writes }
    }

    /// Upload of what changed since the last reconciliation, into a buffer
    /// that is large enough.
    #[verifier::rlimit(60)]
    fn sync_delta(&mut self) -> (r: SyncPlan<V>)
        requires
            old(self).wf(),
            old(self).ring().spec_slots() <= old(self).spec_capacity(),
        ensures
            final(self).wf(),
            final(self).synced(),
            final(self).ring() == old(self).ring(),
            ({
                let cap = old(self).spec_capacity() as int;
                let p = old(self).new_pushed() as int;
                let n = old(self)@.len() as int;
                let src = plan_source(r, old(self).ring().spec_storage());
                &&& writes_in_bounds(r.writes@, final(self).spec_capacity(), src.len())
                &&& r.allocate == None::<usize>
                &&& final(self).spec_capacity() == old(self).spec_capacity()
                &&& final(self).spec_tail() as int == (old(self).spec_tail() + old(
                    self,
                ).net_popped()) % cap
                &&& final(self).spec_head() as int == (old(self).spec_head() + p) % cap
                &&& writes_carry(r.writes@, src, old(self)@.subrange(n - p, n))
                &&& r.writes@.len() > 0 ==> {
                    &&& r.writes@[0].dst == old(self).spec_head()
                    &&& r.writes@[0].len as int == if p < cap - old(self).spec_head() {
                        p
                    } else {
                        cap - old(self).spec_head()
                    }
                }
                &&& r.writes@.len() == 2 ==> r.writes@[1].dst == 0
                &&& final(self).gpu_view() == apply_writes(old(self).gpu_view(), r.writes@, src)
            }),
    {
        let n = self.buffer.len();
        let new_cap = self.buffer.slots();
        let ghost storage = self.buffer.spec_storage();
        proof {
            self.buffer.lemma_position_all();
        }
        let cap = self.capacity;
        // Pushes of elements that were popped again cancel as many pops.
        let pushed = if self.pushed < n { self.pushed } else { n };
        let popped = self.popped - (self.pushed - pushed);
        let ghost tail0 = self.tail as int;
        let ghost head0 = self.head as int;
        let ghost gpu0 = self.gpu@;
        let ghost occ = self.occupied();
        let ghost q = self.buffer@;
        proof {
            lemma_wrap(tail0 + popped, cap as int);
            lemma_wrap(head0 + pushed, cap as int);
            lemma_wrap(tail0 + occ, cap as int);
            // The capacity is a power of two, so masking wraps the cursors.
            lemma_mask_is_mod((self.tail + popped) as usize, cap);
            lemma_mask_is_mod((self.head + pushed) as usize, cap);
        }
        let new_tail = (self.tail + popped) & (cap - 1);
        let new_head = (self.head + pushed) & (cap - 1);
        let from = n - pushed;
        let start = self.buffer.start();
        proof {
            lemma_wrap(start + from, new_cap as int);
        }
        let s = (start + from) % new_cap;
        let (source, src0, Ghost(src)) = if pushed <= new_cap - s {
            let src0 = if pushed == 0 { 0 } else { s };
            proof {
                if pushed > 0 {
                    self.buffer.lemma_run(from as int, pushed as int);
                }
                assert(q.subrange(from as int, n as int) =~= storage.subrange(
                    src0 as int,
                    src0 + pushed,
                ));
            }
            (UploadSource::Ring, src0, Ghost(storage))
        } else {
            let mut copy: Vec<V> = Vec::new();
            let mut k: usize = 0;
            while k < pushed
                invariant
                    self.buffer.wf(),
                    q == self.buffer@,
                    from + pushed == n == q.len(),
                    k <= pushed,
                    copy@ =~= q.subrange(from as int, from + k),
                decreases pushed - k,
            {
                copy.push(*self.buffer.get(from + k));
                k = k + 1;
            }
            let ghost copied = copy@;
            assert(copied.subrange(0, pushed as int) =~= q.subrange(from as int, n as int));
            (UploadSource::Copied(copy), 0, Ghost(copied))
        };
        proof {
            assert(src == source_view(source, storage));
        }
        let writes = plan_split::<V>(src0, pushed, self.head, cap, Ghost(gpu0), Ghost(src));
        self.tail = new_tail;
        self.head = new_head;
        self.gpu = Ghost(apply_writes(gpu0, writes@, src));
        self.pushed = 0;
        self.popped = 0;
        proof {
            assert(popped == old(self).net_popped());
            assert(pushed == old(self).new_pushed());
            lemma_wrap(new_tail + n, cap as int);
            assert forall|i: int| 0 <= i < n implies self.gpu@[(self.tail + self.net_popped()
                + i) % (self.capacity as int)] == #[trigger] self.buffer@[i] by {
                lemma_wrap(new_tail + i, cap as int);
                let pos = (new_tail + i) % (cap as int);
                if i < n - pushed {
                    lemma_wrap(tail0 + popped + i, cap as int);
                    assert(ring_dist(head0, pos, cap as int) >= pushed);
                } else {
                    assert(ring_dist(head0, pos, cap as int) == i - (n - pushed));
                    assert(src.subrange(src0 as int, src0 + pushed)[i - from] == q.subrange(
                        from as int,
                        n as int,
                    )[i - from]);
                }
            }
            self.lemma_draw_covers_queue();
        }
        SyncPlan { allocate: None, source, writes }
    }

    pub fn buffer(&mut self) -> (r: SyncPlan<V>)
        requires
            old(self).wf(),
        ensures
            final(self).wf(),
            final(self).synced(),
            final(self).ring() == old(self).ring(),
            writes_in_bounds(
                r.writes@,
                final(self).spec_capacity(),
                plan_source(r, old(self).ring().spec_storage()).len(),
            ),
            old(self).ring().spec_slots() > old(self).spec_capacity() ==> {
                &&& r.allocate == Some(old(self).ring().spec_slots() as usize)
                &&& r.source is Ring
                &&& final(self).spec_capacity() == old(self).ring().spec_slots()
                &&& final(self).spec_tail() == 0
                &&& final(self).spec_head() == old(self)@.len()
                &&& writes_carry(r.writes@, old(self).ring().spec_storage(), old(self)@)
                &&& r.writes@.len() > 0 ==> r.writes@[0].dst == 0
                &&& r.writes@.len() == 2 ==> r.writes@[1].dst == r.writes@[0].len
                &&& final(self).gpu_view() == apply_writes(
                    wiped(final(self).spec_capacity()),
                    r.writes@,
                    old(self).ring().spec_storage(),
                )
            },
            old(self).ring().spec_slots() <= old(self).spec_capacity() ==> {
                let cap = old(self).spec_capacity() as int;
                let p = old(self).new_pushed() as int;
                let n = old(self)@.len() as int;
                let src = plan_source(r, old(self).ring().spec_storage());
                &&& r.allocate == None::<usize>
                &&& final(self).spec_capacity() == old(self).spec_capacity()
                &&& final(self).spec_tail() as int == (old(self).spec_tail() + old(
                    self,
                ).net_popped()) % cap
                &&& final(self).spec_head() as int == (old(self).spec_head() + p) % cap
                &&& writes_carry(r.writes@, src, old(self)@.subrange(n - p, n))
                &&& r.writes@.len() > 0 ==> {
                    &&& r.writes@[0].dst == old(self).spec_head()
                    &&& r.writes@[0].len as int == if p < cap - old(self).spec_head() {
                        p
                    } else {
                        cap - old(self).spec_head()
                    }
                }
                &&& r.writes@.len() == 2 ==> r.writes@[1].dst == 0
                &&& final(self).gpu_view() == apply_writes(old(self).gpu_view(), r.writes@, src)
            },
            old(self).ring().spec_slots() <= old(self).spec_capacity() && old(self).new_pushed()
                == 0 && old(self).net_popped() == 0 ==> {
                &&& r.writes@.len() == 0
                &&& final(self).spec_tail() == old(self).spec_tail()
                &&& final(self).spec_head() == old(self).spec_head()
            },
            final(self).spec_capacity() >= old(self).spec_capacity(),
            is_pow2(final(self).spec_capacity()),
            final(self)@.len() < final(self).spec_capacity(),
            final(self).spec_tail() < final(self).spec_capacity(),
            final(self).spec_head() < final(self).spec_capacity(),
            (final(self).spec_head() + final(self).spec_capacity() - final(self).spec_tail()) as int
                % (final(self).spec_capacity() as int) == final(self)@.len(),
            total(
                draw_spec(
                    final(self).spec_tail(),
                    final(self).spec_head(),
                    final(self).spec_capacity(),
                ),
            ) == final(self)@.len(),
            forall|i: int|
                0 <= i < final(self)@.len() ==> final(self).gpu_view()[(final(self).spec_tail()
                    + i) % (final(self).spec_capacity() as int)] == #[trigger] final(self)@[i],
    {
        let plan = if self.buffer.slots() > self.capacity {
            self.sync_grow()
        } else {
            self.sync_delta()
        };
        proof {
            self.lemma_draw_covers_queue();
            if old(self).spec_capacity() > 0 {
                lemma_wrap(old(self).spec_tail() as int, old(self).spec_capacity() as int);
                lemma_wrap(old(self).spec_head() as int, old(self).spec_capacity() as int);
            }
        }
        plan
    }

    pub fn len(&self) -> (r: usize)
        requires
            self.wf(),
        ensures
            r == self@.len(),
    {
        self.buffer.len()
    }

    /// Elements the GPU buffer has room for (0 before the first upload).
    pub fn capacity(&self) -> (r: usize)
        ensures
            r == self.spec_capacity(),
    {
        self.capacity
    }

    /// GPU element the occupied range starts at.
    pub fn tail(&self) -> (r: usize)
        ensures
            r == self.spec_tail(),
    {
        self.tail
    }

    /// GPU element the next upload goes to.
    pub fn head(&self) -> (r: usize)
        ensures
            r == self.spec_head(),
    {
        self.head
    }

    /// Pushes counted since the last reconciliation.
    pub fn pending_pushed(&self) -> (r: usize)
        ensures
            r == self.spec_pushed(),
    {
        self.pushed
    }

    /// Pops counted since the last reconciliation.
    pub fn pending_popped(&self) -> (r: usize)
        ensures
            r == self.spec_popped(),
    {
        self.popped
    }

    /// Starts a draw over the occupied GPU range.
    pub fn bind<'a>(&'a self) -> (r: PointRenderDequeBinding<'a, V>)
        requires
            self.wf(),
        ensures
            r.deque() == *self,
    {
        PointRenderDequeBinding { deque: self }
    }

    /// Once reconciled, the draw ranges cover exactly as many elements as the
    /// queue holds, and the cursors lie within the buffer.
    pub proof fn lemma_draw_covers_queue(&self)
        requires
            self.wf(),
            self.synced(),
        ensures
            total(draw_spec(self.spec_tail(), self.spec_head(), self.spec_capacity()))
                == self@.len(),
            self.spec_capacity() > 0 ==> (self.spec_head() + self.spec_capacity()
                - self.spec_tail()) as int % (self.spec_capacity() as int) == self@.len(),
    {
        let t = self.tail as nat;
        let h = self.head as nat;
        let c = self.capacity as nat;
        let rs = draw_spec(t, h, c);
        reveal_with_fuel(total, 3);
        assert(self.occupied() == self@.len());
        if c > 0 {
            lemma_wrap(self.tail + self.occupied(), c as int);
            lemma_wrap(h + c - t, c as int);
        }
        if t <= h {
            if h > t {
                assert(rs.drop_last() =~= Seq::<(usize, usize)>::empty());
            }
        } else {
            let a: Seq<(usize, usize)> = seq![(t as usize, (c - t) as usize)];
            if h > 0 {
                assert(rs.drop_last() =~= a);
                assert(a.drop_last() =~= Seq::<(usize, usize)>::empty());
            } else {
                assert(rs =~= a);
                assert(a.drop_last() =~= Seq::<(usize, usize)>::empty());
            }
        }
    }

    /// Once reconciled with nothing queued, the cursors coincide and a draw
    /// issues no ranges.
    pub proof fn lemma_empty_draws_nothing(&self)
        requires
            self.wf(),
            self.synced(),
            self@.len() == 0,
        ensures
            self.spec_tail() == self.spec_head(),
            draw_spec(self.spec_tail(), self.spec_head(), self.spec_capacity()).len() == 0,
    {
        if self.capacity > 0 {
            lemma_wrap(self.tail as int, self.capacity as int);
        }
    }
}

/// A draw in progress over a queue's occupied GPU range.
pub struct PointRenderDequeBinding<'a, V> {
    deque: &'a PointRenderDeque<V>,
}

impl<'a, V: Copy> PointRenderDequeBinding<'a, V> {
    pub closed spec fn deque(&self) -> PointRenderDeque<V> {
        *self.deque
    }

    /// The ranges `(start, count)` to draw, in order: one from `tail` to
    /// `head` when the occupied range does not wrap, else one from `tail` to
    /// the end of the buffer and one from element 0 to `head`. Empty ranges
    /// are left out.
    pub fn draw(&self) -> (r: Vec<(usize, usize)>)
        requires
            self.deque().wf(),
        ensures
            r@ == draw_spec(
                self.deque().spec_tail(),
                self.deque().spec_head(),
                self.deque().spec_capacity(),
            ),
    {
        let tail = self.deque.tail;
        let head = self.deque.head;
        let mut r: Vec<(usize, usize)> = Vec::new();
        if tail <= head {
            let points = head - tail;
            if points > 0 {
                r.push((tail, points));
            }
        } else {
            let capacity = self.deque.capacity;
            let points = capacity - tail;
            if points > 0 {
                r.push((tail, points));
            }
            let points = head;
            if points > 0 {
                r.push((0, points));
            }
        }
        assert(r@ =~= draw_spec(tail as nat, head as nat, self.deque.capacity as nat));
        r
    }
}

/// Plans the upload of `count` source elements from `src0` on to the GPU
/// elements from `dst` on: one write, or two where they pass the end of the
/// buffer, the second from element 0.
fn plan_split<V>(
    src0: usize,
    count: usize,
    dst: usize,
    cap: usize,
    Ghost(base): Ghost<Seq<V>>,
    Ghost(src): Ghost<Seq<V>>,
) -> (r: Vec<GpuWrite>)
    requires
        src0 + count <= src.len(),
        src0 + count <= MAX_SLOTS,
        count <= cap,
        dst < cap,
        base.len() == cap,
    ensures
        writes_in_bounds(r@, cap as nat, src.len()),
        writes_carry(r@, src, src.subrange(src0 as int, src0 + count)),
        r@.len() > 0 ==> r@[0].dst == dst && r@[0].len as int == (if count < cap - dst {
            count as int
        } else {
            cap - dst
        }),
        r@.len() == 2 ==> r@[1].dst == 0,
        apply_writes(base, r@, src).len() == cap,
        forall|i: int|
            0 <= i < cap ==> #[trigger] apply_writes(base, r@, src)[i] == if ring_dist(
                dst as int,
                i,
                cap as int,
            ) < count {
                src[src0 + ring_dist(dst as int, i, cap as int)]
            } else {
                base[i]
            },
{
    let mut writes: Vec<GpuWrite> = Vec::new();
    let first = if count < cap - dst { count } else { cap - dst };
    if count > 0 {
        writes.push(GpuWrite { dst, src: src0, len: first });
    }
    if first < count {
        writes.push(GpuWrite { dst: 0, src: src0 + first, len: count - first });
    }
    proof {
        reveal_with_fuel(apply_writes, 3);
        let data = src.subrange(src0 as int, src0 + count);
        if count > 0 && first < count {
            assert(data =~= write_data(writes@[0], src) + write_data(writes@[1], src));
            assert(writes@.drop_last().drop_last() =~= Seq::<GpuWrite>::empty());
        } else if count > 0 {
            assert(data =~= write_data(writes@[0], src));
            assert(writes@.drop_last() =~= Seq::<GpuWrite>::empty());
        }
    }
    writes
}

} // verus!
