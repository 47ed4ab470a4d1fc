//! The host-side ring buffer: a queue of elements in a power-of-two number of
//! slots, one of which always stays free.
use vstd::prelude::*;

use crate::arith::{is_pow2, lemma_pow2_double, lemma_wrap};

verus! {

/// Most elements a ring holds; pushes beyond it are dropped.
pub const MAX_LEN: usize = 1000000;

/// Slots of a ring made by `HostRing::new`.
pub const STARTING_SLOTS: usize = 1024;

/// Bound on the number of slots of any ring.
pub const MAX_SLOTS: usize = 2097152;

/// A ring buffer over `slots()` storage positions. The element at logical
/// index `i` is stored at position `(start + i) % slots()`. One slot stays
/// free, so `len() < slots()` always.
pub struct HostRing<V> {
    storage: Vec<V>,
    cap: usize,
    start: usize,
    len: usize,
}

impl<V: Copy> HostRing<V> {
    /// Number of slots as a spec value.
    pub closed spec fn spec_slots(&self) -> nat {
        self.cap as nat
    }

    /// First occupied storage position.
    pub closed spec fn spec_start(&self) -> nat {
        self.start as nat
    }

    /// The storage positions, once allocated (empty before the first push).
    pub closed spec fn spec_storage(&self) -> Seq<V> {
        self.storage@
    }

    pub closed spec fn wf(&self) -> bool {
        &&& is_pow2(self.cap as nat)
        &&& self.cap <= MAX_SLOTS
        &&& self.start < self.cap
        &&& self.len < self.cap
        &&& self.len <= MAX_LEN
        &&& (self.len > 0 ==> self.storage@.len() == self.cap)
        &&& (self.storage@.len() == 0 || self.storage@.len() == self.cap)
    }

    /// The queued elements, oldest first.
    pub closed spec fn view(&self) -> Seq<V> {
        Seq::new(self.len as nat, |i: int| self.storage@[(self.start + i) % (self.cap as int)])
    }

    /// Logical index `i` lives at storage position `(start + i) % slots`.
    pub proof fn lemma_position(&self, i: int)
        requires
            self.wf(),
            0 <= i < self@.len(),
        ensures
            self.spec_storage().len() == self.spec_slots(),
            self@[i] == self.spec_storage()[(self.spec_start() + i) % (self.spec_slots() as int)],
            0 <= (self.spec_start() + i) % (self.spec_slots() as int) < self.spec_slots(),
    {
        lemma_wrap(self.start + i, self.cap as int);
    }

    /// Every element sits at its storage position.
    pub proof fn lemma_position_all(&self)
        requires
            self.wf(),
        ensures
            forall|i: int|
                0 <= i < self@.len() ==> #[trigger] self@[i] == self.spec_storage()[(
                self.spec_start() + i) % (self.spec_slots() as int)],
            self@.len() > 0 ==> self.spec_storage().len() == self.spec_slots(),
    {
    }

    /// Elements that do not pass the end of the storage lie there in order.
    pub proof fn lemma_run(&self, from: int, count: int)
        requires
            self.wf(),
            0 <= from,
            0 < count,
            from + count <= self@.len(),
            (self.spec_start() + from) % (self.spec_slots() as int) + count <= self.spec_slots(),
        ensures
            ({
                let s = (self.spec_start() + from) % (self.spec_slots() as int);
                self@.subrange(from, from + count) == self.spec_storage().subrange(s, s + count)
            }),
    {
        let s = (self.start + from) % (self.cap as int);
        lemma_wrap(self.start + from, self.cap as int);
        assert forall|k: int| 0 <= k < count implies #[trigger] self.storage@[s + k] == self@[from
            + k] by {
            lemma_wrap(self.start + from + k, self.cap as int);
        }
        assert(self.storage@.len() == self.cap);
        assert forall|k: int| 0 <= k < count implies #[trigger] self@.subrange(from, from + count)[k]
            == self.storage@.subrange(s, s + count)[k] by {
            assert(self.storage@[s + k] == self@[from + k]);
        }
        assert(self@.subrange(from, from + count) =~= self.storage@.subrange(s, s + count));
    }

    /// An empty ring with the default number of slots.
    pub fn new() -> (r: Self)
        ensures
            r.wf(),
            r@ == Seq::<V>::empty(),
            r.spec_slots() == STARTING_SLOTS,
    {
        let r = HostRing { storage: Vec::new(), cap: STARTING_SLOTS, start: 0, len: 0 };
        proof {
            reveal_with_fuel(is_pow2, 11);
        }
        assert(r@ =~= Seq::<V>::empty());
        r
    }

    /// An empty ring whose slots are the least power of two that is at least
    /// `min_slots`, or the largest power of two not above `MAX_LEN` where that
    /// is smaller.
    pub fn with_slots(min_slots: usize) -> (r: Self)
        ensures
            r.wf(),
            r@ == Seq::<V>::empty(),
            r.spec_slots() >= min_slots || r.spec_slots() * 2 > MAX_LEN,
            r.spec_slots() == 1 || r.spec_slots() < 2 * min_slots,
    {
        let mut cap: usize = 1;
        while cap < min_slots && cap < MAX_LEN
            invariant
                is_pow2(cap as nat),
                1 <= cap <= 2 * MAX_LEN,
                cap == 1 || cap < 2 * min_slots,
            decreases 2 * MAX_LEN - cap,
        {
            proof {
                lemma_pow2_double(cap as nat);
            }
            cap = cap * 2;
        }
        let r = HostRing { storage: Vec::new(), cap, start: 0, len: 0 };
        assert(r@ =~= Seq::<V>::empty());
        r
    }

    /// Appends `v` unless the ring already holds `MAX_LEN` elements, in which
    /// case nothing changes. A ring with one free slot left doubles its slots.
    pub fn push_back(&mut self, v: V)
        requires
            old(self).wf(),
        ensures
            final(self).wf(),
            old(self)@.len() >= MAX_LEN ==> *final(self) == *old(self),
            old(self)@.len() < MAX_LEN ==> final(self)@ == old(self)@.push(v),
            final(self).spec_slots() == if old(self)@.len() < MAX_LEN && old(self)@.len() + 1
                == old(self).spec_slots() {
                2 * old(self).spec_slots()
            } else {
                old(self).spec_slots()
            },
    {
        if self.len >= MAX_LEN {
            return;
        }
        if self.storage.len() == 0 {
            let mut fresh: Vec<V> = Vec::new();
            let mut k: usize = 0;
            while k < self.cap
                invariant
                    fresh@.len() == k,
                    k <= self.cap,
                decreases self.cap - k,
            {
                fresh.push(v);
                k = k + 1;
            }
            self.storage = fresh;
            self.start = 0;
        }
        if self.len + 1 == self.cap {
            self.grow(v);
        }
        let ghost before = self@;
        let pos = (self.start + self.len) % self.cap;
        proof {
            lemma_wrap(self.start + self.len, self.cap as int);
        }
        self.storage.set(pos, v);
        self.len = self.len + 1;
        proof {
            assert forall|i: int| 0 <= i < before.len() implies self@[i] == before[i] by {
                lemma_wrap(self.start + i, self.cap as int);
            }
            assert(self@ =~= before.push(v));
        }
    }

    /// Moves the elements to a storage of twice as many slots, starting at
    /// position 0; `fill` occupies the free positions.
    fn grow(&mut self, fill: V)
        requires
            old(self).wf(),
            old(self).len + 1 == old(self).cap,
            old(self).len < MAX_LEN,
            old(self).storage@.len() == old(self).cap,
        ensures
            final(self).wf(),
            final(self)@ == old(self)@,
            final(self).cap == 2 * old(self).cap,
            final(self).len == old(self).len,
            final(self).storage@.len() == final(self).cap,
    {
        let new_cap = self.cap * 2;
        let mut fresh: Vec<V> = Vec::new();
        let mut k: usize = 0;
        while k < self.len
            invariant
                self.wf(),
                self.storage@.len() == self.cap,
                k <= self.len,
                new_cap == 2 * self.cap,
                fresh@.len() == k,
                forall|i: int| 0 <= i < k ==> fresh@[i] == self@[i],
            decreases self.len - k,
        {
            proof {
                lemma_wrap(self.start + k, self.cap as int);
            }
            fresh.push(self.storage[(self.start + k) % self.cap]);
            k = k + 1;
        }
        while k < new_cap
            invariant
                self.len <= k <= new_cap,
                fresh@.len() == k,
                forall|i: int| 0 <= i < self.len ==> fresh@[i] == self@[i],
            decreases new_cap - k,
        {
            fresh.push(fill);
            k = k + 1;
        }
        let ghost before = self@;
        proof {
            lemma_pow2_double(self.cap as nat);
        }
        self.storage = fresh;
        self.cap = new_cap;
        self.start = 0;
        proof {
            assert forall|i: int| 0 <= i < before.len() implies self@[i] == before[i] by {
                lemma_wrap(i, self.cap as int);
            }
            assert(self@ =~= before);
        }
    }

    /// Removes and returns the oldest element.
    pub fn pop_front(&mut self) -> (r: V)
        requires
            old(self).wf(),
            old(self)@.len() > 0,
        ensures
            final(self).wf(),
            r == old(self)@[0],
            final(self)@ == old(self)@.drop_first(),
            final(self).spec_slots() == old(self).spec_slots(),
    {
        let ghost before = self@;
        let ghost s0 = self.start as int;
        proof {
            lemma_wrap(s0, self.cap as int);
            lemma_wrap(s0 + 1, self.cap as int);
        }
        let r = self.storage[self.start];
        self.start = (self.start + 1) % self.cap;
        self.len = self.len - 1;
        proof {
            assert forall|i: int| 0 <= i < self@.len() implies self@[i] == before[i + 1] by {
                lemma_wrap(self.start + i, self.cap as int);
                lemma_wrap(s0 + (i + 1), self.cap as int);
            }
            assert(self@ =~= before.drop_first());
        }
        r
    }

    /// The oldest element, if any.
    pub fn front(&self) -> (r: Option<&V>)
        requires
            self.wf(),
        ensures
            match r {
                None => self@.len() == 0,
                Some(x) => self@.len() > 0 && *x == self@[0],
            },
    {
        if self.len == 0 {
            None
        } else {
            proof {
                lemma_wrap(self.start as int, self.cap as int);
            }
            Some(&self.storage[self.start])
        }
    }

    /// The queued elements as two runs of storage, oldest first: the second
    /// is empty unless the elements wrap past the last slot.
    pub fn as_slices(&self) -> (r: (&[V], &[V]))
        requires
            self.wf(),
        ensures
            r.0@ + r.1@ == self@,
            r.1@.len() > 0 ==> r.0@.len() > 0,
    {
        if self.len == 0 {
            let e: &[V] = &[];
            assert(e@ + e@ =~= self@);
            return (e, e);
        }
        let all = self.storage.as_slice();
        let end = self.start + self.len;
        if end <= self.cap {
            let a = vstd::slice::slice_subrange(all, self.start, end);
            let b = vstd::slice::slice_subrange(all, 0, 0);
            proof {
                assert forall|i: int| 0 <= i < self.len implies a@[i] == self@[i] by {
                    lemma_wrap(self.start + i, self.cap as int);
                }
                assert(a@ + b@ =~= self@);
            }
            (a, b)
        } else {
            let a = vstd::slice::slice_subrange(all, self.start, self.cap);
            let b = vstd::slice::slice_subrange(all, 0, end - self.cap);
            proof {
                assert forall|i: int| 0 <= i < self.len implies (a@ + b@)[i] == self@[i] by {
                    lemma_wrap(self.start + i, self.cap as int);
                }
                assert(a@ + b@ =~= self@);
            }
            (a, b)
        }
    }

    /// The element at logical index `i`.
    pub fn get(&self, i: usize) -> (r: &V)
        requires
            self.wf(),
            i < self@.len(),
        ensures
            *r == self@[i as int],
    {
        proof {
            lemma_wrap(self.start + i, self.cap as int);
        }
        &self.storage[(self.start + i) % self.cap]
    }

    pub fn len(&self) -> (r: usize)
        requires
            self.wf(),
        ensures
            r == self@.len(),
    {
        self.len
    }

    /// Number of storage slots; the ring holds at most one fewer elements.
    pub fn slots(&self) -> (r: usize)
        requires
            self.wf(),
        ensures
            r == self.spec_slots(),
            is_pow2(r as nat),
            self@.len() < r,
            r <= MAX_SLOTS,
    {
        self.cap
    }

    /// Storage position of the oldest element.
    pub fn start(&self) -> (r: usize)
        requires
            self.wf(),
        ensures
            r == self.spec_start(),
            r < self.spec_slots(),
    {
        self.start
    }

    /// The storage positions, for uploads that copy straight out of them.
    pub fn storage(&self) -> (r: &[V])
        requires
            self.wf(),
        ensures
            r@ == self.spec_storage(),
    {
        self.storage.as_slice()
    }
}

} // verus!
