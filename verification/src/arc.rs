//! The Shared Box: a handle one word wide, shared ownership through a manual
//! strong count, and no weak references.
//!
//! Every allocation is a [`Header`]: the strong count followed by the
//! payload.  The allocations live in a [`Heap`], and a handle ([`Arc`]) is
//! exactly the address of its allocation.  Handles are duplicated by
//! [`Arc::clone`], which raises the count, and consumed by [`Arc::drop`],
//! which lowers it; the decrement that observes the count reaching zero
//! frees the allocation, payload and all, exactly once.
//!
//! A handle's owner is responsible for not retaining it once the allocation
//! it refers to has been freed: every operation here requires the referenced
//! allocation to be live, so a use after the final drop is a contract
//! violation at the call site, not a state this module can reach on its own.

use vstd::prelude::*;

verus! {

use vstd::pervasive::unreached;

/// The allocation header: the control block that leads every allocation,
/// holding the strong count, with the payload stored directly behind it in
/// the same allocation.
pub struct Header<T> {
    /// The live-reference count.  It starts at 1 when the allocation is
    /// created, rises by 1 on every clone, and falls by 1 on every drop;
    /// the drop that takes it to 0 frees the allocation.
    pub count: usize,
    /// The payload.
    pub value: T,
}

/// Every live allocation in `s` is held by at least one handle: no count
/// rests at zero, because the decrement that reaches zero frees the
/// allocation in the same step.
pub open spec fn counts_wf<T>(s: Seq<Option<Header<T>>>) -> bool {
    forall|i: int|
        0 <= i < s.len() && s[i] is Some ==> (#[trigger] s[i]).unwrap().count >= 1
}

/// The pool of allocations that handles refer into.  Slot `i` holds the
/// allocation at address `i`: `Some` while the allocation is live, `None`
/// once the final drop has freed it.  Addresses are never reused, so a freed
/// slot stays freed.
pub struct Heap<T> {
    slots: Vec<Option<Header<T>>>,
}

impl<T> View for Heap<T> {
    type V = Seq<Option<Header<T>>>;

    closed spec fn view(&self) -> Seq<Option<Header<T>>> {
        self.slots@
    }
}

impl<T> Heap<T> {
    /// The allocation at address `i` exists and has not been freed.
    pub open spec fn live(self, i: int) -> bool {
        0 <= i < self@.len() && self@[i] is Some
    }

    /// The strong count of the live allocation at address `i`.
    pub open spec fn count(self, i: int) -> usize {
        self@[i].unwrap().count
    }

    /// The payload of the live allocation at address `i`.
    pub open spec fn value(self, i: int) -> T {
        self@[i].unwrap().value
    }

    /// The pool's invariant: see [`counts_wf`].
    pub open spec fn wf(self) -> bool {
        counts_wf(self@)
    }

    /// An empty pool, with no allocations.
    pub fn new() -> (h: Heap<T>)
        ensures
            h.wf(),
            h@.len() == 0,
    {
        Heap { slots: Vec::new() }
    }
}

/// The Shared Box handle: a single word, the address of its allocation,
/// independent of what the payload is.  Duplicating a handle is
/// [`Arc::clone`]; a handle is consumed either by [`Arc::drop`], giving its
/// reference unit back, or by [`Arc::into_raw`], which turns the unit into a
/// bare address.
pub struct Arc {
    pub(crate) idx: usize,
}

impl Arc {
    /// The address of the allocation this handle refers to.
    pub closed spec fn idx(self) -> int {
        self.idx as int
    }

    /// Two handles over the same address are the same handle: a handle
    /// carries nothing besides its address.
    pub proof fn lemma_handle_is_its_address(h1: Arc, h2: Arc)
        requires
            h1.idx() == h2.idx(),
        ensures
            h1 == h2,
    {
    }

    /// Allocates a header and the given payload together, with the count
    /// starting at 1, and hands back the one handle to it.
    pub fn new<T>(heap: &mut Heap<T>, value: T) -> (a: Arc)
        requires
            old(heap).wf(),
        ensures
            final(heap).wf(),
            a.idx() == old(heap)@.len(),
            final(heap)@ == old(heap)@.push(Some(Header { count: 1, value })),
            final(heap).live(a.idx()),
            final(heap).count(a.idx()) == 1,
            final(heap).value(a.idx()) == value,
    {
        let k = heap.slots.len();
        heap.slots.push(Some(Header { count: 1, value }));
        proof {
            assert forall|i: int|
                0 <= i < heap@.len() && heap@[i] is Some implies (#[trigger] heap@[i]).unwrap().count
                >= 1 by {
                if i < old(heap)@.len() {
                    assert(old(heap)@[i] is Some && old(heap)@[i].unwrap().count >= 1);
                }
            }
        }
        Arc { idx: k }
    }

    /// Allocates a header and the payload type's default value together,
    /// with the count starting at 1.
    pub fn default<T: Default>(heap: &mut Heap<T>) -> (a: Arc)
        requires
            old(heap).wf(),
        ensures
            final(heap).wf(),
            a.idx() == old(heap)@.len(),
            final(heap)@.len() == old(heap)@.len() + 1,
            forall|i: int| 0 <= i < old(heap)@.len() ==> final(heap)@[i] == old(heap)@[i],
            final(heap).live(a.idx()),
            final(heap).count(a.idx()) == 1,
            T::default.ensures((), final(heap).value(a.idx())),
    {
        let v = T::default();
        Arc::new(heap, v)
    }

    /// Reads the current strong count.  The observation may be stale as soon
    /// as it is returned if other holders are cloning or dropping
    /// concurrently; only a holder that knows no other handle exists may
    /// treat it as exact.
    pub fn strong_count<T>(heap: &Heap<T>, a: &Arc) -> (n: usize)
        requires
            heap.wf(),
            heap.live(a.idx()),
        ensures
            n == heap.count(a.idx()),
            n >= 1,
    {
        match &heap.slots[a.idx] {
            Some(h) => h.count,
            None => unreached(),
        }
    }

    /// Duplicates a handle by raising the count by exactly 1.  The payload
    /// is shared, not copied.  A count already at the maximum representable
    /// value is treated as corruption and is a fatal fault, never a
    /// wrap-around, so that state is excluded here.
    pub fn clone<T>(heap: &mut Heap<T>, a: &Arc) -> (b: Arc)
        requires
            old(heap).wf(),
            old(heap).live(a.idx()),
            old(heap).count(a.idx()) < usize::MAX,
        ensures
            final(heap).wf(),
            b.idx() == a.idx(),
            final(heap)@ == old(heap)@.update(
                a.idx(),
                Some(
                    Header {
                        count: (old(heap).count(a.idx()) + 1) as usize,
                        value: old(heap).value(a.idx()),
                    },
                ),
            ),
            final(heap).live(a.idx()),
            final(heap).count(a.idx()) == old(heap).count(a.idx()) + 1,
            final(heap).value(a.idx()) == old(heap).value(a.idx()),
    {
        let j = a.idx;
        match &mut heap.slots[j] {
            Some(h) => {
                h.count = h.count + 1;
            },
            None => {},
        }
        proof {
            assert forall|i: int|
                0 <= i < heap@.len() && heap@[i] is Some implies (#[trigger] heap@[i]).unwrap().count
                >= 1 by {
                if i != a.idx() {
                    assert(old(heap)@[i] is Some && old(heap)@[i].unwrap().count >= 1);
                }
            }
        }
        Arc { idx: j }
    }

    /// Gives one reference unit back.  A count above 1 just falls by 1; the
    /// drop that observes the count reaching 0 frees the allocation, running
    /// the payload's destruction, exactly once.  The caller must not retain
    /// any copy of a handle whose allocation this call may free.
    pub fn drop<T>(heap: &mut Heap<T>, a: Arc)
        requires
            old(heap).wf(),
            old(heap).live(a.idx()),
        ensures
            final(heap).wf(),
            old(heap).count(a.idx()) == 1 ==> final(heap)@ == old(heap)@.update(a.idx(), None)
                && !final(heap).live(a.idx()),
            old(heap).count(a.idx()) > 1 ==> final(heap)@ == old(heap)@.update(
                a.idx(),
                Some(
                    Header {
                        count: (old(heap).count(a.idx()) - 1) as usize,
                        value: old(heap).value(a.idx()),
                    },
                ),
            ) && final(heap).live(a.idx()) && final(heap).count(a.idx()) == old(heap).count(a.idx())
                - 1 && final(heap).value(a.idx()) == old(heap).value(a.idx()),
    {
        let j = a.idx;
        let c = match &heap.slots[j] {
            Some(h) => h.count,
            None => unreached(),
        };
        if c == 1 {
            let slot = &mut heap.slots[j];
            *slot = None;
        } else {
            match &mut heap.slots[j] {
                Some(h) => {
                    h.count = c - 1;
                },
                None => {},
            }
        }
        proof {
            assert forall|i: int|
                0 <= i < heap@.len() && heap@[i] is Some implies (#[trigger] heap@[i]).unwrap().count
                >= 1 by {
                if i != a.idx() {
                    assert(old(heap)@[i] is Some && old(heap)@[i].unwrap().count >= 1);
                }
            }
        }
    }

    /// Exclusive access to the payload, granted exactly when this handle is
    /// the only one: present if and only if the count is 1.  The check and
    /// the access are not synchronized against a concurrent clone; the
    /// caller must guarantee exclusivity by other means.
    pub fn get_mut<'a, T>(heap: &'a mut Heap<T>, a: &Arc) -> (r: Option<&'a mut T>)
        requires
            old(heap).wf(),
            old(heap).live(a.idx()),
        ensures
            final(heap).wf(),
            r is Some <==> old(heap).count(a.idx()) == 1,
            r is None ==> final(heap)@ == old(heap)@,
            r is Some ==> *r.unwrap() == old(heap).value(a.idx()) && final(heap)@ == old(heap)@
                .update(a.idx(), Some(Header { count: 1, value: *final(r.unwrap()) })),
    {
        let j = a.idx;
        let c = match &heap.slots[j] {
            Some(h) => h.count,
            None => unreached(),
        };
        if c == 1 {
            proof {
                assert forall|v: T|
                    counts_wf(#[trigger] heap@.update(j as int, Some(Header { count: 1, value: v })))
                     by {
                    let s = heap@.update(j as int, Some(Header { count: 1, value: v }));
                    assert forall|i: int|
                        0 <= i < s.len() && s[i] is Some implies (#[trigger] s[i]).unwrap().count
                        >= 1 by {
                        if i != j as int {
                            assert(old(heap)@[i] is Some ==> old(heap)@[i].unwrap().count >= 1);
                        }
                    }
                }
            }
            match &mut heap.slots[j] {
                Some(h) => Some(&mut h.value),
                None => None,
            }
        } else {
            None
        }
    }

    /// Exclusive access through copy-on-write.  When other holders exist,
    /// the payload is duplicated into a fresh single-owner allocation, this
    /// handle moves to the copy, and the old allocation keeps its remaining
    /// holders, so mutation through the result is never visible through any
    /// other handle.
    pub fn make_mut<'a, T: Clone>(heap: &'a mut Heap<T>, a: &mut Arc) -> (r: &'a mut T)
        requires
            old(heap).wf(),
            old(heap).live(old(a).idx()),
        ensures
            final(heap).wf(),
            final(heap).live(final(a).idx()),
            final(heap).count(final(a).idx()) == 1,
            old(heap).count(old(a).idx()) == 1 ==> {
                &&& final(a).idx() == old(a).idx()
                &&& *r == old(heap).value(old(a).idx())
                &&& final(heap)@ == old(heap)@.update(
                    old(a).idx(),
                    Some(Header { count: 1, value: *final(r) }),
                )
            },
            old(heap).count(old(a).idx()) > 1 ==> {
                &&& final(a).idx() == old(heap)@.len()
                &&& final(a).idx() != old(a).idx()
                &&& cloned::<T>(old(heap).value(old(a).idx()), *r)
                &&& final(heap)@ == old(heap)@.update(
                    old(a).idx(),
                    Some(
                        Header {
                            count: (old(heap).count(old(a).idx()) - 1) as usize,
                            value: old(heap).value(old(a).idx()),
                        },
                    ),
                ).push(Some(Header { count: 1, value: *final(r) }))
            },
    {
        let j = a.idx;
        let c = match &heap.slots[j] {
            Some(h) => h.count,
            None => unreached(),
        };
        if c != 1 {
            let copied: T = match &heap.slots[j] {
                Some(h) => h.value.clone(),
                None => unreached(),
            };
            match &mut heap.slots[j] {
                Some(h) => {
                    h.count = c - 1;
                },
                None => {},
            }
            let ghost mid = heap@;
            let k = heap.slots.len();
            heap.slots.push(Some(Header { count: 1, value: copied }));
            a.idx = k;
            proof {
                assert forall|x: Option<Header<T>>| #[trigger] heap@.update(k as int, x) == mid.push(
                    x,
                ) by {
                    assert(heap@.update(k as int, x) =~= mid.push(x));
                }
            }
        }
        let j2 = a.idx;
        proof {
            assert(heap@[j2 as int].unwrap().count == 1);
            assert forall|v: T|
                counts_wf(#[trigger] heap@.update(j2 as int, Some(Header { count: 1, value: v })))
                 by {
                let s = heap@.update(j2 as int, Some(Header { count: 1, value: v }));
                assert forall|i: int|
                    0 <= i < s.len() && s[i] is Some implies (#[trigger] s[i]).unwrap().count >= 1 by {
                    if i != j2 as int {
                        assert(s[i] == heap@[i]);
                        assert(old(heap)@[i] is Some ==> old(heap)@[i].unwrap().count >= 1);
                    }
                }
            }
        }
        match &mut heap.slots[j2] {
            Some(h) => &mut h.value,
            None => unreached(),
        }
    }

    /// Allocates a header and a copy of the borrowed sequence together, with
    /// the count starting at 1.  The source is read, never modified.  A
    /// sequence so long that it cannot be addressed by a wide handle (its
    /// length does not fit a non-negative signed offset) is a fatal
    /// allocation fault, never an error value, so that state is excluded
    /// here; [`crate::layout::fits_fat_addressing`] is the check.
    pub fn from_slice<T: Copy>(heap: &mut Heap<Vec<T>>, s: &[T]) -> (a: Arc)
        requires
            old(heap).wf(),
            s@.len() <= isize::MAX as int,
        ensures
            final(heap).wf(),
            a.idx() == old(heap)@.len(),
            final(heap)@.len() == old(heap)@.len() + 1,
            forall|i: int| 0 <= i < old(heap)@.len() ==> final(heap)@[i] == old(heap)@[i],
            final(heap).live(a.idx()),
            final(heap).count(a.idx()) == 1,
            final(heap).value(a.idx())@ == s@,
    {
        let mut out: Vec<T> = Vec::new();
        let n = s.len();
        let mut i: usize = 0;
        while i < n
            invariant
                i <= n,
                n == s@.len(),
                out@ == s@.subrange(0, i as int),
            decreases n - i,
        {
            out.push(s[i]);
            proof {
                assert(out@ =~= s@.subrange(0, i + 1 as int));
            }
            i = i + 1;
        }
        proof {
            assert(out@ =~= s@);
        }
        Arc::new(heap, out)
    }

    /// Takes ownership of an owned, growable sequence, moving its elements
    /// into a fresh allocation with the count starting at 1.  Each element's
    /// resources move intact: no element is ever destroyed twice.
    pub fn from_vec<T>(heap: &mut Heap<Vec<T>>, v: Vec<T>) -> (a: Arc)
        requires
            old(heap).wf(),
            v@.len() <= isize::MAX as int,
        ensures
            final(heap).wf(),
            a.idx() == old(heap)@.len(),
            final(heap)@ == old(heap)@.push(Some(Header { count: 1, value: v })),
            final(heap).live(a.idx()),
            final(heap).count(a.idx()) == 1,
            final(heap).value(a.idx()) == v,
    {
        Arc::new(heap, v)
    }

    /// Takes ownership of an already boxed value, moving it into a fresh
    /// allocation with the count starting at 1.  The value's own resources
    /// transfer intact; the old backing memory is given up without running
    /// the value's destruction.
    pub fn from_box<T>(heap: &mut Heap<T>, b: Box<T>) -> (a: Arc)
        requires
            old(heap).wf(),
        ensures
            final(heap).wf(),
            a.idx() == old(heap)@.len(),
            final(heap)@ == old(heap)@.push(Some(Header { count: 1, value: *b })),
            final(heap).live(a.idx()),
            final(heap).count(a.idx()) == 1,
            final(heap).value(a.idx()) == *b,
    {
        Arc::new(heap, *b)
    }

    /// Consumes a handle and yields the bare address of its allocation,
    /// without touching the count: the handle's reference unit is
    /// transferred to the caller, who from now on holds it only as this
    /// address.
    pub fn into_raw(a: Arc) -> (r: usize)
        ensures
            r == a.idx(),
    {
        a.idx
    }

    /// Rebuilds a handle from an address previously produced by
    /// [`Arc::into_raw`].  The caller must be reclaiming exactly the one
    /// outstanding reference unit that the address stands for: the handle
    /// made here is usable only where the allocation is still live, and
    /// every further operation demands that.
    pub fn from_raw(raw: usize) -> (a: Arc)
        ensures
            a.idx() == raw,
    {
        Arc { idx: raw }
    }

    /// Read-only access to the payload, as if holding a direct reference.
    pub fn deref<'a, T>(heap: &'a Heap<T>, a: &Arc) -> (r: &'a T)
        requires
            heap.wf(),
            heap.live(a.idx()),
        ensures
            *r == heap.value(a.idx()),
    {
        match &heap.slots[a.idx] {
            Some(h) => &h.value,
            None => unreached(),
        }
    }
}

/// Law: the raw round trip is invisible.  Sending a handle through
/// [`Arc::into_raw`] and rebuilding it with [`Arc::from_raw`] yields a
/// handle identical to the original — and since neither step takes the pool
/// at all, no count moves across the round trip.
pub proof fn lemma_raw_round_trip(h: Arc, raw: usize, h2: Arc)
    requires
        raw == h.idx(),
        h2.idx() == raw,
    ensures
        h2 == h,
{
    Arc::lemma_handle_is_its_address(h, h2);
}

/// Law: a clone followed by a drop of the duplicate is invisible.  Raising
/// an allocation's count by 1 — the step [`Arc::clone`] takes — and then
/// lowering it by 1 — the step [`Arc::drop`] takes while other holders
/// remain — returns the pool to exactly its starting state, so repeated
/// clone/drop pairs are idempotent on every observed count.
pub proof fn lemma_clone_then_drop_is_invisible<T>(
    before: Heap<T>,
    between: Heap<T>,
    after: Heap<T>,
    i: int,
)
    requires
        before.wf(),
        before.live(i),
        before.count(i) < usize::MAX,
        between@ == before@.update(
            i,
            Some(Header { count: (before.count(i) + 1) as usize, value: before.value(i) }),
        ),
        after@ == between@.update(
            i,
            Some(Header { count: (between.count(i) - 1) as usize, value: between.value(i) }),
        ),
    ensures
        after@ == before@,
{
    assert(after@ =~= before@);
}

} // verus!
