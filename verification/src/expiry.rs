//! The expiry index: a time-ordered waiting structure over spoiler ids.
//!
//! Entries are held in a binary min-heap keyed by absolute deadline, so
//! scheduling and popping cost a logarithmic number of comparisons and no
//! operation ever scans the whole table.  Cancelling leaves a tombstone in
//! the heap (the live table forgets the key) that a later pop discards.
use vstd::prelude::*;
use vstd::hash_map::HashMapWithView;

verus! {

broadcast use vstd::std_specs::hash::group_hash_axioms;

/// One heap node: an absolute deadline in seconds and the key that
/// `schedule` handed out for the entry.
#[derive(Clone, Copy, PartialEq, Eq, Structural, Debug)]
struct HeapEntry {
    deadline: u64,
    key: u64,
}

/// Heap order: by deadline, ties broken by key, so of two entries with the
/// same deadline the one scheduled first leaves first.
spec fn le(a: HeapEntry, b: HeapEntry) -> bool {
    a.deadline < b.deadline || (a.deadline == b.deadline && a.key <= b.key)
}

/// Every node is dominated by its parent.
spec fn is_heap(v: Seq<HeapEntry>) -> bool {
    forall|i: int| 1 <= i < v.len() ==> le(v[(i - 1) / 2], #[trigger] v[i])
}

spec fn contains_entry(v: Seq<HeapEntry>, e: HeapEntry) -> bool {
    exists|i: int| 0 <= i < v.len() && v[i] == e
}

/// No two nodes carry the same key.
spec fn unique_keys(v: Seq<HeapEntry>) -> bool {
    forall|i: int, j: int|
        0 <= i < j < v.len() ==> (#[trigger] v[i]).key != (#[trigger] v[j]).key
}

/// Every node's key was allocated below `bound`.
spec fn keys_below(v: Seq<HeapEntry>, bound: u64) -> bool {
    forall|i: int| 0 <= i < v.len() ==> (#[trigger] v[i]).key < bound
}

/// The root of a heap is dominated by every node.
proof fn lemma_root_min(v: Seq<HeapEntry>, i: int)
    requires
        is_heap(v),
        0 <= i < v.len(),
    ensures
        le(v[0], v[i]),
    decreases i,
{
    if i > 0 {
        lemma_root_min(v, (i - 1) / 2);
    }
}

/// A heap whose entries all come from a keyed-below heap, or equal one more
/// entry keyed below the bound, is itself keyed below the bound.
proof fn lemma_keys_below_from_contains(v1: Seq<HeapEntry>, v2: Seq<HeapEntry>, e: HeapEntry, b: u64)
    requires
        keys_below(v1, b),
        e.key < b,
        forall|x: HeapEntry| contains_entry(v2, x) ==> (contains_entry(v1, x) || x == e),
    ensures
        keys_below(v2, b),
{
    assert forall|i: int| 0 <= i < v2.len() implies (#[trigger] v2[i]).key < b by {
        assert(contains_entry(v2, v2[i]));
        if contains_entry(v1, v2[i]) {
            let j = choose|j: int| 0 <= j < v1.len() && v1[j] == v2[i];
            assert(v1[j].key < b);
        }
    }
}

/// Executable twin of the heap order.
fn le_exec(a: HeapEntry, b: HeapEntry) -> (r: bool)
    ensures
        r == le(a, b),
{
    a.deadline < b.deadline || (a.deadline == b.deadline && a.key <= b.key)
}

/// Swaps two heap slots; the set of entries and key uniqueness survive.
fn swap_entries(heap: &mut Vec<HeapEntry>, a: usize, b: usize)
    requires
        a < old(heap)@.len(),
        b < old(heap)@.len(),
    ensures
        final(heap)@ == old(heap)@.update(a as int, old(heap)@[b as int]).update(
            b as int,
            old(heap)@[a as int],
        ),
        final(heap)@.len() == old(heap)@.len(),
        forall|x: HeapEntry| contains_entry(final(heap)@, x) == contains_entry(old(heap)@, x),
        unique_keys(old(heap)@) ==> unique_keys(final(heap)@),
{
    let va = heap[a];
    let vb = heap[b];
    heap.set(a, vb);
    heap.set(b, va);
    proof {
        let v = old(heap)@;
        let w = heap@;
        assert(forall|i: int|
            0 <= i < w.len() ==> w[i] == (if i == a {
                v[b as int]
            } else if i == b {
                v[a as int]
            } else {
                v[i]
            }));
        assert forall|x: HeapEntry| contains_entry(w, x) == contains_entry(v, x) by {
            if contains_entry(w, x) {
                let i = choose|i: int| 0 <= i < w.len() && w[i] == x;
                if i == a as int {
                    assert(v[b as int] == x);
                } else if i == b as int {
                    assert(v[a as int] == x);
                } else {
                    assert(v[i] == x);
                }
                assert(contains_entry(v, x));
            }
            if contains_entry(v, x) {
                let i = choose|i: int| 0 <= i < v.len() && v[i] == x;
                if i == a as int {
                    assert(w[b as int] == x);
                } else if i == b as int {
                    assert(w[a as int] == x);
                } else {
                    assert(w[i] == x);
                }
                assert(contains_entry(w, x));
            }
        }
    }
}

/// Adds an entry with a fresh key, restoring the heap shape by sifting up.
fn push_entry(heap: &mut Vec<HeapEntry>, e: HeapEntry)
    requires
        is_heap(old(heap)@),
        unique_keys(old(heap)@),
        forall|i: int| 0 <= i < old(heap)@.len() ==> (#[trigger] old(heap)@[i]).key != e.key,
    ensures
        is_heap(final(heap)@),
        unique_keys(final(heap)@),
        final(heap)@.len() == old(heap)@.len() + 1,
        forall|x: HeapEntry|
            contains_entry(final(heap)@, x) == (contains_entry(old(heap)@, x) || x == e),
{
    heap.push(e);
    let ghost mid = heap@;
    proof {
        assert forall|x: HeapEntry|
            contains_entry(mid, x) == (contains_entry(old(heap)@, x) || x == e) by {
            if contains_entry(mid, x) {
                let i = choose|i: int| 0 <= i < mid.len() && mid[i] == x;
                if i == mid.len() - 1 {
                    assert(x == e);
                } else {
                    assert(old(heap)@[i] == x);
                    assert(contains_entry(old(heap)@, x));
                }
            }
            if contains_entry(old(heap)@, x) {
                let i = choose|i: int| 0 <= i < old(heap)@.len() && old(heap)@[i] == x;
                assert(mid[i] == x);
                assert(contains_entry(mid, x));
            }
            if x == e {
                assert(mid[mid.len() - 1] == x);
                assert(contains_entry(mid, x));
            }
        }
        assert(unique_keys(mid));
    }
    let c = heap.len() - 1;
    sift_up(heap, c);
    proof {
        assert forall|x: HeapEntry|
            contains_entry(heap@, x) == (contains_entry(old(heap)@, x) || x == e) by {
            assert(contains_entry(heap@, x) == contains_entry(mid, x));
            assert(contains_entry(mid, x) == (contains_entry(old(heap)@, x) || x == e));
        }
    }
}

/// Restores the heap shape above `start`, whose slot alone may be out of
/// order with respect to its parent.
fn sift_up(heap: &mut Vec<HeapEntry>, start: usize)
    requires
        start < old(heap)@.len(),
        unique_keys(old(heap)@),
        forall|i: int|
            1 <= i < old(heap)@.len() && i != start as int ==> le(
                old(heap)@[(i - 1) / 2],
                #[trigger] old(heap)@[i],
            ),
        forall|i: int|
            1 <= i < old(heap)@.len() && start >= 1 && (i - 1) / 2 == start as int ==> le(
                old(heap)@[(start - 1) as int / 2],
                #[trigger] old(heap)@[i],
            ),
    ensures
        is_heap(final(heap)@),
        unique_keys(final(heap)@),
        final(heap)@.len() == old(heap)@.len(),
        forall|x: HeapEntry| contains_entry(final(heap)@, x) == contains_entry(old(heap)@, x),
{
    let ghost orig = old(heap)@;
    let mut c: usize = start;
    loop
        invariant
            heap@.len() == orig.len(),
            0 <= c < heap@.len(),
            unique_keys(heap@),
            forall|x: HeapEntry| contains_entry(heap@, x) == contains_entry(orig, x),
            forall|i: int|
                1 <= i < heap@.len() && i != c as int ==> le(
                    heap@[(i - 1) / 2],
                    #[trigger] heap@[i],
                ),
            forall|i: int|
                1 <= i < heap@.len() && c >= 1 && (i - 1) / 2 == c as int ==> le(
                    heap@[(c - 1) as int / 2],
                    #[trigger] heap@[i],
                ),
        ensures
            is_heap(heap@),
            heap@.len() == orig.len(),
            unique_keys(heap@),
            forall|x: HeapEntry| contains_entry(heap@, x) == contains_entry(orig, x),
        decreases c,
    {
        if c == 0 {
            break ;
        }
        let p = (c - 1) / 2;
        if le_exec(heap[p], heap[c]) {
            break ;
        }
        let ghost pre = heap@;
        swap_entries(heap, p, c);
        proof {
            let w = heap@;
            let ci = c as int;
            let pi = p as int;
            assert(w[pi] == pre[ci]);
            assert(w[ci] == pre[pi]);
            assert(forall|i: int| 0 <= i < w.len() && i != ci && i != pi ==> w[i] == pre[i]);
            assert(le(pre[ci], pre[pi]));
            assert forall|i: int| 1 <= i < w.len() && i != pi implies le(
                w[(i - 1) / 2],
                #[trigger] w[i],
            ) by {
                if i == ci {
                    // the parent slot now holds the sifted entry itself
                    assert(le(pre[ci], pre[pi]));
                } else if (i - 1) / 2 == pi {
                    // a sibling of the sifted slot: chain through the old parent
                    assert(le(pre[pi], pre[i]));
                    assert(le(pre[ci], pre[i]));
                } else if (i - 1) / 2 == ci {
                    // a child of the vacated slot: the old grandparent clause
                    assert(le(pre[pi], pre[i]));
                } else {
                    assert(le(pre[(i - 1) / 2], pre[i]));
                }
            }
            if p >= 1 {
                assert forall|i: int| 1 <= i < w.len() && (i - 1) / 2 == pi implies le(
                    w[(p - 1) as int / 2],
                    #[trigger] w[i],
                ) by {
                    let gp = (p - 1) as int / 2;
                    assert(w[gp] == pre[gp]);
                    assert(le(pre[gp], pre[pi]));
                    if i == ci {
                        assert(w[i] == pre[pi]);
                        assert(le(pre[gp], pre[pi]));
                    } else {
                        assert(w[i] == pre[i]);
                        assert(le(pre[pi], pre[i]));
                        assert(le(pre[gp], pre[i]));
                    }
                }
            }
        }
        c = p;
    }
}

/// Removes the root, restoring the heap shape by sifting down.
fn pop_root(heap: &mut Vec<HeapEntry>)
    requires
        is_heap(old(heap)@),
        unique_keys(old(heap)@),
        old(heap)@.len() >= 1,
    ensures
        is_heap(final(heap)@),
        unique_keys(final(heap)@),
        final(heap)@.len() == old(heap)@.len() - 1,
        forall|x: HeapEntry|
            contains_entry(final(heap)@, x) == (contains_entry(old(heap)@, x) && x
                != old(heap)@[0]),
{
    let n = heap.len();
    if n == 1 {
        heap.pop();
        proof {
            assert(forall|x: HeapEntry| !contains_entry(heap@, x));
            assert forall|x: HeapEntry|
                !(contains_entry(old(heap)@, x) && x != old(heap)@[0]) by {
                if contains_entry(old(heap)@, x) {
                    let i = choose|i: int| 0 <= i < old(heap)@.len() && old(heap)@[i] == x;
                    assert(i == 0);
                }
            }
        }
        return ;
    }
    let last = heap[n - 1];
    heap.set(0, last);
    heap.pop();
    let ghost v = old(heap)@;
    let ghost mid = heap@;
    proof {
        assert(forall|i: int|
            0 <= i < mid.len() ==> mid[i] == (if i == 0 {
                v[v.len() - 1]
            } else {
                v[i]
            }));
        assert forall|x: HeapEntry|
            contains_entry(mid, x) == (contains_entry(v, x) && x != v[0]) by {
            if contains_entry(mid, x) {
                let i = choose|i: int| 0 <= i < mid.len() && mid[i] == x;
                if i == 0 {
                    assert(v[v.len() - 1] == x);
                    assert(x != v[0]);
                } else {
                    assert(v[i] == x);
                    assert(x != v[0]);
                }
                assert(contains_entry(v, x));
            }
            if contains_entry(v, x) && x != v[0] {
                let i = choose|i: int| 0 <= i < v.len() && v[i] == x;
                if i == v.len() - 1 {
                    assert(mid[0] == x);
                } else {
                    assert(i != 0);
                    assert(mid[i] == x);
                }
                assert(contains_entry(mid, x));
            }
        }
        assert(unique_keys(mid));
    }
    sift_down(heap, 0);
}

/// Restores the heap shape below `start`, whose slot alone may be out of
/// order with respect to its children.
fn sift_down(heap: &mut Vec<HeapEntry>, start: usize)
    requires
        start < old(heap)@.len(),
        unique_keys(old(heap)@),
        forall|i: int|
            1 <= i < old(heap)@.len() && (i - 1) / 2 != start as int ==> le(
                old(heap)@[(i - 1) / 2],
                #[trigger] old(heap)@[i],
            ),
        start >= 1 ==> forall|i: int|
            1 <= i < old(heap)@.len() && (i - 1) / 2 == start as int ==> le(
                old(heap)@[(start - 1) as int / 2],
                #[trigger] old(heap)@[i],
            ),
    ensures
        is_heap(final(heap)@),
        unique_keys(final(heap)@),
        final(heap)@.len() == old(heap)@.len(),
        forall|x: HeapEntry| contains_entry(final(heap)@, x) == contains_entry(old(heap)@, x),
{
    let ghost orig = old(heap)@;
    let mut c: usize = start;
    loop
        invariant
            heap@.len() == orig.len(),
            0 <= c < heap@.len(),
            unique_keys(heap@),
            forall|x: HeapEntry| contains_entry(heap@, x) == contains_entry(orig, x),
            forall|i: int|
                1 <= i < heap@.len() && (i - 1) / 2 != c as int ==> le(
                    heap@[(i - 1) / 2],
                    #[trigger] heap@[i],
                ),
            c >= 1 ==> forall|i: int|
                1 <= i < heap@.len() && (i - 1) / 2 == c as int ==> le(
                    heap@[(c - 1) as int / 2],
                    #[trigger] heap@[i],
                ),
        ensures
            is_heap(heap@),
            heap@.len() == orig.len(),
            unique_keys(heap@),
            forall|x: HeapEntry| contains_entry(heap@, x) == contains_entry(orig, x),
        decreases heap@.len() - c,
    {
        let n = heap.len();
        if n < 2 || c > (n - 2) / 2 {
            proof {
                assert forall|i: int| 1 <= i < heap@.len() implies le(
                    heap@[(i - 1) / 2],
                    #[trigger] heap@[i],
                ) by {
                    assert((i - 1) / 2 != c as int);
                }
            }
            break ;
        }
        let l = 2 * c + 1;
        let r = l + 1;
        let mut m = l;
        if r < n && le_exec(heap[r], heap[l]) {
            m = r;
        }
        proof {
            assert(le(heap@[m as int], heap@[l as int]));
            assert(r < n ==> le(heap@[m as int], heap@[r as int]));
        }
        if le_exec(heap[c], heap[m]) {
            proof {
                assert forall|i: int| 1 <= i < heap@.len() implies le(
                    heap@[(i - 1) / 2],
                    #[trigger] heap@[i],
                ) by {
                    if (i - 1) / 2 == c as int {
                        assert(i == l as int || i == r as int);
                        assert(le(heap@[c as int], heap@[i]));
                    }
                }
            }
            break ;
        }
        let ghost pre = heap@;
        swap_entries(heap, c, m);
        proof {
            let w = heap@;
            let ci = c as int;
            let mi = m as int;
            assert(w[ci] == pre[mi]);
            assert(w[mi] == pre[ci]);
            assert(forall|i: int| 0 <= i < w.len() && i != ci && i != mi ==> w[i] == pre[i]);
            assert(le(pre[mi], pre[ci]));
            assert forall|i: int| 1 <= i < w.len() && (i - 1) / 2 != mi implies le(
                w[(i - 1) / 2],
                #[trigger] w[i],
            ) by {
                if i == ci {
                    // the vacated slot is dominated by its old grandparent
                    assert(le(pre[(ci - 1) / 2], pre[mi]));
                } else if i == mi {
                    assert(le(pre[mi], pre[ci]));
                } else if (i - 1) / 2 == ci {
                    // the sibling of the promoted child
                    assert(i == l as int || i == r as int);
                    assert(le(pre[mi], pre[i]));
                } else {
                    assert(le(pre[(i - 1) / 2], pre[i]));
                }
            }
            assert forall|i: int| 1 <= i < w.len() && (i - 1) / 2 == mi implies le(
                w[(mi - 1) / 2],
                #[trigger] w[i],
            ) by {
                assert((mi - 1) / 2 == ci);
                assert(w[i] == pre[i]);
                assert(le(pre[mi], pre[i]));
            }
        }
        c = m;
    }
}

/// Does key `k` name the entry of `m` that fires first: earliest deadline,
/// ties broken in favour of the entry scheduled first?
pub open spec fn first_by_deadline(m: Map<u64, (u64, String)>, k: u64) -> bool {
    forall|k2: u64|
        #[trigger] m.contains_key(k2) ==> (m[k].0 < m[k2].0 || (m[k].0 == m[k2].0 && k <= k2))
}

/// The expiry index: maps handles to `(deadline, spoiler id)` entries and
/// yields them once their deadline has elapsed, earliest first.
pub struct ExpiryIndex {
    heap: Vec<HeapEntry>,
    ids: HashMapWithView<u64, (u64, String)>,
    next_key: u64,
}

impl ExpiryIndex {
    /// The live entries: each handle handed out by `schedule` and not yet
    /// cancelled or popped maps to its deadline and spoiler id.
    pub closed spec fn pending(&self) -> Map<u64, (u64, String)> {
        self.ids@
    }

    /// The number of slots the internal heap holds, tombstones included.
    pub closed spec fn slots(&self) -> nat {
        self.heap@.len()
    }

    /// Whether the handle counter can still produce a fresh handle.
    pub closed spec fn can_schedule(&self) -> bool {
        self.next_key < u64::MAX
    }

    /// The next handle to be handed out; every handle ever returned lies
    /// below it.
    pub closed spec fn generation(&self) -> u64 {
        self.next_key
    }

    /// Every live handle lies below the generation counter.
    pub proof fn lemma_pending_below_generation(&self)
        requires
            self.wf(),
        ensures
            forall|k: u64| #[trigger] self.pending().contains_key(k) ==> k < self.generation(),
    {
        assert forall|k: u64| #[trigger] self.pending().contains_key(k) implies k
            < self.generation() by {
            let e = HeapEntry { deadline: self.ids@[k].0, key: k };
            assert(contains_entry(self.heap@, e));
            let i = choose|i: int| 0 <= i < self.heap@.len() && self.heap@[i] == e;
            assert(self.heap@[i].key < self.next_key);
        }
    }

    /// Internal well-formedness: the heap shape, the uniqueness of handles,
    /// and the fact that every live entry sits in the heap under its own
    /// deadline.
    pub closed spec fn wf(&self) -> bool {
        &&& is_heap(self.heap@)
        &&& unique_keys(self.heap@)
        &&& keys_below(self.heap@, self.next_key)
        &&& forall|k: u64|
            #[trigger] self.ids@.contains_key(k) ==> contains_entry(
                self.heap@,
                HeapEntry { deadline: self.ids@[k].0, key: k },
            )
    }

    /// Creates an empty index.
    pub fn new() -> (r: ExpiryIndex)
        ensures
            r.wf(),
            r.pending() == Map::<u64, (u64, String)>::empty(),
            r.slots() == 0,
            r.can_schedule(),
    {
        ExpiryIndex { heap: Vec::new(), ids: HashMapWithView::new(), next_key: 0 }
    }

    /// Whether another entry can be scheduled right now.
    pub fn has_capacity(&self) -> (r: bool)
        ensures
            r == self.can_schedule(),
    {
        self.next_key < u64::MAX
    }

    /// Registers `id` to fire once the clock reaches `deadline`, and returns
    /// the fresh handle under which the entry can later be cancelled.
    pub fn schedule(&mut self, id: String, deadline: u64) -> (k: u64)
        requires
            old(self).wf(),
            old(self).can_schedule(),
        ensures
            final(self).wf(),
            k == old(self).generation(),
            final(self).generation() == old(self).generation() + 1,
            !old(self).pending().contains_key(k),
            final(self).pending() == old(self).pending().insert(k, (deadline, id)),
            final(self).slots() == old(self).slots() + 1,
    {
        let k = self.next_key;
        self.next_key = self.next_key + 1;
        proof {
            if self.ids@.contains_key(k) {
                let e = HeapEntry { deadline: self.ids@[k].0, key: k };
                assert(contains_entry(self.heap@, e));
                let i = choose|i: int| 0 <= i < self.heap@.len() && self.heap@[i] == e;
                assert(self.heap@[i].key < k);
            }
        }
        let ghost pre_heap = self.heap@;
        push_entry(&mut self.heap, HeapEntry { deadline, key: k });
        self.ids.insert(k, (deadline, id));
        proof {
            lemma_keys_below_from_contains(
                pre_heap,
                self.heap@,
                HeapEntry { deadline, key: k },
                self.next_key,
            );
            assert forall|k2: u64| #[trigger] self.ids@.contains_key(k2) implies contains_entry(
                self.heap@,
                HeapEntry { deadline: self.ids@[k2].0, key: k2 },
            ) by {
                if k2 != k {
                    assert(old(self).ids@.contains_key(k2));
                    assert(contains_entry(
                        old(self).heap@,
                        HeapEntry { deadline: old(self).ids@[k2].0, key: k2 },
                    ));
                }
            }
        }
        k
    }

    /// Cancels a pending entry before it fires; a handle that already fired
    /// or was cancelled is ignored.  The heap slot stays behind as a
    /// tombstone that a later pop discards.
    pub fn cancel(&mut self, k: u64)
        requires
            old(self).wf(),
        ensures
            final(self).wf(),
            final(self).pending() == old(self).pending().remove(k),
            final(self).slots() == old(self).slots(),
            final(self).can_schedule() == old(self).can_schedule(),
            final(self).generation() == old(self).generation(),
    {
        let removed = self.ids.remove(&k);
        proof {
            if removed is None {
                assert(old(self).ids@.remove(k) =~= old(self).ids@);
            }
        }
    }

    /// Pops one entry whose deadline has elapsed as of `now`, the one that
    /// fires first, and removes it.  Returns `None` exactly when every live
    /// entry still lies in the future.
    pub fn pop_expired(&mut self, now: u64) -> (r: Option<(u64, String)>)
        requires
            old(self).wf(),
        ensures
            final(self).wf(),
            final(self).can_schedule() == old(self).can_schedule(),
            final(self).generation() == old(self).generation(),
            match r {
                None => {
                    &&& final(self).pending() == old(self).pending()
                    &&& final(self).slots() <= old(self).slots()
                    &&& forall|k: u64|
                        #[trigger] final(self).pending().contains_key(k) ==> final(self).pending()[k].0 > now
                },
                Some((k, id)) => {
                    &&& old(self).pending().contains_key(k)
                    &&& old(self).pending()[k].0 <= now
                    &&& old(self).pending()[k].1 == id
                    &&& first_by_deadline(old(self).pending(), k)
                    &&& final(self).pending() == old(self).pending().remove(k)
                    &&& final(self).slots() < old(self).slots()
                },
            },
    {
        loop
            invariant
                self.wf(),
                self.ids@ == old(self).ids@,
                self.next_key == old(self).next_key,
                self.heap@.len() <= old(self).heap@.len(),
            decreases self.heap@.len(),
        {
            if self.heap.len() == 0 {
                proof {
                    assert forall|k: u64| #[trigger] self.ids@.contains_key(k) implies self.ids@[k].0
                        > now by {
                        assert(contains_entry(
                            self.heap@,
                            HeapEntry { deadline: self.ids@[k].0, key: k },
                        ));
                    }
                }
                return None;
            }
            let root = self.heap[0];
            let live: Option<u64> = match self.ids.get(&root.key) {
                Some(p) => Some(p.0),
                None => None,
            };
            match live {
                Some(dl) => {
                    proof {
                        let e = HeapEntry { deadline: self.ids@[root.key].0, key: root.key };
                        assert(contains_entry(self.heap@, e));
                        let i = choose|i: int|
                            0 <= i < self.heap@.len() && self.heap@[i] == e;
                        assert(i == 0);
                        assert(dl == root.deadline);
                    }
                    if dl <= now {
                        let ghost pre_heap = self.heap@;
                        proof {
                            assert forall|k2: u64|
                                #[trigger] self.ids@.contains_key(k2) implies (
                            root.deadline < self.ids@[k2].0 || (root.deadline == self.ids@[k2].0
                                && root.key <= k2)) by {
                                let e2 = HeapEntry { deadline: self.ids@[k2].0, key: k2 };
                                assert(contains_entry(pre_heap, e2));
                                let i2 = choose|i2: int|
                                    0 <= i2 < pre_heap.len() && pre_heap[i2] == e2;
                                lemma_root_min(pre_heap, i2);
                            }
                        }
                        pop_root(&mut self.heap);
                        let removed = self.ids.remove(&root.key);
                        proof {
                            lemma_keys_below_from_contains(
                                pre_heap,
                                self.heap@,
                                root,
                                self.next_key,
                            );
                            assert forall|k2: u64|
                                #[trigger] self.ids@.contains_key(k2) implies contains_entry(
                                self.heap@,
                                HeapEntry { deadline: self.ids@[k2].0, key: k2 },
                            ) by {
                                let e2 = HeapEntry { deadline: self.ids@[k2].0, key: k2 };
                                assert(contains_entry(pre_heap, e2));
                                assert(e2.key != root.key);
                            }
                        }
                        match removed {
                            Some(p) => {
                                return Some((root.key, p.1));
                            },
                            None => {
                                proof {
                                    assert(false);
                                }
                                return None;
                            },
                        }
                    } else {
                        proof {
                            assert forall|k2: u64|
                                #[trigger] self.ids@.contains_key(k2) implies self.ids@[k2].0
                                > now by {
                                let e2 = HeapEntry { deadline: self.ids@[k2].0, key: k2 };
                                assert(contains_entry(self.heap@, e2));
                                let i2 = choose|i2: int|
                                    0 <= i2 < self.heap@.len() && self.heap@[i2] == e2;
                                lemma_root_min(self.heap@, i2);
                            }
                        }
                        return None;
                    }
                },
                None => {
                    let ghost pre_heap = self.heap@;
                    pop_root(&mut self.heap);
                    proof {
                        lemma_keys_below_from_contains(pre_heap, self.heap@, root, self.next_key);
                        assert forall|k2: u64|
                            #[trigger] self.ids@.contains_key(k2) implies contains_entry(
                            self.heap@,
                            HeapEntry { deadline: self.ids@[k2].0, key: k2 },
                        ) by {
                            let e2 = HeapEntry { deadline: self.ids@[k2].0, key: k2 };
                            assert(contains_entry(pre_heap, e2));
                            assert(e2.key != root.key);
                        }
                    }
                },
            }
        }
    }
}

} // verus!
