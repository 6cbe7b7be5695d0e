//! Opaque resource handles and the append-only, deduplicated handle set that
//! accompanies every invocation.

use vstd::prelude::*;

verus! {

/// Opaque identifier naming an addressable external resource (an account, a
/// table, a wallet). Immutable once created.
#[derive(Clone, Copy, PartialEq, Eq, Structural, Debug)]
pub struct ResourceHandle {
    pub id: u64,
}

/// No handle occurs twice in `s`.
pub open spec fn distinct_handles(s: Seq<ResourceHandle>) -> bool {
    forall|i: int, j: int| 0 <= i < j < s.len() ==> s[i] != s[j]
}

/// One deduplicating append step: `h` is appended only when absent.
pub open spec fn insert_one(acc: Seq<ResourceHandle>, h: ResourceHandle) -> Seq<ResourceHandle> {
    if acc.contains(h) {
        acc
    } else {
        acc.push(h)
    }
}

/// Deduplicating append of a whole sequence, left to right: insertion order
/// of first occurrences is preserved and duplicates are silently elided.
pub open spec fn absorb(acc: Seq<ResourceHandle>, hs: Seq<ResourceHandle>) -> Seq<ResourceHandle>
    decreases hs.len(),
{
    if hs.len() == 0 {
        acc
    } else {
        absorb(insert_one(acc, hs[0]), hs.drop_first())
    }
}

/// Absorbing one more handle at the end is a single deduplicating append.
pub proof fn lemma_absorb_snoc(acc: Seq<ResourceHandle>, hs: Seq<ResourceHandle>, h: ResourceHandle)
    ensures
        absorb(acc, hs.push(h)) == insert_one(absorb(acc, hs), h),
    decreases hs.len(),
{
    reveal_with_fuel(absorb, 2);
    if hs.len() == 0 {
        assert(hs.push(h)[0] == h);
        assert(hs.push(h).drop_first() =~= Seq::<ResourceHandle>::empty());
        assert(absorb(acc, hs.push(h)) == absorb(insert_one(acc, h), hs.push(h).drop_first()));
    } else {
        assert(hs.push(h)[0] == hs[0]);
        assert(hs.push(h).drop_first() =~= hs.drop_first().push(h));
        assert(absorb(acc, hs.push(h))
            == absorb(insert_one(acc, hs[0]), hs.drop_first().push(h)));
        lemma_absorb_snoc(insert_one(acc, hs[0]), hs.drop_first(), h);
    }
}

/// Law: a deduplicating append never disturbs what was already collected:
/// the earlier contents stay a prefix, so the length never decreases.
pub proof fn lemma_absorb_grows(acc: Seq<ResourceHandle>, hs: Seq<ResourceHandle>)
    ensures
        acc.len() <= absorb(acc, hs).len(),
        forall|i: int| 0 <= i < acc.len() ==> absorb(acc, hs)[i] == acc[i],
        acc.is_prefix_of(absorb(acc, hs)),
    decreases hs.len(),
{
    if hs.len() == 0 {
        assert(acc =~= absorb(acc, hs).subrange(0, acc.len() as int));
    } else {
        let acc2 = insert_one(acc, hs[0]);
        lemma_absorb_grows(acc2, hs.drop_first());
        assert forall|i: int| 0 <= i < acc.len() implies absorb(acc, hs)[i] == acc[i] by {
            assert(acc2[i] == acc[i]);
            assert(absorb(acc2, hs.drop_first())[i] == acc2[i]);
        }
        assert(acc =~= absorb(acc, hs).subrange(0, acc.len() as int));
    }
}

/// A plain copy of a handle vector.
pub fn copy_handles(v: &Vec<ResourceHandle>) -> (r: Vec<ResourceHandle>)
    ensures
        r@ == v@,
{
    let mut r: Vec<ResourceHandle> = Vec::new();
    let mut i: usize = 0;
    while i < v.len()
        invariant
            i <= v@.len(),
            r@ == v@.subrange(0, i as int),
        decreases v@.len() - i,
    {
        r.push(v[i]);
        proof {
            assert(v@.subrange(0, i + 1) =~= v@.subrange(0, i as int).push(v@[i as int]));
        }
        i = i + 1;
    }
    proof {
        assert(v@.subrange(0, v@.len() as int) =~= v@);
    }
    r
}

/// Membership in a pushed sequence is membership before, or the new handle.
pub proof fn lemma_push_contains(s: Seq<ResourceHandle>, h: ResourceHandle, x: ResourceHandle)
    ensures
        s.push(h).contains(x) <==> (s.contains(x) || x == h),
{
    if s.push(h).contains(x) {
        let i = choose|i: int| 0 <= i < s.push(h).len() && s.push(h)[i] == x;
        if i < s.len() {
            assert(s[i] == x);
        }
    }
    if s.contains(x) {
        let i = choose|i: int| 0 <= i < s.len() && s[i] == x;
        assert(s.push(h)[i] == x);
    }
    if x == h {
        assert(s.push(h)[s.len() as int] == x);
    }
}

/// Ordered sequence of unique resource handles. Insertion order is preserved
/// for stable compaction; duplicate insertions are silently elided.
pub struct ResourceSet {
    handles: Vec<ResourceHandle>,
}

impl View for ResourceSet {
    type V = Seq<ResourceHandle>;

    closed spec fn view(&self) -> Seq<ResourceHandle> {
        self.handles@
    }
}

impl ResourceSet {
    /// The set's invariant: no handle occurs twice.
    pub open spec fn wf(&self) -> bool {
        distinct_handles(self@)
    }

    /// An empty set.
    pub fn new() -> (r: ResourceSet)
        ensures
            r@ == Seq::<ResourceHandle>::empty(),
            r.wf(),
    {
        ResourceSet { handles: Vec::new() }
    }

    /// Number of handles held.
    pub fn len(&self) -> (n: usize)
        ensures
            n == self@.len(),
    {
        self.handles.len()
    }

    /// The handle at position `i`.
    pub fn get(&self, i: usize) -> (h: ResourceHandle)
        requires
            i < self@.len(),
        ensures
            h == self@[i as int],
    {
        self.handles[i]
    }

    /// Whether `h` is already a member.
    pub fn contains_handle(&self, h: ResourceHandle) -> (r: bool)
        ensures
            r == self@.contains(h),
    {
        let mut i: usize = 0;
        while i < self.handles.len()
            invariant
                i <= self.handles.len(),
                forall|j: int| 0 <= j < i ==> self.handles@[j] != h,
            decreases self.handles.len() - i,
        {
            if self.handles[i] == h {
                assert(self@[i as int] == h);
                return true;
            }
            i = i + 1;
        }
        false
    }

    /// Append `h` unless it is already present; reports whether it was added.
    pub fn insert(&mut self, h: ResourceHandle) -> (added: bool)
        ensures
            final(self)@ == insert_one(old(self)@, h),
            added == !old(self)@.contains(h),
            old(self).wf() ==> final(self).wf(),
    {
        if self.contains_handle(h) {
            false
        } else {
            self.handles.push(h);
            true
        }
    }

    /// Absorb every handle of `hs` in order, eliding duplicates.
    pub fn insert_all(&mut self, hs: &Vec<ResourceHandle>) -> (added: usize)
        requires
            old(self)@.len() + hs@.len() <= usize::MAX,
        ensures
            final(self)@ == absorb(old(self)@, hs@),
            old(self).wf() ==> final(self).wf(),
            final(self)@.len() == old(self)@.len() + added,
    {
        let ghost orig = self@;
        let mut i: usize = 0;
        let mut added: usize = 0;
        proof {
            assert(hs@.subrange(0, 0) =~= Seq::<ResourceHandle>::empty());
        }
        while i < hs.len()
            invariant
                i <= hs@.len(),
                self@ == absorb(orig, hs@.subrange(0, i as int)),
                orig.len() + hs@.len() <= usize::MAX,
                self@.len() == orig.len() + added,
                added <= i,
                distinct_handles(orig) ==> distinct_handles(self@),
            decreases hs@.len() - i,
        {
            proof {
                lemma_absorb_grows(orig, hs@.subrange(0, i as int));
            }
            let was_added = self.insert(hs[i]);
            if was_added {
                added = added + 1;
            }
            proof {
                assert(hs@.subrange(0, i + 1) =~= hs@.subrange(0, i as int).push(hs@[i as int]));
                lemma_absorb_snoc(orig, hs@.subrange(0, i as int), hs@[i as int]);
            }
            i = i + 1;
        }
        proof {
            assert(hs@.subrange(0, hs@.len() as int) =~= hs@);
        }
        added
    }

    /// A plain copy of the handles, in order.
    pub fn to_vec(&self) -> (v: Vec<ResourceHandle>)
        ensures
            v@ == self@,
    {
        let mut v: Vec<ResourceHandle> = Vec::new();
        let mut i: usize = 0;
        while i < self.handles.len()
            invariant
                i <= self.handles.len(),
                v@ == self.handles@.subrange(0, i as int),
            decreases self.handles.len() - i,
        {
            v.push(self.handles[i]);
            proof {
                assert(self.handles@.subrange(0, i + 1)
                    =~= self.handles@.subrange(0, i as int).push(self.handles@[i as int]));
            }
            i = i + 1;
        }
        proof {
            assert(self.handles@.subrange(0, self.handles@.len() as int) =~= self.handles@);
        }
        v
    }
}

} // verus!
