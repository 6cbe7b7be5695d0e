//! Lookup tables: append-only compaction structures for handle sets that
//! exceed the inline budget, with a warm-up delay before use, and the
//! resolver that chooses an inline or table-backed representation.

use vstd::prelude::*;

use crate::resource::{distinct_handles, ResourceHandle, ResourceSet};
use crate::{SchedulerError, INLINE_LIMIT, WARMUP_EPOCHS};

verus! {

/// Append-only table mapping an id to an ordered member list of handles.
/// After an extension the table may not be referenced until
/// [`WARMUP_EPOCHS`] scheduling epochs have elapsed.
pub struct LookupTable {
    pub id: u64,
    pub members: ResourceSet,
    /// Epoch of the most recent extension (the creation epoch while the
    /// table has never been extended).
    pub last_extended_epoch: u64,
}

impl LookupTable {
    pub open spec fn wf(&self) -> bool {
        self.members.wf()
    }

    /// The warm-up invariant: usable only once `WARMUP_EPOCHS` scheduling
    /// epochs have elapsed since the last extension.
    pub open spec fn warm_at(&self, epoch: u64) -> bool {
        epoch >= self.last_extended_epoch + WARMUP_EPOCHS
    }

    /// A fresh, empty table created at `epoch`.
    pub fn new(id: u64, epoch: u64) -> (t: LookupTable)
        ensures
            t.id == id,
            t.members@ == Seq::<ResourceHandle>::empty(),
            t.last_extended_epoch == epoch,
            t.wf(),
    {
        LookupTable { id, members: ResourceSet::new(), last_extended_epoch: epoch }
    }

    /// Whether the warm-up delay has elapsed at `epoch`.
    pub fn is_warm(&self, epoch: u64) -> (r: bool)
        ensures
            r == self.warm_at(epoch),
    {
        if epoch < self.last_extended_epoch {
            false
        } else {
            epoch - self.last_extended_epoch >= WARMUP_EPOCHS
        }
    }
}

/// Law: a table extended at epoch `e` is rejected throughout
/// `[e, e + WARMUP_EPOCHS)` and accepted at `e + WARMUP_EPOCHS` and ever
/// after.
pub proof fn lemma_warm_up_window(t: LookupTable, e: u64, epoch: u64)
    requires
        t.last_extended_epoch == e,
    ensures
        e <= epoch < e + WARMUP_EPOCHS ==> !t.warm_at(epoch),
        epoch >= e + WARMUP_EPOCHS ==> t.warm_at(epoch),
{
}

/// `h` is a member of some table in `tables`.
pub open spec fn in_tables(tables: Seq<LookupTable>, h: ResourceHandle) -> bool {
    exists|j: int| 0 <= j < tables.len() && tables[j].members@.contains(h)
}

/// The handles of `hs`, in order, that are in no table and not in `seen`,
/// with duplicates elided.
pub open spec fn fresh_additions(
    tables: Seq<LookupTable>,
    seen: Seq<ResourceHandle>,
    hs: Seq<ResourceHandle>,
) -> Seq<ResourceHandle>
    decreases hs.len(),
{
    if hs.len() == 0 {
        Seq::empty()
    } else if in_tables(tables, hs[0]) || seen.contains(hs[0]) {
        fresh_additions(tables, seen, hs.drop_first())
    } else {
        seq![hs[0]] + fresh_additions(tables, seen.push(hs[0]), hs.drop_first())
    }
}

/// Membership in a concatenation splits over the two halves.
pub proof fn lemma_concat_contains(
    a: Seq<ResourceHandle>,
    b: Seq<ResourceHandle>,
    x: ResourceHandle,
)
    ensures
        (a + b).contains(x) <==> a.contains(x) || b.contains(x),
{
    if (a + b).contains(x) {
        let i = choose|i: int| 0 <= i < (a + b).len() && (a + b)[i] == x;
        if i < a.len() {
            assert(a[i] == x);
        } else {
            assert(b[i - a.len()] == x);
        }
    }
    if a.contains(x) {
        let i = choose|i: int| 0 <= i < a.len() && a[i] == x;
        assert((a + b)[i] == x);
    }
    if b.contains(x) {
        let i = choose|i: int| 0 <= i < b.len() && b[i] == x;
        assert((a + b)[a.len() + i] == x);
    }
}

/// Every fresh addition is genuinely new: in no table, not in `seen`, and
/// listed only once.
pub proof fn lemma_fresh_additions_fresh(
    tables: Seq<LookupTable>,
    seen: Seq<ResourceHandle>,
    hs: Seq<ResourceHandle>,
)
    ensures
        forall|x: ResourceHandle| #[trigger] fresh_additions(tables, seen, hs).contains(x)
            ==> !in_tables(tables, x) && !seen.contains(x),
        distinct_handles(fresh_additions(tables, seen, hs)),
    decreases hs.len(),
{
    if hs.len() == 0 {
    } else if in_tables(tables, hs[0]) || seen.contains(hs[0]) {
        lemma_fresh_additions_fresh(tables, seen, hs.drop_first());
    } else {
        let h = hs[0];
        let rest = fresh_additions(tables, seen.push(h), hs.drop_first());
        let whole = seq![h] + rest;
        lemma_fresh_additions_fresh(tables, seen.push(h), hs.drop_first());
        assert forall|x: ResourceHandle| #[trigger] whole.contains(x)
            implies !in_tables(tables, x) && !seen.contains(x) by {
            lemma_concat_contains(seq![h], rest, x);
            if seq![h].contains(x) {
                assert(x == h);
            } else {
                assert(rest.contains(x));
                assert(!seen.push(h).contains(x));
                crate::resource::lemma_push_contains(seen, h, x);
            }
        }
        assert forall|i: int, j: int| 0 <= i < j < whole.len() implies whole[i] != whole[j] by {
            if i == 0 {
                assert(whole[j] == rest[j - 1]);
                assert(rest.contains(rest[j - 1]));
                assert(!seen.push(h).contains(rest[j - 1]));
                crate::resource::lemma_push_contains(seen, h, rest[j - 1]);
            } else {
                assert(whole[i] == rest[i - 1]);
                assert(whole[j] == rest[j - 1]);
            }
        }
    }
}

/// Reports whether any table of `tables` holds `h`.
pub fn any_table_contains(tables: &Vec<LookupTable>, h: ResourceHandle) -> (r: bool)
    ensures
        r == in_tables(tables@, h),
{
    let mut j: usize = 0;
    while j < tables.len()
        invariant
            j <= tables@.len(),
            forall|j2: int| 0 <= j2 < j ==> !tables@[j2].members@.contains(h),
        decreases tables@.len() - j,
    {
        if tables[j].members.contains_handle(h) {
            assert(tables@[j as int].members@.contains(h));
            return true;
        }
        j = j + 1;
    }
    false
}

/// How a handle set accompanies a batch: inline when small enough, else as
/// references to the lookup tables that cover it.
#[derive(PartialEq, Eq, Debug)]
pub enum Resolution {
    Inline(Vec<ResourceHandle>),
    TableRefs(Vec<u64>),
}

/// `h` is a member of one of the first `n` tables.
pub open spec fn covered_by_prefix(tables: Seq<LookupTable>, n: int, h: ResourceHandle) -> bool {
    exists|j: int| 0 <= j < n && tables[j].members@.contains(h)
}

/// Table `i` is referenced: it is the first table holding some required
/// handle, so dropping it would leave that handle uncovered.
pub open spec fn table_chosen(
    req: Seq<ResourceHandle>,
    tables: Seq<LookupTable>,
    i: int,
) -> bool {
    exists|k: int| 0 <= k < req.len() && tables[i].members@.contains(#[trigger] req[k])
        && !covered_by_prefix(tables, i, req[k])
}

/// The ids of the chosen tables among the first `n`, in table order.
pub open spec fn chosen_ids(req: Seq<ResourceHandle>, tables: Seq<LookupTable>, n: int) -> Seq<u64>
    decreases n,
{
    if n <= 0 {
        Seq::empty()
    } else if table_chosen(req, tables, n - 1) {
        chosen_ids(req, tables, n - 1).push(tables[n - 1].id)
    } else {
        chosen_ids(req, tables, n - 1)
    }
}

/// Every required handle appears in some table.
pub open spec fn coverable(req: Seq<ResourceHandle>, tables: Seq<LookupTable>) -> bool {
    forall|k: int| 0 <= k < req.len() ==> covered_by_prefix(tables, tables.len() as int, #[trigger] req[k])
}

/// Some table among the first `n` is both needed and still warming up.
pub open spec fn cold_in_prefix(
    req: Seq<ResourceHandle>,
    tables: Seq<LookupTable>,
    n: int,
    epoch: u64,
) -> bool {
    exists|j: int| 0 <= j < n && #[trigger] table_chosen(req, tables, j) && !tables[j].warm_at(epoch)
}

/// Reports whether table `i` holds some required handle that no earlier
/// table holds, given that `covered` records exactly the required handles
/// held by the first `i` tables.
fn table_picks(
    required: &ResourceSet,
    tables: &Vec<LookupTable>,
    covered: &ResourceSet,
    i: usize,
) -> (r: bool)
    requires
        i < tables@.len(),
        forall|h: ResourceHandle| #[trigger] covered@.contains(h)
            == (required@.contains(h) && covered_by_prefix(tables@, i as int, h)),
    ensures
        r == table_chosen(required@, tables@, i as int),
{
    let mut k: usize = 0;
    while k < required.len()
        invariant
            k <= required@.len(),
            i < tables@.len(),
            forall|h: ResourceHandle| #[trigger] covered@.contains(h)
                == (required@.contains(h) && covered_by_prefix(tables@, i as int, h)),
            forall|k2: int| 0 <= k2 < k
                ==> !(tables@[i as int].members@.contains(#[trigger] required@[k2])
                    && !covered_by_prefix(tables@, i as int, required@[k2])),
        decreases required@.len() - k,
    {
        let h = required.get(k);
        if tables[i].members.contains_handle(h) && !covered.contains_handle(h) {
            assert(required@.contains(required@[k as int]));
            assert(table_chosen(required@, tables@, i as int)) by {
                assert(tables@[i as int].members@.contains(required@[k as int])
                    && !covered_by_prefix(tables@, i as int, required@[k as int]));
            }
            return true;
        }
        proof {
            if tables@[i as int].members@.contains(required@[k as int]) {
                assert(required@.contains(required@[k as int]));
                assert(covered@.contains(required@[k as int]));
            }
        }
        k = k + 1;
    }
    false
}

/// Chooses how the required handles accompany a batch.
///
/// Small sets travel inline; anything larger is covered by references to
/// the first table holding each handle, in table order. A set that the
/// bound tables cannot cover needs more capacity; a needed table still
/// inside its warm-up window is rejected so the caller retries later.
pub fn resolve(
    required: &ResourceSet,
    tables: &Vec<LookupTable>,
    epoch: u64,
) -> (r: Result<Resolution, SchedulerError>)
    ensures
        (required@.len() <= INLINE_LIMIT) <==> (r matches Ok(Resolution::Inline(_))),
        r matches Ok(Resolution::Inline(v)) ==> v@ == required@,
        required@.len() > INLINE_LIMIT ==> {
            &&& (r == Err::<Resolution, SchedulerError>(SchedulerError::CapacityExceeded)
                <==> !coverable(required@, tables@))
            &&& (r == Err::<Resolution, SchedulerError>(SchedulerError::TableNotReady)
                <==> coverable(required@, tables@)
                    && cold_in_prefix(required@, tables@, tables@.len() as int, epoch))
            &&& ((r matches Ok(Resolution::TableRefs(_)))
                <==> coverable(required@, tables@)
                    && !cold_in_prefix(required@, tables@, tables@.len() as int, epoch))
        },
        r matches Ok(Resolution::TableRefs(ids))
            ==> ids@ == chosen_ids(required@, tables@, tables@.len() as int),
{
    if required.len() <= INLINE_LIMIT {
        return Ok(Resolution::Inline(required.to_vec()));
    }

    let mut covered = ResourceSet::new();
    let mut ids: Vec<u64> = Vec::new();
    let mut cold = false;
    let mut i: usize = 0;
    while i < tables.len()
        invariant
            i <= tables@.len(),
            required@.len() > INLINE_LIMIT,
            forall|h: ResourceHandle| #[trigger] covered@.contains(h)
                == (required@.contains(h) && covered_by_prefix(tables@, i as int, h)),
            ids@ == chosen_ids(required@, tables@, i as int),
            cold == cold_in_prefix(required@, tables@, i as int, epoch),
            covered.wf(),
        decreases tables@.len() - i,
    {
        let picks = table_picks(required, tables, &covered, i);
        if picks {
            ids.push(tables[i].id);
            if !tables[i].is_warm(epoch) {
                cold = true;
            }
            let mut k: usize = 0;
            while k < required.len()
                invariant
                    k <= required@.len(),
                    i < tables@.len(),
                    covered.wf(),
                    forall|h: ResourceHandle| #[trigger] covered@.contains(h)
                        == (required@.contains(h)
                            && (covered_by_prefix(tables@, i as int, h)
                                || (tables@[i as int].members@.contains(h)
                                    && exists|k2: int| 0 <= k2 < k && required@[k2] == h))),
                decreases required@.len() - k,
            {
                let h = required.get(k);
                if tables[i].members.contains_handle(h) {
                    let ghost before = covered@;
                    covered.insert(h);
                    assert forall|x: ResourceHandle| #[trigger] covered@.contains(x)
                        == (required@.contains(x)
                            && (covered_by_prefix(tables@, i as int, x)
                                || (tables@[i as int].members@.contains(x)
                                    && exists|k2: int| 0 <= k2 < k + 1 && required@[k2] == x))) by {
                        crate::resource::lemma_push_contains(before, h, x);
                        if x == h {
                            assert(required@.contains(x));
                            assert(exists|k2: int| 0 <= k2 < k + 1 && required@[k2] == x) by {
                                assert(required@[k as int] == x);
                            }
                        } else {
                            if required@.contains(x)
                                && tables@[i as int].members@.contains(x)
                                && exists|k2: int| 0 <= k2 < k + 1 && required@[k2] == x {
                                let k2 = choose|k2: int| 0 <= k2 < k + 1 && required@[k2] == x;
                                if k2 < k {
                                    assert(exists|k3: int| 0 <= k3 < k && required@[k3] == x);
                                }
                            }
                        }
                    }
                } else {
                    assert forall|x: ResourceHandle| #[trigger] covered@.contains(x)
                        == (required@.contains(x)
                            && (covered_by_prefix(tables@, i as int, x)
                                || (tables@[i as int].members@.contains(x)
                                    && exists|k2: int| 0 <= k2 < k + 1 && required@[k2] == x))) by {
                        if required@.contains(x)
                            && tables@[i as int].members@.contains(x)
                            && exists|k2: int| 0 <= k2 < k + 1 && required@[k2] == x {
                            let k2 = choose|k2: int| 0 <= k2 < k + 1 && required@[k2] == x;
                            if k2 == k {
                                assert(x == required@[k as int]);
                                assert(false);
                            } else {
                                assert(exists|k3: int| 0 <= k3 < k && required@[k3] == x);
                            }
                        }
                    }
                }
                k = k + 1;
            }
            proof {
                assert forall|h: ResourceHandle| #[trigger] covered@.contains(h)
                    == (required@.contains(h)
                        && covered_by_prefix(tables@, i + 1, h)) by {
                    if required@.contains(h) {
                        if covered_by_prefix(tables@, i + 1, h) && !covered_by_prefix(tables@, i as int, h) {
                            let j = choose|j: int| 0 <= j < i + 1 && tables@[j].members@.contains(h);
                            assert(j == i as int);
                            assert(exists|k2: int| 0 <= k2 < required@.len() && required@[k2] == h);
                        }
                        if covered@.contains(h) && !covered_by_prefix(tables@, i as int, h) {
                            assert(tables@[i as int].members@.contains(h));
                            assert(covered_by_prefix(tables@, i + 1, h)) by {
                                assert(0 <= (i as int) < i + 1 && tables@[i as int].members@.contains(h));
                            }
                        }
                        if covered_by_prefix(tables@, i as int, h) {
                            assert(covered_by_prefix(tables@, i + 1, h)) by {
                                let j = choose|j: int| 0 <= j < i as int && tables@[j].members@.contains(h);
                                assert(0 <= j < i + 1 && tables@[j].members@.contains(h));
                            }
                        }
                    }
                }
            }
        } else {
            proof {
                assert forall|h: ResourceHandle| #[trigger] covered@.contains(h)
                    == (required@.contains(h) && covered_by_prefix(tables@, i + 1, h)) by {
                    if required@.contains(h) && covered_by_prefix(tables@, i + 1, h)
                        && !covered_by_prefix(tables@, i as int, h) {
                        let j = choose|j: int| 0 <= j < i + 1 && tables@[j].members@.contains(h);
                        assert(j == i as int);
                        let k = choose|k: int| 0 <= k < required@.len() && required@[k] == h;
                        assert(tables@[i as int].members@.contains(required@[k]));
                        assert(covered_by_prefix(tables@, i as int, required@[k]));
                    }
                    if covered@.contains(h) {
                        assert(covered_by_prefix(tables@, i + 1, h)) by {
                            let j = choose|j: int| 0 <= j < i as int && tables@[j].members@.contains(h);
                            assert(0 <= j < i + 1 && tables@[j].members@.contains(h));
                        }
                    }
                }
            }
        }
        proof {
            assert(cold == cold_in_prefix(required@, tables@, i + 1, epoch)) by {
                if cold_in_prefix(required@, tables@, i + 1, epoch)
                    && !cold_in_prefix(required@, tables@, i as int, epoch) {
                    let j = choose|j: int| 0 <= j < i + 1 && #[trigger] table_chosen(required@, tables@, j)
                        && !tables@[j].warm_at(epoch);
                    assert(j == i as int);
                }
                if cold_in_prefix(required@, tables@, i as int, epoch) {
                    let j = choose|j: int| 0 <= j < i as int && #[trigger] table_chosen(required@, tables@, j)
                        && !tables@[j].warm_at(epoch);
                    assert(0 <= j < i + 1 && table_chosen(required@, tables@, j)
                        && !tables@[j].warm_at(epoch));
                }
            }
        }
        i = i + 1;
    }

    let mut k: usize = 0;
    while k < required.len()
        invariant
            k <= required@.len(),
            required@.len() > INLINE_LIMIT,
            forall|h: ResourceHandle| #[trigger] covered@.contains(h)
                == (required@.contains(h) && covered_by_prefix(tables@, tables@.len() as int, h)),
            forall|k2: int| 0 <= k2 < k
                ==> covered_by_prefix(tables@, tables@.len() as int, #[trigger] required@[k2]),
        decreases required@.len() - k,
    {
        let h = required.get(k);
        if !covered.contains_handle(h) {
            assert(required@.contains(required@[k as int]));
            assert(!coverable(required@, tables@));
            return Err(SchedulerError::CapacityExceeded);
        }
        k = k + 1;
    }
    assert(coverable(required@, tables@));

    if cold {
        return Err(SchedulerError::TableNotReady);
    }
    Ok(Resolution::TableRefs(ids))
}

} // verus!

