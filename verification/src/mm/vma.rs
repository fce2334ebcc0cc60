//! Address-space scoped VMA (Virtual Memory Area) management.
//!
//! VMA state is scoped by `page_table_root`. Every registered root owns an
//! independent table of regions; threads that share a root share the table.
//! The registry of roots is an explicit value (`VmRegistry`) handed to each
//! operation.
use vstd::prelude::*;

verus! {

/// Maximum number of VMA regions per address space.
pub const MAX_VMAS: usize = 1024;

/// Size of one page in bytes.
pub const VMA_PAGE_SIZE: usize = 4096;

/// A single VMA region descriptor: `[start, end)` with PROT_* bits.
#[derive(Clone, Copy)]
pub struct VmaRegion {
    pub start: usize,
    /// Exclusive end (first byte past the region).
    pub end: usize,
    /// PROT_* bit flags (0 = PROT_NONE).
    pub prot: usize,
    pub active: bool,
}

impl VmaRegion {
    pub fn empty() -> (r: Self)
        ensures
            r == (VmaRegion { start: 0, end: 0, prot: 0, active: false }),
    {
        VmaRegion { start: 0, end: 0, prot: 0, active: false }
    }
}

/// The region `v` is active and contains address `a`.
pub open spec fn covers(v: VmaRegion, a: int) -> bool {
    v.active && v.start <= a < v.end
}

/// The region `v` is active and intersects `[s, e)`.
pub open spec fn overlaps(v: VmaRegion, s: int, e: int) -> bool {
    v.active && v.start < e && v.end > s
}

/// Some region of `vmas` covers `a` with protection `p`.
pub open spec fn covered_with(vmas: Seq<VmaRegion>, a: int, p: usize) -> bool {
    exists|j: int| 0 <= j < vmas.len() && #[trigger] covers(vmas[j], a) && vmas[j].prot == p
}

/// Some region of `vmas` covers `a`.
pub open spec fn covered(vmas: Seq<VmaRegion>, a: int) -> bool {
    exists|j: int| 0 <= j < vmas.len() && #[trigger] covers(vmas[j], a)
}

/// Every slot of the table holds an active region.
pub open spec fn all_active(vmas: Seq<VmaRegion>) -> bool {
    forall|j: int| 0 <= j < vmas.len() ==> #[trigger] vmas[j].active
}

/// `k` is the lowest inactive slot.
pub open spec fn is_first_free(vmas: Seq<VmaRegion>, k: int) -> bool {
    &&& 0 <= k < vmas.len()
    &&& !vmas[k].active
    &&& forall|j: int| 0 <= j < k ==> #[trigger] vmas[j].active
}

/// Every active region of `new` is a piece of an active region of `old`
/// with the same protection.
pub open spec fn no_new_coverage(old: Seq<VmaRegion>, new: Seq<VmaRegion>) -> bool {
    forall|a: int, p: usize| #[trigger] covered_with(new, a, p) ==> covered_with(old, a, p)
}

/// Outside `[s, e)` the coverage of `new` is that of `old`, and nothing of
/// `new` covers any address inside `[s, e)`.
pub open spec fn hole_punched(old: Seq<VmaRegion>, new: Seq<VmaRegion>, s: int, e: int) -> bool {
    &&& forall|a: int, p: usize|
        !(s <= a < e) ==> (#[trigger] covered_with(new, a, p) <==> covered_with(old, a, p))
    &&& forall|a: int| s <= a < e ==> !#[trigger] covered(new, a)
}

/// Insert `[start, end)` with `prot` into the first free slot.
/// An empty range is accepted and changes nothing.
pub fn insert_vma(vmas: &mut Vec<VmaRegion>, start: usize, end: usize, prot: usize) -> (r: Result<
    (),
    (),
>)
    ensures
        start >= end ==> r is Ok && final(vmas)@ == old(vmas)@,
        start < end ==> (r is Ok <==> !all_active(old(vmas)@)),
        start < end && r is Ok ==> exists|k: int|
            is_first_free(old(vmas)@, k) && final(vmas)@ == old(vmas)@.update(
                k,
                VmaRegion { start, end, prot, active: true },
            ),
        r is Err ==> final(vmas)@ == old(vmas)@ && all_active(old(vmas)@),
{
    if start >= end {
        return Ok(());
    }
    let mut i: usize = 0;
    while i < vmas.len()
        invariant
            i <= vmas.len(),
            vmas@ == old(vmas)@,
            start < end,
            forall|j: int| 0 <= j < i ==> #[trigger] vmas@[j].active,
        decreases vmas.len() - i,
    {
        if !vmas[i].active {
            vmas.set(i, VmaRegion { start, end, prot, active: true });
            assert(is_first_free(old(vmas)@, i as int));
            return Ok(());
        }
        i = i + 1;
    }
    Err(())
}


/// Replacing slot `i` by a piece `x` of it adds no coverage.
proof fn lemma_update_shrink(cur: Seq<VmaRegion>, i: int, x: VmaRegion)
    requires
        0 <= i < cur.len(),
        x.prot == cur[i].prot,
        forall|a: int| covers(x, a) ==> covers(cur[i], a),
    ensures
        no_new_coverage(cur, cur.update(i, x)),
{
    let new = cur.update(i, x);
    assert forall|a: int, p: usize| #[trigger] covered_with(new, a, p) implies covered_with(
        cur,
        a,
        p,
    ) by {
        let j = choose|j: int| 0 <= j < new.len() && #[trigger] covers(new[j], a) && new[j].prot == p;
        assert(covers(cur[j], a));
    }
}

/// Replacing slot `i` by a piece `x` of it that keeps all of it outside
/// `[s, e)` keeps the coverage outside `[s, e)` and adds none.
proof fn lemma_update_piece(cur: Seq<VmaRegion>, i: int, x: VmaRegion, s: int, e: int)
    requires
        0 <= i < cur.len(),
        x.prot == cur[i].prot,
        forall|a: int| covers(x, a) ==> covers(cur[i], a),
        forall|a: int| !(s <= a < e) && covers(cur[i], a) ==> covers(x, a),
    ensures
        forall|a: int, p: usize|
            !(s <= a < e) ==> (covered_with(cur.update(i, x), a, p) <==> covered_with(cur, a, p)),
        no_new_coverage(cur, cur.update(i, x)),
{
    let new = cur.update(i, x);
    assert forall|a: int, p: usize| #[trigger] covered_with(new, a, p) implies covered_with(
        cur,
        a,
        p,
    ) by {
        let j = choose|j: int| 0 <= j < new.len() && #[trigger] covers(new[j], a) && new[j].prot == p;
        assert(covers(cur[j], a));
    }
    assert forall|a: int, p: usize| !(s <= a < e) && #[trigger] covered_with(cur, a, p) implies covered_with(
        new,
        a,
        p,
    ) by {
        let j = choose|j: int| 0 <= j < cur.len() && #[trigger] covers(cur[j], a) && cur[j].prot == p;
        assert(covers(new[j], a));
    }
}

/// Replacing slot `i` by a piece `x` and a free slot `k` by a piece `y`,
/// together keeping all of slot `i` outside `[s, e)`, keeps the coverage
/// outside `[s, e)` and adds none.
proof fn lemma_update_split(
    cur: Seq<VmaRegion>,
    i: int,
    k: int,
    x: VmaRegion,
    y: VmaRegion,
    s: int,
    e: int,
)
    requires
        0 <= i < cur.len(),
        0 <= k < cur.len(),
        i != k,
        !cur[k].active,
        x.prot == cur[i].prot,
        y.prot == cur[i].prot,
        forall|a: int| covers(x, a) ==> covers(cur[i], a),
        forall|a: int| covers(y, a) ==> covers(cur[i], a),
        forall|a: int| !(s <= a < e) && covers(cur[i], a) ==> covers(x, a) || covers(y, a),
    ensures
        forall|a: int, p: usize|
            !(s <= a < e) ==> (covered_with(cur.update(i, x).update(k, y), a, p) <==> covered_with(
                cur,
                a,
                p,
            )),
        no_new_coverage(cur, cur.update(i, x).update(k, y)),
{
    let new = cur.update(i, x).update(k, y);
    assert forall|a: int, p: usize| #[trigger] covered_with(new, a, p) implies covered_with(
        cur,
        a,
        p,
    ) by {
        let j = choose|j: int| 0 <= j < new.len() && #[trigger] covers(new[j], a) && new[j].prot == p;
        if j == k {
            assert(covers(cur[i], a));
        } else {
            assert(covers(cur[j], a));
        }
    }
    assert forall|a: int, p: usize| !(s <= a < e) && #[trigger] covered_with(cur, a, p) implies covered_with(
        new,
        a,
        p,
    ) by {
        let j = choose|j: int| 0 <= j < cur.len() && #[trigger] covers(cur[j], a) && cur[j].prot == p;
        if j == i {
            if covers(x, a) {
                assert(covers(new[i], a));
            } else {
                assert(covers(new[k], a));
            }
        } else {
            assert(covers(new[j], a));
        }
    }
}

/// The region `v` is active and reaches past `[s, e)` on both sides: taking
/// the range out of it leaves two pieces.
pub open spec fn splits(v: VmaRegion, s: int, e: int) -> bool {
    overlaps(v, s, e) && v.start < s && v.end > e
}

/// Region `j` of `vmas` splits around `[s, e)` and no other region
/// intersects the range.
pub open spec fn only_overlap(vmas: Seq<VmaRegion>, j: int, s: int, e: int) -> bool {
    &&& 0 <= j < vmas.len()
    &&& splits(vmas[j], s, e)
    &&& forall|k: int| 0 <= k < vmas.len() && k != j ==> !#[trigger] overlaps(vmas[k], s, e)
}

/// What removing `[s, e)` leaves of the table `old`: the hole punched,
/// unless a region that had to be split found the table full; always so
/// when no region splits around the range, and when one region alone meets
/// it and a slot was free.
pub open spec fn removal_result(old: Seq<VmaRegion>, new: Seq<VmaRegion>, s: int, e: int) -> bool {
    &&& hole_punched(old, new, s, e) || (all_active(new) && exists|j: int|
        0 <= j < old.len() && #[trigger] splits(old[j], s, e))
    &&& forall|j: int| #[trigger] only_overlap(old, j, s, e) && !all_active(old) ==> hole_punched(old, new, s, e)
}

/// No two active regions of `vmas` share an address.
pub open spec fn regions_disjoint(vmas: Seq<VmaRegion>) -> bool {
    forall|i: int, j: int, a: int|
        0 <= i < vmas.len() && 0 <= j < vmas.len() && i != j && #[trigger] covers(vmas[i], a) ==> !#[trigger] covers(
            vmas[j],
            a,
        )
}

/// Replacing slot `i` by a part of its region keeps the regions disjoint.
proof fn lemma_shrink_disjoint(cur: Seq<VmaRegion>, i: int, x: VmaRegion)
    requires
        regions_disjoint(cur),
        0 <= i < cur.len(),
        forall|a: int| #[trigger] covers(x, a) ==> covers(cur[i], a),
    ensures
        regions_disjoint(cur.update(i, x)),
{
    let n = cur.update(i, x);
    assert forall|p: int, q: int, a: int|
        0 <= p < n.len() && 0 <= q < n.len() && p != q && #[trigger] covers(n[p], a) implies !#[trigger] covers(n[q], a) by {
        if covers(n[q], a) {
            assert(covers(cur[p], a));
            assert(covers(cur[q], a));
        }
    }
}

/// Replacing slot `i` by one part of its region and a free slot `k` by
/// another, the two parts apart, keeps the regions disjoint.
proof fn lemma_split_disjoint(cur: Seq<VmaRegion>, i: int, k: int, x: VmaRegion, y: VmaRegion)
    requires
        regions_disjoint(cur),
        0 <= i < cur.len(),
        0 <= k < cur.len(),
        i != k,
        !cur[k].active,
        forall|a: int| #[trigger] covers(x, a) ==> covers(cur[i], a),
        forall|a: int| #[trigger] covers(y, a) ==> covers(cur[i], a) && !covers(x, a),
    ensures
        regions_disjoint(cur.update(i, x).update(k, y)),
{
    let n = cur.update(i, x).update(k, y);
    assert forall|p: int, q: int, a: int|
        0 <= p < n.len() && 0 <= q < n.len() && p != q && #[trigger] covers(n[p], a) implies !#[trigger] covers(n[q], a) by {
        if covers(n[q], a) {
            let pp = if p == k { i } else { p };
            let qq = if q == k { i } else { q };
            if pp == qq {
                assert(covers(x, a) && covers(y, a));
            } else {
                assert(covers(cur[pp], a));
                assert(covers(cur[qq], a));
            }
        }
    }
}

/// Placing a region in a free slot where no region covers any of its
/// addresses keeps the regions disjoint.
proof fn lemma_insert_disjoint(mid: Seq<VmaRegion>, k: int, v: VmaRegion)
    requires
        regions_disjoint(mid),
        0 <= k < mid.len(),
        !mid[k].active,
        forall|a: int| #[trigger] covers(v, a) ==> !covered(mid, a),
    ensures
        regions_disjoint(mid.update(k, v)),
{
    let n = mid.update(k, v);
    assert forall|p: int, q: int, a: int|
        0 <= p < n.len() && 0 <= q < n.len() && p != q && #[trigger] covers(n[p], a) implies !#[trigger] covers(n[q], a) by {
        if covers(n[q], a) {
            if p == k {
                assert(covers(mid[q], a));
            } else if q == k {
                assert(covers(mid[p], a));
            } else {
                assert(covers(mid[p], a));
            }
        }
    }
}

/// Split or remove the regions that overlap `[start, end)`.
///
/// On success nothing covers `[start, end)` any more and the coverage
/// outside it is unchanged. The split of a region that contains the whole
/// range needs a free slot; when none is left the call stops with `Err`,
/// the table full. Without such a region the call always succeeds; with
/// one region that alone meets the range, it fails exactly when the table
/// was full.
pub fn split_overlapping_vmas(vmas: &mut Vec<VmaRegion>, start: usize, end: usize) -> (r: Result<
    (),
    (),
>)
    ensures
        final(vmas)@.len() == old(vmas)@.len(),
        no_new_coverage(old(vmas)@, final(vmas)@),
        r is Ok ==> hole_punched(old(vmas)@, final(vmas)@, start as int, end as int),
        r is Err ==> all_active(final(vmas)@) && exists|j: int|
            0 <= j < old(vmas)@.len() && #[trigger] splits(old(vmas)@[j], start as int, end as int),
        forall|j: int| #[trigger]
            only_overlap(old(vmas)@, j, start as int, end as int) ==> (r is Err <==> all_active(
                old(vmas)@,
            )),
        (forall|j: int| 0 <= j < old(vmas)@.len() ==> !#[trigger] splits(old(vmas)@[j], start as int, end as int))
            ==> forall|k: int|
            0 <= k < old(vmas)@.len() && !old(vmas)@[k].active ==> !#[trigger] final(vmas)@[k].active,
        start < end && regions_disjoint(old(vmas)@) ==> regions_disjoint(final(vmas)@),
{
    let ghost s = start as int;
    let ghost e = end as int;
    let ghost mut split_at: int = -1;
    let mut i: usize = 0;
    while i < vmas.len()
        invariant
            i <= vmas.len(),
            s == start as int,
            e == end as int,
            vmas@.len() == old(vmas)@.len(),
            no_new_coverage(old(vmas)@, vmas@),
            s < e && regions_disjoint(old(vmas)@) ==> regions_disjoint(vmas@),
            split_at < 0 ==> forall|k: int| i <= k < vmas@.len() ==> vmas@[k] == old(vmas)@[k],
            forall|k: int|
                i <= k < vmas@.len() ==> #[trigger] vmas@[k] == old(vmas)@[k] || !old(vmas)@[k].active,
            split_at >= 0 ==> split_at < i && splits(old(vmas)@[split_at], s, e),
            split_at < 0 ==> forall|k: int|
                0 <= k < i && !overlaps(old(vmas)@[k], s, e) ==> #[trigger] vmas@[k] == old(vmas)@[k],
            forall|k: int|
                0 <= k < i && #[trigger] only_overlap(old(vmas)@, k, s, e) ==> !all_active(old(vmas)@),
            forall|a: int, p: usize|
                !(s <= a < e) ==> (#[trigger] covered_with(vmas@, a, p) <==> covered_with(
                    old(vmas)@,
                    a,
                    p,
                )),
            forall|j: int|
                0 <= j < vmas@.len() && #[trigger] overlaps(vmas@[j], s, e) ==> j >= i && vmas@[j]
                    == old(vmas)@[j],
        decreases vmas.len() - i,
    {
        let vma = vmas[i];
        if !vma.active || vma.start >= end || vma.end <= start {
            i = i + 1;
            continue;
        }
        let vma_end = vma.end;
        let vma_prot = vma.prot;
        let ghost cur = vmas@;
        if vma.start < start && vma.end > end {
            let x = VmaRegion { start: vma.start, end: start, prot: vma_prot, active: true };
            vmas.set(i, x);
            let ghost mid = vmas@;
            let res = insert_vma(vmas, end, vma_end, vma_prot);
            proof {
                if only_overlap(old(vmas)@, i as int, s, e) {
                    if split_at >= 0 {
                        assert(overlaps(old(vmas)@[split_at], s, e));
                    }
                    assert forall|k: int| 0 <= k < cur.len() && k != i implies #[trigger] cur[k] == old(
                        vmas,
                    )@[k] by {
                        if k < i {
                            assert(!overlaps(old(vmas)@[k], s, e));
                        }
                    }
                    if all_active(old(vmas)@) {
                        assert forall|k: int| 0 <= k < mid.len() implies #[trigger] mid[k].active by {
                            if k != i {
                                assert(old(vmas)@[k].active);
                            }
                        }
                    } else {
                        let k = choose|k: int| 0 <= k < old(vmas)@.len() && !#[trigger] old(vmas)@[k].active;
                        assert(!mid[k].active);
                    }
                }
            }
            proof {
                if s < e && regions_disjoint(old(vmas)@) {
                    lemma_shrink_disjoint(cur, i as int, x);
                }
            }
            if res.is_err() {
                proof {
                    lemma_update_shrink(cur, i as int, x);
                    assert(overlaps(cur[i as int], s, e));
                    assert(cur[i as int] == old(vmas)@[i as int]);
                    assert(splits(old(vmas)@[i as int], s, e));
                }
                return Err(());
            }
            proof {
                let k = choose|k: int|
                    is_first_free(mid, k) && vmas@ == mid.update(
                        k,
                        VmaRegion { start: end, end: vma_end, prot: vma_prot, active: true },
                    );
                let y = VmaRegion { start: end, end: vma_end, prot: vma_prot, active: true };
                assert(cur.update(i as int, x).update(k, y) == vmas@);
                lemma_update_split(cur, i as int, k, x, y, s, e);
                if s < e && regions_disjoint(old(vmas)@) {
                    lemma_split_disjoint(cur, i as int, k, x, y);
                }
                assert(overlaps(cur[i as int], s, e));
                split_at = i as int;
                assert forall|k2: int| i + 1 <= k2 < vmas@.len() implies #[trigger] vmas@[k2] == old(vmas)@[k2]
                    || !old(vmas)@[k2].active by {
                    assert(cur[k2] == old(vmas)@[k2] || !old(vmas)@[k2].active);
                    if k2 == k {
                        assert(!mid[k2].active);
                    }
                }
            }
        } else if vma.start < start {
            let x = VmaRegion { start: vma.start, end: start, prot: vma_prot, active: true };
            vmas.set(i, x);
            proof {
                lemma_update_piece(cur, i as int, x, s, e);
                if s < e && regions_disjoint(old(vmas)@) {
                    lemma_shrink_disjoint(cur, i as int, x);
                }
            }
        } else if vma.end > end {
            let x = VmaRegion { start: end, end: vma.end, prot: vma_prot, active: true };
            vmas.set(i, x);
            proof {
                lemma_update_piece(cur, i as int, x, s, e);
                if s < e && regions_disjoint(old(vmas)@) {
                    lemma_shrink_disjoint(cur, i as int, x);
                }
            }
        } else {
            let x = VmaRegion { start: vma.start, end: vma.end, prot: vma_prot, active: false };
            vmas.set(i, x);
            proof {
                lemma_update_piece(cur, i as int, x, s, e);
                if s < e && regions_disjoint(old(vmas)@) {
                    lemma_shrink_disjoint(cur, i as int, x);
                }
            }
        }
        proof {
            assert forall|a: int, p: usize| !(s <= a < e) implies (#[trigger] covered_with(
                vmas@,
                a,
                p,
            ) <==> covered_with(old(vmas)@, a, p)) by {
                assert(covered_with(vmas@, a, p) <==> covered_with(cur, a, p));
            }
        }
        i = i + 1;
    }
    proof {
        if split_at < 0 {
            assert forall|k: int| 0 <= k < old(vmas)@.len() && !old(vmas)@[k].active implies !#[trigger] vmas@[k].active by {
                assert(!overlaps(old(vmas)@[k], s, e));
            }
        }
        assert forall|a: int| s <= a < e implies !#[trigger] covered(vmas@, a) by {
            if covered(vmas@, a) {
                let j = choose|j: int| 0 <= j < vmas@.len() && #[trigger] covers(vmas@[j], a);
                assert(overlaps(vmas@[j], s, e));
            }
        }
    }
    Ok(())
}


/// `i` is the lowest index whose region covers `a`.
pub open spec fn is_first_cover(vmas: Seq<VmaRegion>, a: int, i: int) -> bool {
    &&& 0 <= i < vmas.len()
    &&& covers(vmas[i], a)
    &&& forall|j: int| 0 <= j < i ==> !#[trigger] covers(vmas[j], a)
}

/// Size of a region.
pub open spec fn region_size(v: VmaRegion) -> int {
    v.end - v.start
}

/// `i` is the accessible (prot != 0) region covering `a` that the fault
/// handler picks: the smallest one, and of equally small ones the first.
pub open spec fn is_best_accessible(vmas: Seq<VmaRegion>, a: int, i: int) -> bool {
    &&& 0 <= i < vmas.len()
    &&& covers(vmas[i], a)
    &&& vmas[i].prot != 0
    &&& forall|j: int|
        0 <= j < vmas.len() && #[trigger] covers(vmas[j], a) && vmas[j].prot != 0 ==> region_size(
            vmas[i],
        ) < region_size(vmas[j]) || (region_size(vmas[i]) == region_size(vmas[j]) && i <= j)
}

/// Some accessible region covers `a`.
pub open spec fn accessible_at(vmas: Seq<VmaRegion>, a: int) -> bool {
    exists|j: int| 0 <= j < vmas.len() && #[trigger] covers(vmas[j], a) && vmas[j].prot != 0
}

/// `r` is what a permission check of `a` answers.
pub open spec fn check_result(vmas: Seq<VmaRegion>, a: int, r: Option<usize>) -> bool {
    match r {
        Some(p) => exists|i: int| is_best_accessible(vmas, a, i) && vmas[i].prot == p,
        None => !accessible_at(vmas, a),
    }
}

/// `r` is what a protection query of `a` answers: the protection of the
/// first region covering `a`, if any.
pub open spec fn query_result(vmas: Seq<VmaRegion>, a: int, r: Option<usize>) -> bool {
    match r {
        Some(p) => exists|i: int| is_first_cover(vmas, a, i) && vmas[i].prot == p,
        None => !covered(vmas, a),
    }
}

/// Round `x` up to a multiple of the page size.
pub open spec fn page_align_up(x: int) -> int {
    x + 4095 - (x + 4095) % 4096
}

/// After punching a hole `[s, e)` (non-empty) and placing a region
/// `[s, e)` with `prot` in a free slot, exactly that region covers the hole.
proof fn lemma_insert_into_hole(
    old: Seq<VmaRegion>,
    mid: Seq<VmaRegion>,
    k: int,
    s: int,
    e: int,
    prot: usize,
)
    requires
        s < e,
        0 <= s,
        e <= usize::MAX,
        hole_punched(old, mid, s, e),
        is_first_free(mid, k),
    ensures
        forall|a: int, p: usize| #[trigger]
            covered_with(mid.update(k, VmaRegion { start: s as usize, end: e as usize, prot, active: true }), a, p)
                <==> if s <= a < e {
                p == prot
            } else {
                covered_with(old, a, p)
            },
{
    let x = VmaRegion { start: s as usize, end: e as usize, prot, active: true };
    let new = mid.update(k, x);
    assert forall|a: int, p: usize| #[trigger] covered_with(new, a, p) implies (if s <= a < e {
        p == prot
    } else {
        covered_with(old, a, p)
    }) by {
        let j = choose|j: int| 0 <= j < new.len() && #[trigger] covers(new[j], a) && new[j].prot == p;
        if j != k {
            assert(covers(mid[j], a));
            if s <= a < e {
                assert(covered(mid, a));
            } else {
                assert(covered_with(mid, a, p));
            }
        }
    }
    assert forall|a: int, p: usize| (if s <= a < e {
        p == prot
    } else {
        covered_with(old, a, p)
    }) implies #[trigger] covered_with(new, a, p) by {
        if s <= a < e {
            assert(covers(new[k], a));
        } else {
            assert(covered_with(mid, a, p));
            let j = choose|j: int| 0 <= j < mid.len() && #[trigger] covers(mid[j], a) && mid[j].prot == p;
            assert(j != k);
            assert(covers(new[j], a));
        }
    }
}

/// Round `x` down to a multiple of the page size.
pub open spec fn align_down(x: int) -> int {
    x - x % 4096
}

/// `x - y`, or zero when `y > x`.
pub open spec fn sat_sub(x: int, y: int) -> int {
    if x >= y {
        x - y
    } else {
        0
    }
}

/// `m` is the lowest start of the active regions of `vmas` intersecting
/// `[lo, hi)`.
pub open spec fn is_lowest_overlap(vmas: Seq<VmaRegion>, lo: int, hi: int, m: int) -> bool {
    &&& exists|j: int| 0 <= j < vmas.len() && #[trigger] overlaps(vmas[j], lo, hi) && vmas[j].start == m
    &&& forall|j: int| 0 <= j < vmas.len() && #[trigger] overlaps(vmas[j], lo, hi) ==> m <= vmas[j].start
}

/// The lowest start of the active regions of `vmas` intersecting
/// `[lo, hi)`, if any intersects it.
pub open spec fn lowest_overlap(vmas: Seq<VmaRegion>, lo: int, hi: int) -> Option<int> {
    if exists|m: int| is_lowest_overlap(vmas, lo, hi, m) {
        Some(choose|m: int| is_lowest_overlap(vmas, lo, hi, m))
    } else {
        None
    }
}

/// The lowest start, when a region intersects the range, is `lowest_overlap`.
proof fn lemma_lowest_overlap(vmas: Seq<VmaRegion>, lo: int, hi: int, m: int)
    requires
        is_lowest_overlap(vmas, lo, hi, m),
    ensures
        lowest_overlap(vmas, lo, hi) == Some(m),
{
    let m2 = choose|m2: int| is_lowest_overlap(vmas, lo, hi, m2);
    let j = choose|j: int| 0 <= j < vmas.len() && #[trigger] overlaps(vmas[j], lo, hi) && vmas[j].start == m;
    let j2 = choose|j2: int| 0 <= j2 < vmas.len() && #[trigger] overlaps(vmas[j2], lo, hi) && vmas[j2].start == m2;
    assert(m <= vmas[j2].start);
    assert(m2 <= vmas[j].start);
}

/// The bump pointer that an mmap reservation starts from: `limit` when
/// the pointer is unset or below `base`, else the pointer.
pub open spec fn mmap_start(next: usize, base: usize, limit: usize) -> int {
    if next == 0 || next < base {
        limit as int
    } else {
        next as int
    }
}

/// Successive reservations do not overlap: after a reservation at `c1`,
/// which leaves the bump pointer at `c1` (at least `base`), the range of the
/// next reservation, `c2` for `len2` bytes, ends at or below `c1`.
pub proof fn lemma_next_reservation_below(c1: usize, base: usize, limit: usize, c2: int, len2: usize)
    requires
        0 < base <= c1,
        c2 + page_align_up(len2 as int) <= mmap_start(c1, base, limit),
    ensures
        c2 + page_align_up(len2 as int) <= c1,
{
}

/// The walk of an mmap reservation of `alen` bytes from bump pointer
/// `next`: the candidate is `next - alen` rounded down to a page; below
/// `base` the walk fails; a candidate range `[candidate, next)` that no
/// region meets is taken; else the pointer moves down to the lowest start
/// of the regions in the way (rounded down) and the walk goes on. Whether
/// a range was found, and where the pointer ends (the range's start when
/// found).
pub open spec fn reserve_walk(vmas: Seq<VmaRegion>, next: int, alen: int, base: int) -> (bool, int)
    decreases next,
{
    let cand = align_down(sat_sub(next, alen));
    if cand < base {
        (false, next)
    } else {
        match lowest_overlap(vmas, cand, next) {
            None => (true, cand),
            Some(cs) => if 0 <= align_down(cs) < next {
                reserve_walk(vmas, align_down(cs), alen, base)
            } else {
                (false, next)
            },
        }
    }
}

/// `c` is a page-aligned start, at or above `base`, whose `alen` bytes end
/// at or below `top` and meet no region of `vmas`: a place an mmap
/// reservation below `top` could take.
pub open spec fn mmap_fits(vmas: Seq<VmaRegion>, c: int, alen: int, base: int, top: int) -> bool {
    &&& c % 4096 == 0
    &&& base <= c
    &&& c + alen <= top
    &&& forall|j: int| 0 <= j < vmas.len() ==> !#[trigger] overlaps(vmas[j], c, c + alen)
}

/// Some region meeting `[lo, hi)` among the first `n` has the lowest start
/// of those that do.
proof fn lemma_min_start(vmas: Seq<VmaRegion>, lo: int, hi: int, n: int) -> (i: int)
    requires
        0 < n <= vmas.len(),
        exists|j: int| 0 <= j < n && #[trigger] overlaps(vmas[j], lo, hi),
    ensures
        0 <= i < n,
        overlaps(vmas[i], lo, hi),
        forall|j: int| 0 <= j < n && #[trigger] overlaps(vmas[j], lo, hi) ==> vmas[i].start <= vmas[j].start,
    decreases n,
{
    if exists|j: int| 0 <= j < n - 1 && #[trigger] overlaps(vmas[j], lo, hi) {
        let k = lemma_min_start(vmas, lo, hi, n - 1);
        if overlaps(vmas[n - 1], lo, hi) && vmas[n - 1].start < vmas[k].start {
            n - 1
        } else {
            k
        }
    } else {
        n - 1
    }
}

/// A page-aligned value at most `x` is at most `x` rounded down.
proof fn lemma_aligned_below(c: int, x: int)
    requires
        c % 4096 == 0,
        0 <= c <= x,
    ensures
        c <= align_down(x),
        align_down(x) % 4096 == 0,
        0 <= align_down(x) <= x,
{
    vstd::arithmetic::div_mod::lemma_fundamental_div_mod(c, 4096);
    vstd::arithmetic::div_mod::lemma_fundamental_div_mod(x, 4096);
    vstd::arithmetic::div_mod::lemma_mod_multiples_basic(x / 4096, 4096);
    assert(align_down(x) == 4096 * (x / 4096));
    vstd::arithmetic::div_mod::lemma_div_is_ordered(c, x, 4096);
}

/// A page-aligned value above `x` rounded down is above `x`.
proof fn lemma_aligned_above(y: int, x: int)
    requires
        y % 4096 == 0,
        0 <= x,
        y > align_down(x),
    ensures
        y > x,
{
    vstd::arithmetic::div_mod::lemma_fundamental_div_mod(y, 4096);
    vstd::arithmetic::div_mod::lemma_fundamental_div_mod(x, 4096);
}

/// The walk of a reservation takes the highest place that fits: when it
/// finds one, that place fits below `next` and no place that fits lies
/// above it; when it finds none, no place fits.
pub proof fn lemma_reserve_walk_highest(vmas: Seq<VmaRegion>, next: int, alen: int, base: int)
    requires
        0 < alen,
        alen % 4096 == 0,
        0 < base,
        0 <= next,
    ensures
        reserve_walk(vmas, next, alen, base).0 ==> mmap_fits(vmas, reserve_walk(vmas, next, alen, base).1, alen, base, next),
        forall|c: int|
            #[trigger] mmap_fits(vmas, c, alen, base, next) ==> reserve_walk(vmas, next, alen, base).0 && c
                <= reserve_walk(vmas, next, alen, base).1,
    decreases next,
{
    let x = sat_sub(next, alen);
    let cand = align_down(x);
    assert(0 <= x);
    lemma_aligned_below(0, x);
    assert forall|c: int| #[trigger] mmap_fits(vmas, c, alen, base, next) implies c <= cand by {
        lemma_aligned_below(c, x);
    }
    if cand < base {
    } else {
        assert(x == next - alen);
        match lowest_overlap(vmas, cand, next) {
            None => {
                assert forall|j: int| 0 <= j < vmas.len() implies !#[trigger] overlaps(vmas[j], cand, cand + alen) by {
                    if overlaps(vmas[j], cand, cand + alen) {
                        assert(overlaps(vmas[j], cand, next));
                        let i = lemma_min_start(vmas, cand, next, vmas.len() as int);
                        lemma_lowest_overlap(vmas, cand, next, vmas[i].start as int);
                    }
                }
                assert(mmap_fits(vmas, cand, alen, base, next));
            },
            Some(cs) => {
                let m = choose|m: int| is_lowest_overlap(vmas, cand, next, m);
                assert(is_lowest_overlap(vmas, cand, next, cs));
                let j = choose|j: int| 0 <= j < vmas.len() && #[trigger] overlaps(vmas[j], cand, next) && vmas[j].start == cs;
                lemma_aligned_below(0, cs);
                let nd = align_down(cs);
                lemma_reserve_walk_highest(vmas, nd, alen, base);
                assert forall|c: int| #[trigger] mmap_fits(vmas, c, alen, base, next) implies mmap_fits(
                    vmas,
                    c,
                    alen,
                    base,
                    nd,
                ) by {
                    if c + alen > nd {
                        vstd::arithmetic::div_mod::lemma_mod_adds(c, alen, 4096);
                        lemma_aligned_above(c + alen, cs);
                        assert(overlaps(vmas[j], c, c + alen));
                    }
                }
            },
        }
    }
}

/// Per-address-space VMA state.
pub struct VmState {
    pub vmas: Vec<VmaRegion>,
    pub next_mmap_addr: usize,
    pub max_elf_vaddr: usize,
}

impl VmState {
    /// The table has its fixed number of slots.
    pub open spec fn wf(&self) -> bool {
        self.vmas@.len() == MAX_VMAS
    }

    /// The regions of the table.
    pub open spec fn regions(&self) -> Seq<VmaRegion> {
        self.vmas@
    }

    /// No slot holds an active region and both address marks are zero.
    pub open spec fn is_empty_state(&self) -> bool {
        &&& self.wf()
        &&& forall|j: int| 0 <= j < self.vmas@.len() ==> !(#[trigger] self.vmas@[j]).active
        &&& self.next_mmap_addr == 0
        &&& self.max_elf_vaddr == 0
    }

    /// A fresh, empty state.
    pub fn new() -> (r: Self)
        ensures
            r.is_empty_state(),
    {
        let mut vmas: Vec<VmaRegion> = Vec::new();
        let mut i: usize = 0;
        while i < MAX_VMAS
            invariant
                i <= MAX_VMAS,
                vmas@.len() == i,
                forall|j: int| 0 <= j < i ==> !(#[trigger] vmas@[j]).active,
            decreases MAX_VMAS - i,
        {
            vmas.push(VmaRegion::empty());
            i = i + 1;
        }
        VmState { vmas, next_mmap_addr: 0, max_elf_vaddr: 0 }
    }

    /// Deactivate every region and reset both address marks.
    pub fn clear(&mut self)
        requires
            old(self).wf(),
        ensures
            final(self).is_empty_state(),
    {
        let mut i: usize = 0;
        while i < self.vmas.len()
            invariant
                i <= self.vmas@.len(),
                self.vmas@.len() == MAX_VMAS,
                forall|j: int| 0 <= j < i ==> !(#[trigger] self.vmas@[j]).active,
            decreases self.vmas@.len() - i,
        {
            self.vmas.set(i, VmaRegion::empty());
            i = i + 1;
        }
        self.next_mmap_addr = 0;
        self.max_elf_vaddr = 0;
    }

    /// Copy every region and both address marks from `other`.
    pub fn copy_from(&mut self, other: &VmState)
        requires
            old(self).wf(),
            other.wf(),
        ensures
            final(self).wf(),
            final(self).vmas@ == other.vmas@,
            final(self).next_mmap_addr == other.next_mmap_addr,
            final(self).max_elf_vaddr == other.max_elf_vaddr,
    {
        let mut i: usize = 0;
        while i < MAX_VMAS
            invariant
                i <= MAX_VMAS,
                self.vmas@.len() == MAX_VMAS,
                other.vmas@.len() == MAX_VMAS,
                forall|j: int| 0 <= j < i ==> #[trigger] self.vmas@[j] == other.vmas@[j],
            decreases MAX_VMAS - i,
        {
            self.vmas.set(i, other.vmas[i]);
            i = i + 1;
        }
        assert(self.vmas@ =~= other.vmas@);
        self.next_mmap_addr = other.next_mmap_addr;
        self.max_elf_vaddr = other.max_elf_vaddr;
    }

    /// The protection of the region a fault at `addr` is checked against:
    /// of the accessible regions covering `addr` the smallest (the first of
    /// equally small ones). `None` when no accessible region covers it.
    pub fn vma_check(&self, addr: usize) -> (r: Option<usize>)
        ensures
            check_result(self.vmas@, addr as int, r),
    {
        let mut best: Option<usize> = None;
        let mut best_prot: Option<usize> = None;
        let mut best_size: usize = usize::MAX;
        let ghost a = addr as int;
        let mut i: usize = 0;
        while i < self.vmas.len()
            invariant
                i <= self.vmas@.len(),
                a == addr as int,
                match best {
                    Some(b) => {
                        &&& b < i
                        &&& best_prot == Some(self.vmas@[b as int].prot)
                        &&& best_size == region_size(self.vmas@[b as int])
                        &&& covers(self.vmas@[b as int], a)
                        &&& self.vmas@[b as int].prot != 0
                        &&& forall|j: int|
                            0 <= j < i && #[trigger] covers(self.vmas@[j], a) && self.vmas@[j].prot
                                != 0 ==> region_size(self.vmas@[b as int]) < region_size(
                                self.vmas@[j],
                            ) || (region_size(self.vmas@[b as int]) == region_size(self.vmas@[j])
                                && b <= j)
                    },
                    None => {
                        &&& best_prot is None
                        &&& forall|j: int|
                            0 <= j < i ==> !(#[trigger] covers(self.vmas@[j], a) && self.vmas@[j].prot
                                != 0)
                    },
                },
            decreases self.vmas@.len() - i,
        {
            let vma = self.vmas[i];
            if vma.active && addr >= vma.start && addr < vma.end && vma.prot != 0 {
                let size = vma.end - vma.start;
                match best {
                    None => {
                        best = Some(i);
                        best_prot = Some(vma.prot);
                        best_size = size;
                    },
                    Some(_) => {
                        if size < best_size {
                            best = Some(i);
                            best_prot = Some(vma.prot);
                            best_size = size;
                        }
                    },
                }
            }
            i = i + 1;
        }
        proof {
            if let Some(b) = best {
                assert(is_best_accessible(self.vmas@, a, b as int));
            }
        }
        best_prot
    }

    /// The protection of the first region covering `addr` (PROT_NONE shows
    /// as `Some(0)`); `None` when no region covers it.
    pub fn vma_query(&self, addr: usize) -> (r: Option<usize>)
        ensures
            query_result(self.vmas@, addr as int, r),
    {
        let mut i: usize = 0;
        while i < self.vmas.len()
            invariant
                i <= self.vmas@.len(),
                forall|j: int| 0 <= j < i ==> !#[trigger] covers(self.vmas@[j], addr as int),
            decreases self.vmas@.len() - i,
        {
            let vma = self.vmas[i];
            if vma.active && addr >= vma.start && addr < vma.end {
                assert(is_first_cover(self.vmas@, addr as int, i as int));
                return Some(vma.prot);
            }
            i = i + 1;
        }
        None
    }

    /// Add `[start, end)` with `prot`. With `map_fixed` the regions
    /// overlapping the range are split or removed first, so that on success
    /// exactly this region covers the range and the rest is unchanged.
    /// Without it the region is placed in the first free slot as is. `Err`
    /// when no free slot is left.
    pub fn vma_add(&mut self, start: usize, end: usize, prot: usize, map_fixed: bool) -> (r: Result<
        (),
        (),
    >)
        requires
            old(self).wf(),
        ensures
            final(self).wf(),
            final(self).next_mmap_addr == old(self).next_mmap_addr,
            final(self).max_elf_vaddr == old(self).max_elf_vaddr,
            map_fixed && r is Ok ==> forall|a: int, p: usize| #[trigger]
                covered_with(final(self).vmas@, a, p) <==> if start <= a < end {
                    p == prot
                } else {
                    covered_with(old(self).vmas@, a, p)
                },
            map_fixed && r is Err ==> all_active(final(self).vmas@) && no_new_coverage(
                old(self).vmas@,
                final(self).vmas@,
            ),
            map_fixed && start < end && !all_active(old(self).vmas@) && (forall|j: int|
                0 <= j < old(self).vmas@.len() ==> !#[trigger] splits(old(self).vmas@[j], start as int, end as int))
                ==> r is Ok,
            !map_fixed && start >= end ==> r is Ok && final(self).vmas@ == old(self).vmas@,
            !map_fixed && start < end ==> (r is Ok <==> !all_active(old(self).vmas@)),
            !map_fixed && start < end && r is Ok ==> exists|k: int|
                is_first_free(old(self).vmas@, k) && final(self).vmas@ == old(self).vmas@.update(
                    k,
                    VmaRegion { start, end, prot, active: true },
                ),
            !map_fixed && r is Err ==> final(self).vmas@ == old(self).vmas@,
            map_fixed && start < end && regions_disjoint(old(self).vmas@) ==> regions_disjoint(final(self).vmas@),
            !map_fixed && regions_disjoint(old(self).vmas@) && (forall|j: int|
                0 <= j < old(self).vmas@.len() ==> !#[trigger] overlaps(old(self).vmas@[j], start as int, end as int))
                ==> regions_disjoint(final(self).vmas@),
    {
        if map_fixed {
            let res = split_overlapping_vmas(&mut self.vmas, start, end);
            if res.is_err() {
                return Err(());
            }
            let ghost mid = self.vmas@;
            let res2 = insert_vma(&mut self.vmas, start, end, prot);
            proof {
                if start < end && !all_active(old(self).vmas@) && (forall|j: int|
                    0 <= j < old(self).vmas@.len() ==> !#[trigger] splits(old(self).vmas@[j], start as int, end as int)) {
                    let k = choose|k: int| 0 <= k < old(self).vmas@.len() && !#[trigger] old(self).vmas@[k].active;
                    assert(!mid[k].active);
                }
                if res2.is_err() {
                    assert(no_new_coverage(old(self).vmas@, self.vmas@));
                } else if start < end {
                    let k = choose|k: int|
                        is_first_free(mid, k) && self.vmas@ == mid.update(
                            k,
                            VmaRegion { start, end, prot, active: true },
                        );
                    lemma_insert_into_hole(old(self).vmas@, mid, k, start as int, end as int, prot);
                    if regions_disjoint(old(self).vmas@) {
                        lemma_insert_disjoint(mid, k, VmaRegion { start, end, prot, active: true });
                    }
                }
            }
            res2
        } else {
            let res = insert_vma(&mut self.vmas, start, end, prot);
            proof {
                let o = old(self).vmas@;
                if res.is_ok() && start < end && regions_disjoint(o) && (forall|j: int|
                    0 <= j < o.len() ==> !#[trigger] overlaps(o[j], start as int, end as int)) {
                    let k = choose|k: int|
                        is_first_free(o, k) && self.vmas@ == o.update(k, VmaRegion { start, end, prot, active: true });
                    let v = VmaRegion { start, end, prot, active: true };
                    assert forall|a: int| #[trigger] covers(v, a) implies !covered(o, a) by {
                        if covered(o, a) {
                            let j = choose|j: int| 0 <= j < o.len() && #[trigger] covers(o[j], a);
                            assert(overlaps(o[j], start as int, end as int));
                        }
                    }
                    lemma_insert_disjoint(o, k, v);
                }
            }
            res
        }
    }

    /// Remove `[start, end)` from the table, keeping the parts of regions
    /// outside it. When a split finds no free slot the removal stops early
    /// (the table is then full); it never adds coverage.
    pub fn vma_remove_range(&mut self, start: usize, end: usize)
        requires
            old(self).wf(),
        ensures
            final(self).wf(),
            final(self).next_mmap_addr == old(self).next_mmap_addr,
            final(self).max_elf_vaddr == old(self).max_elf_vaddr,
            no_new_coverage(old(self).vmas@, final(self).vmas@),
            removal_result(old(self).vmas@, final(self).vmas@, start as int, end as int),
            start < end && regions_disjoint(old(self).vmas@) ==> regions_disjoint(final(self).vmas@),
    {
        let _ = split_overlapping_vmas(&mut self.vmas, start, end);
    }

    /// Set the protection of every active region intersecting `[start, end)`.
    pub fn vma_update_prot(&mut self, start: usize, end: usize, new_prot: usize)
        requires
            old(self).wf(),
        ensures
            final(self).wf(),
            final(self).next_mmap_addr == old(self).next_mmap_addr,
            final(self).max_elf_vaddr == old(self).max_elf_vaddr,
            forall|j: int|
                0 <= j < MAX_VMAS ==> #[trigger] final(self).vmas@[j] == if overlaps(
                    old(self).vmas@[j],
                    start as int,
                    end as int,
                ) {
                    VmaRegion { prot: new_prot, ..old(self).vmas@[j] }
                } else {
                    old(self).vmas@[j]
                },
    {
        let mut i: usize = 0;
        while i < self.vmas.len()
            invariant
                i <= self.vmas@.len(),
                self.vmas@.len() == MAX_VMAS,
                self.next_mmap_addr == old(self).next_mmap_addr,
                self.max_elf_vaddr == old(self).max_elf_vaddr,
                forall|j: int|
                    0 <= j < MAX_VMAS ==> #[trigger] self.vmas@[j] == if j < i && overlaps(
                        old(self).vmas@[j],
                        start as int,
                        end as int,
                    ) {
                        VmaRegion { prot: new_prot, ..old(self).vmas@[j] }
                    } else {
                        old(self).vmas@[j]
                    },
            decreases self.vmas@.len() - i,
        {
            let vma = self.vmas[i];
            if vma.active && vma.start < end && vma.end > start {
                self.vmas.set(i, VmaRegion { prot: new_prot, ..vma });
            }
            i = i + 1;
        }
    }

    /// Raise the mmap bump pointer and the ELF end mark to at least
    /// `min_addr` rounded up to a page.
    pub fn ensure_mmap_above(&mut self, min_addr: usize)
        requires
            min_addr <= usize::MAX - 4095,
        ensures
            final(self).vmas@ == old(self).vmas@,
            final(self).next_mmap_addr as int == if old(self).next_mmap_addr < page_align_up(
                min_addr as int,
            ) {
                page_align_up(min_addr as int)
            } else {
                old(self).next_mmap_addr as int
            },
            final(self).max_elf_vaddr as int == if old(self).max_elf_vaddr < page_align_up(
                min_addr as int,
            ) {
                page_align_up(min_addr as int)
            } else {
                old(self).max_elf_vaddr as int
            },
    {
        let x = min_addr + 4095;
        proof {
            crate::mm::addr::lemma_page_mask(x);
        }
        let aligned = x & !4095;
        if self.next_mmap_addr < aligned {
            self.next_mmap_addr = aligned;
        }
        if self.max_elf_vaddr < aligned {
            self.max_elf_vaddr = aligned;
        }
    }

    /// Whether `addr` belongs to the ELF load range: a load end is recorded,
    /// `0x400000 <= addr <` that end, and a region covers `addr`.
    pub fn vma_is_elf(&self, addr: usize) -> (r: bool)
        ensures
            r == (self.max_elf_vaddr != 0 && addr >= 0x400000 && addr < self.max_elf_vaddr
                && covered(self.vmas@, addr as int)),
    {
        if self.max_elf_vaddr == 0 || addr < 0x400000 || addr >= self.max_elf_vaddr {
            return false;
        }
        let mut i: usize = 0;
        while i < self.vmas.len()
            invariant
                i <= self.vmas@.len(),
                self.max_elf_vaddr != 0 && addr >= 0x400000 && addr < self.max_elf_vaddr,
                forall|j: int| 0 <= j < i ==> !#[trigger] covers(self.vmas@[j], addr as int),
            decreases self.vmas@.len() - i,
        {
            let v = self.vmas[i];
            if v.active && addr >= v.start && addr < v.end {
                assert(covers(self.vmas@[i as int], addr as int));
                return true;
            }
            i = i + 1;
        }
        false
    }

    /// The lowest start of the active regions intersecting `[lo, hi)`.
    pub fn lowest_overlap_start(&self, lo: usize, hi: usize) -> (r: Option<usize>)
        ensures
            r is None ==> forall|j: int|
                0 <= j < self.vmas@.len() ==> !#[trigger] overlaps(self.vmas@[j], lo as int, hi as int),
            r matches Some(m) ==> (exists|j: int|
                0 <= j < self.vmas@.len() && #[trigger] overlaps(self.vmas@[j], lo as int, hi as int)
                    && self.vmas@[j].start == m) && forall|j: int|
                0 <= j < self.vmas@.len() && #[trigger] overlaps(self.vmas@[j], lo as int, hi as int)
                    ==> m <= self.vmas@[j].start,
    {
        let mut best: Option<usize> = None;
        let mut i: usize = 0;
        while i < self.vmas.len()
            invariant
                i <= self.vmas@.len(),
                best is None ==> forall|j: int|
                    0 <= j < i ==> !#[trigger] overlaps(self.vmas@[j], lo as int, hi as int),
                best matches Some(m) ==> (exists|j: int|
                    0 <= j < i && #[trigger] overlaps(self.vmas@[j], lo as int, hi as int)
                        && self.vmas@[j].start == m) && forall|j: int|
                    0 <= j < i && #[trigger] overlaps(self.vmas@[j], lo as int, hi as int) ==> m
                        <= self.vmas@[j].start,
            decreases self.vmas@.len() - i,
        {
            let v = self.vmas[i];
            if v.active && v.start < hi && v.end > lo {
                assert(overlaps(self.vmas@[i as int], lo as int, hi as int));
                match best {
                    None => {
                        best = Some(v.start);
                    },
                    Some(m) => {
                        if v.start < m {
                            best = Some(v.start);
                        }
                    },
                }
            }
            i = i + 1;
        }
        best
    }

    /// Reserve `len` bytes (rounded up to pages) of mmap address space below
    /// the bump pointer, moving down past any region in the way. The bump
    /// pointer restarts at `limit` when unset or below `base`. On success the
    /// page-aligned start is returned, it is at least `base`, no region
    /// intersects the reserved range, and the bump pointer now points at it.
    /// `Err` when the next candidate would fall below `base`.
    pub fn reserve_mmap_addr(&mut self, len: usize, base: usize, limit: usize) -> (r: Result<
        usize,
        (),
    >)
        requires
            old(self).wf(),
            0 < base,
            len <= usize::MAX - 4095,
        ensures
            final(self).vmas@ == old(self).vmas@,
            final(self).max_elf_vaddr == old(self).max_elf_vaddr,
            r matches Ok(c) ==> {
                &&& c % 4096 == 0
                &&& base <= c
                &&& c + page_align_up(len as int) <= usize::MAX
                &&& final(self).next_mmap_addr == c
                &&& forall|j: int|
                    0 <= j < MAX_VMAS ==> !#[trigger] overlaps(
                        final(self).vmas@[j],
                        c as int,
                        c + page_align_up(len as int),
                    )
            },
            r is Err ==> align_down(sat_sub(final(self).next_mmap_addr as int, page_align_up(len as int)))
                < base,
            ({
                let w = reserve_walk(
                    old(self).vmas@,
                    mmap_start(old(self).next_mmap_addr, base, limit),
                    page_align_up(len as int),
                    base as int,
                );
                &&& r is Ok <==> w.0
                &&& final(self).next_mmap_addr == w.1
            }),
            r matches Ok(c) ==> c + page_align_up(len as int) <= mmap_start(old(self).next_mmap_addr, base, limit),
            len > 0 ==> forall|c2: int|
                #[trigger] mmap_fits(
                    old(self).vmas@,
                    c2,
                    page_align_up(len as int),
                    base as int,
                    mmap_start(old(self).next_mmap_addr, base, limit),
                ) ==> (r matches Ok(c) && c2 <= c),
    {
        let ghost n0 = mmap_start(old(self).next_mmap_addr, base, limit);
        proof {
            if len > 0 {
                lemma_aligned_below(0, len + 4095);
                lemma_reserve_walk_highest(old(self).vmas@, n0, page_align_up(len as int), base as int);
            }
        }
        let x = len + 4095;
        proof {
            crate::mm::addr::lemma_page_mask(x);
        }
        let aligned_len = x & !4095;
        if self.next_mmap_addr == 0 || self.next_mmap_addr < base {
            self.next_mmap_addr = limit;
        }
        loop
            invariant
                self.wf(),
                self.vmas@ == old(self).vmas@,
                self.max_elf_vaddr == old(self).max_elf_vaddr,
                aligned_len == page_align_up(len as int),
                0 < base,
                self.next_mmap_addr <= n0,
                n0 == mmap_start(old(self).next_mmap_addr, base, limit),
                len > 0 ==> forall|c2: int|
                    #[trigger] mmap_fits(old(self).vmas@, c2, page_align_up(len as int), base as int, n0) ==> reserve_walk(
                        old(self).vmas@,
                        n0,
                        page_align_up(len as int),
                        base as int,
                    ).0 && c2 <= reserve_walk(old(self).vmas@, n0, page_align_up(len as int), base as int).1,
                reserve_walk(self.vmas@, self.next_mmap_addr as int, aligned_len as int, base as int) == reserve_walk(
                    old(self).vmas@,
                    n0,
                    page_align_up(len as int),
                    base as int,
                ),
            decreases self.next_mmap_addr,
        {
            let next = self.next_mmap_addr;
            let sub = next.saturating_sub(aligned_len);
            proof {
                crate::mm::addr::lemma_page_mask(sub);
            }
            let candidate = sub & !4095;
            assert(sub as int == sat_sub(next as int, aligned_len as int));
            assert(candidate as int == align_down(sat_sub(next as int, aligned_len as int)));
            if candidate < base {
                assert(reserve_walk(self.vmas@, next as int, aligned_len as int, base as int) == (false, next as int));
                return Err(());
            }
            assert(candidate + aligned_len <= next);
            match self.lowest_overlap_start(candidate, next) {
                Some(cs) => {
                    proof {
                        crate::mm::addr::lemma_page_mask(cs);
                        lemma_lowest_overlap(self.vmas@, candidate as int, next as int, cs as int);
                        let j = choose|j: int|
                            0 <= j < self.vmas@.len() && #[trigger] overlaps(self.vmas@[j], candidate as int, next as int)
                                && self.vmas@[j].start == cs;
                        assert(cs < next);
                    }
                    self.next_mmap_addr = cs & !4095;
                },
                None => {
                    proof {
                        if exists|m: int| is_lowest_overlap(self.vmas@, candidate as int, next as int, m) {
                            let m = choose|m: int| is_lowest_overlap(self.vmas@, candidate as int, next as int, m);
                            let j = choose|j: int|
                                0 <= j < self.vmas@.len() && #[trigger] overlaps(self.vmas@[j], candidate as int, next as int)
                                    && self.vmas@[j].start == m;
                        }
                    }
                    assert(lowest_overlap(self.vmas@, candidate as int, next as int) is None);
                    assert(reserve_walk(self.vmas@, next as int, aligned_len as int, base as int) == (true, candidate as int));
                    self.next_mmap_addr = candidate;
                    assert forall|j: int| 0 <= j < MAX_VMAS implies !#[trigger] overlaps(
                        self.vmas@[j],
                        candidate as int,
                        candidate + page_align_up(len as int),
                    ) by {
                        assert(!overlaps(self.vmas@[j], candidate as int, next as int));
                    }
                    return Ok(candidate);
                },
            }
        }
    }

    /// Whether `[start, end)` intersects an active region.
    pub fn vma_overlaps(&self, start: usize, end: usize) -> (r: bool)
        ensures
            r == exists|j: int|
                0 <= j < self.vmas@.len() && #[trigger] overlaps(self.vmas@[j], start as int, end as int),
    {
        let mut i: usize = 0;
        while i < self.vmas.len()
            invariant
                i <= self.vmas@.len(),
                forall|j: int|
                    0 <= j < i ==> !#[trigger] overlaps(self.vmas@[j], start as int, end as int),
            decreases self.vmas@.len() - i,
        {
            let vma = self.vmas[i];
            if vma.active && vma.start < end && vma.end > start {
                assert(overlaps(self.vmas@[i as int], start as int, end as int));
                return true;
            }
            i = i + 1;
        }
        false
    }
}


/// Upper bound of deliberate stack scratch space used by this module: the
/// tables live in the registry, mutations are in place.
pub fn max_stack_scratch_bytes() -> (r: usize)
    ensures
        r == 0,
{
    0
}

/// A slot of the registry, keyed by page table root.
pub struct VmStateSlot {
    pub root: usize,
    pub active: bool,
    pub state: VmState,
}

/// The registry of address spaces: one slot per page table root, and the
/// bounds `[mmap_base, mmap_limit)` of the mmap area.
pub struct VmRegistry {
    pub slots: Vec<VmStateSlot>,
    pub mmap_base: usize,
    pub mmap_limit: usize,
}

/// Slot `i` is active and holds `root`.
pub open spec fn holds_root(slots: Seq<VmStateSlot>, root: usize, i: int) -> bool {
    0 <= i < slots.len() && slots[i].active && slots[i].root == root
}

/// `i` is the first slot holding `root`: the one lookups use.
pub open spec fn is_slot_of(slots: Seq<VmStateSlot>, root: usize, i: int) -> bool {
    &&& holds_root(slots, root, i)
    &&& forall|j: int| 0 <= j < i ==> !#[trigger] holds_root(slots, root, j)
}

/// `root` has a slot.
pub open spec fn registered(slots: Seq<VmStateSlot>, root: usize) -> bool {
    exists|i: int| #[trigger] holds_root(slots, root, i)
}

/// No two active slots hold the same root.
pub open spec fn unique_roots(slots: Seq<VmStateSlot>) -> bool {
    forall|i: int, j: int|
        #[trigger] holds_root(slots, slots[i].root, i) && #[trigger] holds_root(slots, slots[j].root, j)
            && slots[i].root == slots[j].root ==> i == j
}

/// Only the state of slot `i` may differ between `old` and `new`.
pub open spec fn only_state_changed(old: Seq<VmStateSlot>, new: Seq<VmStateSlot>, i: int) -> bool {
    &&& new.len() == old.len()
    &&& 0 <= i < old.len()
    &&& new[i].root == old[i].root
    &&& new[i].active == old[i].active
    &&& forall|j: int| 0 <= j < old.len() && j != i ==> #[trigger] new[j] == old[j]
}

/// Every slot of `slots` is active.
pub open spec fn all_slots_active(slots: Seq<VmStateSlot>) -> bool {
    forall|j: int| 0 <= j < slots.len() ==> #[trigger] slots[j].active
}

impl VmRegistry {
    /// Every state has its fixed size and the mmap area is well placed.
    pub open spec fn wf(&self) -> bool {
        &&& forall|j: int| 0 <= j < self.slots@.len() ==> (#[trigger] self.slots@[j]).state.wf()
        &&& 0 < self.mmap_base
    }

    /// A registry of `capacity` free slots for the mmap area
    /// `[mmap_base, mmap_limit)`.
    pub fn new(capacity: usize, mmap_base: usize, mmap_limit: usize) -> (r: Self)
        requires
            0 < mmap_base,
        ensures
            r.wf(),
            r.slots@.len() == capacity,
            r.mmap_base == mmap_base,
            r.mmap_limit == mmap_limit,
            forall|j: int| 0 <= j < capacity ==> !(#[trigger] r.slots@[j]).active,
    {
        let mut slots: Vec<VmStateSlot> = Vec::new();
        let mut i: usize = 0;
        while i < capacity
            invariant
                i <= capacity,
                slots@.len() == i,
                forall|j: int| 0 <= j < i ==> (#[trigger] slots@[j]).state.wf() && !slots@[j].active,
            decreases capacity - i,
        {
            slots.push(VmStateSlot { root: 0, active: false, state: VmState::new() });
            i = i + 1;
        }
        VmRegistry { slots, mmap_base, mmap_limit }
    }

    /// The first slot holding `root`.
    pub fn find_slot(&self, root: usize) -> (r: Option<usize>)
        ensures
            r matches Some(i) ==> is_slot_of(self.slots@, root, i as int),
            r is None ==> !registered(self.slots@, root),
    {
        let mut i: usize = 0;
        while i < self.slots.len()
            invariant
                i <= self.slots@.len(),
                forall|j: int| 0 <= j < i ==> !#[trigger] holds_root(self.slots@, root, j),
            decreases self.slots@.len() - i,
        {
            if self.slots[i].active && self.slots[i].root == root {
                return Some(i);
            }
            i = i + 1;
        }
        None
    }

    /// The first free slot.
    fn find_free(&self) -> (r: Option<usize>)
        ensures
            r matches Some(k) ==> 0 <= k < self.slots@.len() && !self.slots@[k as int].active
                && forall|j: int| 0 <= j < k ==> #[trigger] self.slots@[j].active,
            r is None ==> all_slots_active(self.slots@),
    {
        let mut i: usize = 0;
        while i < self.slots.len()
            invariant
                i <= self.slots@.len(),
                forall|j: int| 0 <= j < i ==> #[trigger] self.slots@[j].active,
            decreases self.slots@.len() - i,
        {
            if !self.slots[i].active {
                return Some(i);
            }
            i = i + 1;
        }
        None
    }
}

/// Register the address space of `root` with an empty state (an existing
/// registration is cleared). `Err` for the null root or a full registry.
pub fn init_root(reg: &mut VmRegistry, root: usize) -> (r: Result<(), ()>)
    requires
        old(reg).wf(),
    ensures
        final(reg).wf(),
        final(reg).mmap_base == old(reg).mmap_base,
        final(reg).mmap_limit == old(reg).mmap_limit,
        final(reg).slots@.len() == old(reg).slots@.len(),
        r is Ok <==> root != 0 && (registered(old(reg).slots@, root) || !all_slots_active(
            old(reg).slots@,
        )),
        r is Ok ==> exists|i: int|
            #![trigger final(reg).slots@[i]]
            is_slot_of(final(reg).slots@, root, i) && final(reg).slots@[i].state.is_empty_state()
                && forall|j: int|
                0 <= j < old(reg).slots@.len() && j != i ==> #[trigger] final(reg).slots@[j] == old(
                    reg,
                ).slots@[j],
        r is Ok && registered(old(reg).slots@, root) ==> forall|i: int|
            is_slot_of(old(reg).slots@, root, i) ==> #[trigger] is_slot_of(final(reg).slots@, root, i),
        r is Ok && unique_roots(old(reg).slots@) ==> unique_roots(final(reg).slots@),
        r is Err ==> final(reg).slots@ == old(reg).slots@,
{
    if root == 0 {
        return Err(());
    }
    match reg.find_slot(root) {
        Some(i) => {
            let slot = &mut reg.slots[i];
            slot.state.clear();
            proof {
                assert forall|j: int| 0 <= j < i implies !#[trigger] holds_root(reg.slots@, root, j) by {
                    assert(!holds_root(old(reg).slots@, root, j));
                }
                assert(is_slot_of(reg.slots@, root, i as int));
                assert forall|a: int, b: int|
                    #[trigger] holds_root(reg.slots@, reg.slots@[a].root, a) && #[trigger] holds_root(
                        reg.slots@,
                        reg.slots@[b].root,
                        b,
                    ) && reg.slots@[a].root == reg.slots@[b].root && unique_roots(
                        old(reg).slots@,
                    ) implies a == b by {
                    assert(holds_root(old(reg).slots@, old(reg).slots@[a].root, a));
                    assert(holds_root(old(reg).slots@, old(reg).slots@[b].root, b));
                }
            }
            Ok(())
        },
        None => {
            match reg.find_free() {
                Some(k) => {
                    let slot = &mut reg.slots[k];
                    slot.root = root;
                    slot.active = true;
                    slot.state.clear();
                    proof {
                        assert forall|j: int| 0 <= j < k implies !#[trigger] holds_root(
                            reg.slots@,
                            root,
                            j,
                        ) by {
                            assert(!holds_root(old(reg).slots@, root, j));
                        }
                        assert(is_slot_of(reg.slots@, root, k as int));
                        assert forall|a: int, b: int|
                            #[trigger] holds_root(reg.slots@, reg.slots@[a].root, a) && #[trigger] holds_root(
                                reg.slots@,
                                reg.slots@[b].root,
                                b,
                            ) && reg.slots@[a].root == reg.slots@[b].root && unique_roots(
                                old(reg).slots@,
                            ) implies a == b by {
                            if a != k && b != k {
                                assert(holds_root(old(reg).slots@, old(reg).slots@[a].root, a));
                                assert(holds_root(old(reg).slots@, old(reg).slots@[b].root, b));
                            } else if a == k && b != k {
                                assert(holds_root(old(reg).slots@, root, b));
                            } else if a != k && b == k {
                                assert(holds_root(old(reg).slots@, root, a));
                            }
                        }
                    }
                    Ok(())
                },
                None => Err(()),
            }
        },
    }
}


/// Drop the registration of `root` (its first slot), freeing the slot.
pub fn release_root(reg: &mut VmRegistry, root: usize)
    requires
        old(reg).wf(),
    ensures
        final(reg).wf(),
        final(reg).mmap_base == old(reg).mmap_base,
        final(reg).mmap_limit == old(reg).mmap_limit,
        final(reg).slots@.len() == old(reg).slots@.len(),
        root == 0 || !registered(old(reg).slots@, root) ==> final(reg).slots@ == old(reg).slots@,
        root != 0 ==> forall|i: int|
            #![trigger old(reg).slots@[i]]
            is_slot_of(old(reg).slots@, root, i) ==> !final(reg).slots@[i].active
                && final(reg).slots@[i].root == 0 && final(reg).slots@[i].state.is_empty_state()
                && forall|j: int|
                0 <= j < old(reg).slots@.len() && j != i ==> #[trigger] final(reg).slots@[j] == old(
                    reg,
                ).slots@[j],
        root != 0 && unique_roots(old(reg).slots@) ==> !registered(final(reg).slots@, root)
            && unique_roots(final(reg).slots@),
{
    if root == 0 {
        return ;
    }
    match reg.find_slot(root) {
        Some(i) => {
            let slot = &mut reg.slots[i];
            slot.active = false;
            slot.root = 0;
            slot.state.clear();
            proof {
                assert forall|a: int, b: int|
                    #[trigger] holds_root(reg.slots@, reg.slots@[a].root, a) && #[trigger] holds_root(
                        reg.slots@,
                        reg.slots@[b].root,
                        b,
                    ) && reg.slots@[a].root == reg.slots@[b].root && unique_roots(
                        old(reg).slots@,
                    ) implies a == b by {
                    assert(holds_root(old(reg).slots@, old(reg).slots@[a].root, a));
                    assert(holds_root(old(reg).slots@, old(reg).slots@[b].root, b));
                }
                if unique_roots(old(reg).slots@) {
                    assert forall|j: int| !#[trigger] holds_root(reg.slots@, root, j) by {
                        if holds_root(reg.slots@, root, j) {
                            assert(holds_root(old(reg).slots@, old(reg).slots@[j].root, j));
                            assert(holds_root(old(reg).slots@, old(reg).slots@[i as int].root, i as int));
                        }
                    }
                }
            }
        },
        None => {},
    }
}

/// `new` is `old` with a free slot `d` now holding `dst_root` and a copy of
/// the state of a slot `s` holding `src_root`; every other slot unchanged.
pub open spec fn cloned_into(old: Seq<VmStateSlot>, new: Seq<VmStateSlot>, src_root: usize, dst_root: usize) -> bool {
    new.len() == old.len() && exists|s: int, d: int|
        #![trigger old[s], new[d]]
        holds_root(old, src_root, s) && 0 <= d < old.len() && !old[d].active && new[d].active && new[d].root
            == dst_root && new[d].state.vmas@ == old[s].state.vmas@ && new[d].state.next_mmap_addr
            == old[s].state.next_mmap_addr && new[d].state.max_elf_vaddr == old[s].state.max_elf_vaddr
            && forall|j: int| 0 <= j < old.len() && j != d ==> #[trigger] new[j] == old[j]
}

/// Give `dst_root` a copy of the state of `src_root` (on fork): the last
/// slot holding `src_root` is copied into the first free slot. `Err` for a
/// null root, an unregistered source or a full registry.
pub fn clone_root_state(reg: &mut VmRegistry, src_root: usize, dst_root: usize) -> (r: Result<(), ()>)
    requires
        old(reg).wf(),
    ensures
        final(reg).wf(),
        final(reg).mmap_base == old(reg).mmap_base,
        final(reg).mmap_limit == old(reg).mmap_limit,
        final(reg).slots@.len() == old(reg).slots@.len(),
        r is Ok <==> src_root != 0 && dst_root != 0 && registered(old(reg).slots@, src_root)
            && !all_slots_active(old(reg).slots@),
        r is Err ==> final(reg).slots@ == old(reg).slots@,
        r is Ok ==> cloned_into(old(reg).slots@, final(reg).slots@, src_root, dst_root),
{
    if src_root == 0 || dst_root == 0 {
        return Err(());
    }
    let mut src_idx: Option<usize> = None;
    let mut dst_idx: Option<usize> = None;
    let mut i: usize = 0;
    while i < reg.slots.len()
        invariant
            i <= reg.slots@.len(),
            src_idx matches Some(s) ==> s < i && holds_root(reg.slots@, src_root, s as int),
            src_idx is None ==> forall|j: int| 0 <= j < i ==> !#[trigger] holds_root(reg.slots@, src_root, j),
            dst_idx matches Some(d) ==> d < i && !reg.slots@[d as int].active,
            dst_idx is None ==> forall|j: int| 0 <= j < i ==> #[trigger] reg.slots@[j].active,
        decreases reg.slots@.len() - i,
    {
        if reg.slots[i].active && reg.slots[i].root == src_root {
            src_idx = Some(i);
        }
        if !reg.slots[i].active && dst_idx.is_none() {
            dst_idx = Some(i);
        }
        i = i + 1;
    }
    let src_i = match src_idx {
        Some(x) => x,
        None => return Err(()),
    };
    let dst_i = match dst_idx {
        Some(x) => x,
        None => return Err(()),
    };
    let mut copy = VmState::new();
    copy.copy_from(&reg.slots[src_i].state);
    let slot = &mut reg.slots[dst_i];
    slot.state = copy;
    slot.root = dst_root;
    slot.active = true;
    proof {
        let ss = src_i as int;
        let dd = dst_i as int;
        assert(holds_root(old(reg).slots@, src_root, ss));
        assert(reg.slots@[dd].state.vmas@ == old(reg).slots@[ss].state.vmas@);
        assert(forall|j: int|
            0 <= j < old(reg).slots@.len() && j != dd ==> #[trigger] reg.slots@[j] == old(reg).slots@[j]);
        assert(old(reg).slots@[ss] == old(reg).slots@[ss] && reg.slots@[dd] == reg.slots@[dd]);
    }
    Ok(())
}

/// The protection a fault at `addr` in the address space of `root` is
/// checked against (see `VmState::vma_check`); `None` for an unregistered
/// root.
pub fn vma_check(reg: &VmRegistry, root: usize, addr: usize) -> (r: Option<usize>)
    ensures
        !registered(reg.slots@, root) ==> r is None,
        forall|i: int|
            #[trigger] is_slot_of(reg.slots@, root, i) ==> check_result(
                reg.slots@[i].state.vmas@,
                addr as int,
                r,
            ),
{
    match reg.find_slot(root) {
        Some(i) => {
            let r = reg.slots[i].state.vma_check(addr);
            proof {
                lemma_slot_of_unique(reg.slots@, root, i as int);
            }
            r
        },
        None => None,
    }
}

/// The first slot holding a root is unique.
pub proof fn lemma_slot_of_unique(slots: Seq<VmStateSlot>, root: usize, i: int)
    requires
        is_slot_of(slots, root, i),
    ensures
        forall|j: int| #[trigger] is_slot_of(slots, root, j) ==> j == i,
{
    assert forall|j: int| #[trigger] is_slot_of(slots, root, j) implies j == i by {
        if j < i {
            assert(holds_root(slots, root, j));
        } else if j > i {
            assert(holds_root(slots, root, i));
        }
    }
}

/// The protection of the first region covering `addr` in the address
/// space of `root` (PROT_NONE shows as `Some(0)`); `None` when no region
/// covers it or the root is unregistered.
pub fn vma_query(reg: &VmRegistry, root: usize, addr: usize) -> (r: Option<usize>)
    ensures
        !registered(reg.slots@, root) ==> r is None,
        forall|i: int|
            #[trigger] is_slot_of(reg.slots@, root, i) ==> query_result(
                reg.slots@[i].state.vmas@,
                addr as int,
                r,
            ),
{
    match reg.find_slot(root) {
        Some(i) => {
            let r = reg.slots[i].state.vma_query(addr);
            proof {
                lemma_slot_of_unique(reg.slots@, root, i as int);
            }
            r
        },
        None => None,
    }
}

/// Whether `[start, end)` intersects a region of the address space of
/// `root`; `false` for an unregistered root.
pub fn vma_overlaps(reg: &VmRegistry, root: usize, start: usize, end: usize) -> (r: bool)
    ensures
        !registered(reg.slots@, root) ==> !r,
        forall|i: int|
            #[trigger] is_slot_of(reg.slots@, root, i) ==> r == exists|j: int|
                0 <= j < reg.slots@[i].state.vmas@.len() && #[trigger] overlaps(
                    reg.slots@[i].state.vmas@[j],
                    start as int,
                    end as int,
                ),
{
    match reg.find_slot(root) {
        Some(i) => {
            let r = reg.slots[i].state.vma_overlaps(start, end);
            proof {
                lemma_slot_of_unique(reg.slots@, root, i as int);
            }
            r
        },
        None => false,
    }
}

/// Whether `addr` lies in the ELF load range of the address space of
/// `root` (see `VmState::vma_is_elf`); `false` for an unregistered root.
pub fn vma_is_elf(reg: &VmRegistry, root: usize, addr: usize) -> (r: bool)
    ensures
        !registered(reg.slots@, root) ==> !r,
        forall|i: int|
            #[trigger] is_slot_of(reg.slots@, root, i) ==> r == (reg.slots@[i].state.max_elf_vaddr
                != 0 && addr >= 0x400000 && addr < reg.slots@[i].state.max_elf_vaddr && covered(
                reg.slots@[i].state.vmas@,
                addr as int,
            )),
{
    match reg.find_slot(root) {
        Some(i) => {
            let r = reg.slots[i].state.vma_is_elf(addr);
            proof {
                lemma_slot_of_unique(reg.slots@, root, i as int);
            }
            r
        },
        None => false,
    }
}


/// What adding `[start, end)` with `prot` does to a state (see
/// `VmState::vma_add`).
pub open spec fn vma_add_post(
    old: VmState,
    new: VmState,
    start: usize,
    end: usize,
    prot: usize,
    map_fixed: bool,
    r: Result<(), ()>,
) -> bool {
    &&& new.wf()
    &&& new.next_mmap_addr == old.next_mmap_addr
    &&& new.max_elf_vaddr == old.max_elf_vaddr
    &&& map_fixed && r is Ok ==> forall|a: int, p: usize| #[trigger]
        covered_with(new.vmas@, a, p) <==> if start <= a < end {
            p == prot
        } else {
            covered_with(old.vmas@, a, p)
        }
    &&& map_fixed && r is Err ==> all_active(new.vmas@) && no_new_coverage(old.vmas@, new.vmas@)
    &&& map_fixed && start < end && !all_active(old.vmas@) && (forall|j: int|
        0 <= j < old.vmas@.len() ==> !#[trigger] splits(old.vmas@[j], start as int, end as int)) ==> r is Ok
    &&& !map_fixed && start >= end ==> r is Ok && new.vmas@ == old.vmas@
    &&& !map_fixed && start < end ==> (r is Ok <==> !all_active(old.vmas@))
    &&& !map_fixed && start < end && r is Ok ==> exists|k: int|
        is_first_free(old.vmas@, k) && new.vmas@ == old.vmas@.update(
            k,
            VmaRegion { start, end, prot, active: true },
        )
    &&& !map_fixed && r is Err ==> new.vmas@ == old.vmas@
    &&& map_fixed && start < end && regions_disjoint(old.vmas@) ==> regions_disjoint(new.vmas@)
    &&& !map_fixed && regions_disjoint(old.vmas@) && (forall|j: int|
        0 <= j < old.vmas@.len() ==> !#[trigger] overlaps(old.vmas@[j], start as int, end as int))
        ==> regions_disjoint(new.vmas@)
}

/// Add a region to the address space of `root` (see `VmState::vma_add`).
/// `Err` for an unregistered root or when no free slot is left.
pub fn vma_add(
    reg: &mut VmRegistry,
    root: usize,
    start: usize,
    end: usize,
    prot: usize,
    map_fixed: bool,
) -> (r: Result<(), ()>)
    requires
        old(reg).wf(),
    ensures
        final(reg).wf(),
        final(reg).mmap_base == old(reg).mmap_base,
        final(reg).mmap_limit == old(reg).mmap_limit,
        !registered(old(reg).slots@, root) ==> r is Err && final(reg).slots@ == old(reg).slots@,
        forall|i: int|
            #[trigger] is_slot_of(old(reg).slots@, root, i) ==> only_state_changed(
                old(reg).slots@,
                final(reg).slots@,
                i,
            ) && vma_add_post(
                old(reg).slots@[i].state,
                final(reg).slots@[i].state,
                start,
                end,
                prot,
                map_fixed,
                r,
            ),
{
    match reg.find_slot(root) {
        Some(i) => {
            proof {
                lemma_slot_of_unique(old(reg).slots@, root, i as int);
            }
            let slot = &mut reg.slots[i];
            let r = slot.state.vma_add(start, end, prot, map_fixed);
            r
        },
        None => Err(()),
    }
}

/// Register an ELF load segment as a region (never forced over others).
pub fn register_elf_vma(reg: &mut VmRegistry, root: usize, start: usize, end: usize, prot: usize)
    requires
        old(reg).wf(),
    ensures
        final(reg).wf(),
        final(reg).mmap_base == old(reg).mmap_base,
        final(reg).mmap_limit == old(reg).mmap_limit,
        !registered(old(reg).slots@, root) ==> final(reg).slots@ == old(reg).slots@,
        forall|i: int|
            #[trigger] is_slot_of(old(reg).slots@, root, i) ==> only_state_changed(
                old(reg).slots@,
                final(reg).slots@,
                i,
            ) && exists|r: Result<(), ()>|
                vma_add_post(
                    old(reg).slots@[i].state,
                    final(reg).slots@[i].state,
                    start,
                    end,
                    prot,
                    false,
                    r,
                ),
{
    let r = vma_add(reg, root, start, end, prot, false);
}

/// Remove `[start, end)` from the address space of `root` (see
/// `VmState::vma_remove_range`).
pub fn vma_remove_range(reg: &mut VmRegistry, root: usize, start: usize, end: usize)
    requires
        old(reg).wf(),
    ensures
        final(reg).wf(),
        final(reg).mmap_base == old(reg).mmap_base,
        final(reg).mmap_limit == old(reg).mmap_limit,
        !registered(old(reg).slots@, root) ==> final(reg).slots@ == old(reg).slots@,
        forall|i: int|
            #[trigger] is_slot_of(old(reg).slots@, root, i) ==> {
                let o = old(reg).slots@[i].state;
                let n = final(reg).slots@[i].state;
                &&& only_state_changed(old(reg).slots@, final(reg).slots@, i)
                &&& n.wf()
                &&& n.next_mmap_addr == o.next_mmap_addr
                &&& n.max_elf_vaddr == o.max_elf_vaddr
                &&& no_new_coverage(o.vmas@, n.vmas@)
                &&& removal_result(o.vmas@, n.vmas@, start as int, end as int)
                &&& start < end && regions_disjoint(o.vmas@) ==> regions_disjoint(n.vmas@)
            },
{
    match reg.find_slot(root) {
        Some(i) => {
            proof {
                lemma_slot_of_unique(old(reg).slots@, root, i as int);
            }
            let slot = &mut reg.slots[i];
            slot.state.vma_remove_range(start, end);
        },
        None => {},
    }
}

/// Set the protection of every region of the address space of `root`
/// that intersects `[start, end)`.
pub fn vma_update_prot(reg: &mut VmRegistry, root: usize, start: usize, end: usize, new_prot: usize)
    requires
        old(reg).wf(),
    ensures
        final(reg).wf(),
        final(reg).mmap_base == old(reg).mmap_base,
        final(reg).mmap_limit == old(reg).mmap_limit,
        !registered(old(reg).slots@, root) ==> final(reg).slots@ == old(reg).slots@,
        forall|i: int|
            #[trigger] is_slot_of(old(reg).slots@, root, i) ==> {
                let o = old(reg).slots@[i].state;
                let n = final(reg).slots@[i].state;
                &&& only_state_changed(old(reg).slots@, final(reg).slots@, i)
                &&& n.wf()
                &&& n.next_mmap_addr == o.next_mmap_addr
                &&& n.max_elf_vaddr == o.max_elf_vaddr
                &&& forall|j: int|
                    0 <= j < MAX_VMAS ==> #[trigger] n.vmas@[j] == if overlaps(
                        o.vmas@[j],
                        start as int,
                        end as int,
                    ) {
                        VmaRegion { prot: new_prot, ..o.vmas@[j] }
                    } else {
                        o.vmas@[j]
                    }
            },
{
    match reg.find_slot(root) {
        Some(i) => {
            proof {
                lemma_slot_of_unique(old(reg).slots@, root, i as int);
            }
            let slot = &mut reg.slots[i];
            slot.state.vma_update_prot(start, end, new_prot);
        },
        None => {},
    }
}

/// Raise the mmap bump pointer and ELF end mark of the address space of
/// `root` to at least `min_addr` rounded up to a page.
pub fn ensure_mmap_above(reg: &mut VmRegistry, root: usize, min_addr: usize)
    requires
        old(reg).wf(),
        min_addr <= usize::MAX - 4095,
    ensures
        final(reg).wf(),
        final(reg).mmap_base == old(reg).mmap_base,
        final(reg).mmap_limit == old(reg).mmap_limit,
        !registered(old(reg).slots@, root) ==> final(reg).slots@ == old(reg).slots@,
        forall|i: int|
            #[trigger] is_slot_of(old(reg).slots@, root, i) ==> {
                let o = old(reg).slots@[i].state;
                let n = final(reg).slots@[i].state;
                &&& only_state_changed(old(reg).slots@, final(reg).slots@, i)
                &&& n.vmas@ == o.vmas@
                &&& n.next_mmap_addr as int == if o.next_mmap_addr < page_align_up(min_addr as int) {
                    page_align_up(min_addr as int)
                } else {
                    o.next_mmap_addr as int
                }
                &&& n.max_elf_vaddr as int == if o.max_elf_vaddr < page_align_up(min_addr as int) {
                    page_align_up(min_addr as int)
                } else {
                    o.max_elf_vaddr as int
                }
            },
{
    match reg.find_slot(root) {
        Some(i) => {
            proof {
                lemma_slot_of_unique(old(reg).slots@, root, i as int);
            }
            let slot = &mut reg.slots[i];
            slot.state.ensure_mmap_above(min_addr);
        },
        None => {},
    }
}

/// Reserve `len` bytes of mmap address space in the address space of
/// `root` (see `VmState::reserve_mmap_addr`, with the registry's mmap
/// area). `Err` for an unregistered root.
pub fn reserve_mmap_addr(reg: &mut VmRegistry, root: usize, len: usize) -> (r: Result<usize, ()>)
    requires
        old(reg).wf(),
        len <= usize::MAX - 4095,
    ensures
        final(reg).wf(),
        final(reg).mmap_base == old(reg).mmap_base,
        final(reg).mmap_limit == old(reg).mmap_limit,
        !registered(old(reg).slots@, root) ==> r is Err && final(reg).slots@ == old(reg).slots@,
        forall|i: int|
            #[trigger] is_slot_of(old(reg).slots@, root, i) ==> {
                let o = old(reg).slots@[i].state;
                let n = final(reg).slots@[i].state;
                &&& only_state_changed(old(reg).slots@, final(reg).slots@, i)
                &&& n.vmas@ == o.vmas@
                &&& n.max_elf_vaddr == o.max_elf_vaddr
                &&& r matches Ok(c) ==> {
                    &&& c % 4096 == 0
                    &&& old(reg).mmap_base <= c
                    &&& c + page_align_up(len as int) <= usize::MAX
                    &&& n.next_mmap_addr == c
                    &&& forall|j: int|
                        0 <= j < MAX_VMAS ==> !#[trigger] overlaps(
                            n.vmas@[j],
                            c as int,
                            c + page_align_up(len as int),
                        )
                }
                &&& r is Err ==> align_down(sat_sub(n.next_mmap_addr as int, page_align_up(len as int)))
                    < old(reg).mmap_base
                &&& {
                    let w = reserve_walk(
                        o.vmas@,
                        mmap_start(o.next_mmap_addr, old(reg).mmap_base, old(reg).mmap_limit),
                        page_align_up(len as int),
                        old(reg).mmap_base as int,
                    );
                    &&& r is Ok <==> w.0
                    &&& n.next_mmap_addr == w.1
                }
                &&& r matches Ok(c) ==> c + page_align_up(len as int) <= mmap_start(
                    o.next_mmap_addr,
                    old(reg).mmap_base,
                    old(reg).mmap_limit,
                )
            },
{
    let base = reg.mmap_base;
    let limit = reg.mmap_limit;
    match reg.find_slot(root) {
        Some(i) => {
            proof {
                lemma_slot_of_unique(old(reg).slots@, root, i as int);
            }
            let slot = &mut reg.slots[i];
            slot.state.reserve_mmap_addr(len, base, limit)
        },
        None => Err(()),
    }
}

/// Clear the whole state of the address space of `root` (on exec).
pub fn vma_clear_root(reg: &mut VmRegistry, root: usize)
    requires
        old(reg).wf(),
    ensures
        final(reg).wf(),
        final(reg).mmap_base == old(reg).mmap_base,
        final(reg).mmap_limit == old(reg).mmap_limit,
        !registered(old(reg).slots@, root) ==> final(reg).slots@ == old(reg).slots@,
        forall|i: int|
            #[trigger] is_slot_of(old(reg).slots@, root, i) ==> only_state_changed(
                old(reg).slots@,
                final(reg).slots@,
                i,
            ) && final(reg).slots@[i].state.is_empty_state(),
{
    match reg.find_slot(root) {
        Some(i) => {
            proof {
                lemma_slot_of_unique(old(reg).slots@, root, i as int);
            }
            let slot = &mut reg.slots[i];
            slot.state.clear();
        },
        None => {},
    }
}


/// After a successful forced add of `[start, end)` with `prot`, a query of
/// any address in the range answers `prot`, and a permission check answers
/// `prot` unless it is PROT_NONE.
pub proof fn lemma_fixed_add_then_lookup(
    old: VmState,
    new: VmState,
    start: usize,
    end: usize,
    prot: usize,
    a: int,
    q: Option<usize>,
    c: Option<usize>,
)
    requires
        vma_add_post(old, new, start, end, prot, true, Ok(())),
        start <= a < end,
        query_result(new.vmas@, a, q),
        check_result(new.vmas@, a, c),
    ensures
        q == Some(prot),
        c == (if prot != 0 {
            Some(prot)
        } else {
            None::<usize>
        }),
{
    let vmas = new.vmas@;
    assert(covered_with(vmas, a, prot));
    let w = choose|j: int| 0 <= j < vmas.len() && #[trigger] covers(vmas[j], a) && vmas[j].prot == prot;
    match q {
        Some(p) => {
            let i = choose|i: int| is_first_cover(vmas, a, i) && vmas[i].prot == p;
            assert(covered_with(vmas, a, vmas[i].prot));
        },
        None => {
            assert(covers(vmas[w], a));
        },
    }
    match c {
        Some(p) => {
            let i = choose|i: int| is_best_accessible(vmas, a, i) && vmas[i].prot == p;
            assert(covered_with(vmas, a, vmas[i].prot));
        },
        None => {
            if prot != 0 {
                assert(covers(vmas[w], a) && vmas[w].prot != 0);
            }
        },
    }
}

/// After a successful plain add of `[start, end)` with `prot` over a range
/// that no region met, a query of any address in the range answers `prot`.
pub proof fn lemma_plain_add_then_lookup(
    old: VmState,
    new: VmState,
    start: usize,
    end: usize,
    prot: usize,
    a: int,
    q: Option<usize>,
)
    requires
        vma_add_post(old, new, start, end, prot, false, Ok(())),
        forall|j: int| 0 <= j < old.vmas@.len() ==> !#[trigger] overlaps(old.vmas@[j], start as int, end as int),
        start <= a < end,
        query_result(new.vmas@, a, q),
    ensures
        q == Some(prot),
{
    let k = choose|k: int|
        is_first_free(old.vmas@, k) && new.vmas@ == old.vmas@.update(
            k,
            VmaRegion { start, end, prot, active: true },
        );
    let vmas = new.vmas@;
    assert(covers(vmas[k], a));
    assert forall|j: int| 0 <= j < vmas.len() && j != k implies !#[trigger] covers(vmas[j], a) by {
        assert(!overlaps(old.vmas@[j], start as int, end as int));
    }
    match q {
        Some(p) => {
            let i = choose|i: int| is_first_cover(vmas, a, i) && vmas[i].prot == p;
            assert(i == k);
        },
        None => {
            assert(covered(vmas, a));
        },
    }
}

/// After a removal of `[start, end)` that did not stop early, nothing in
/// the range is found by a query.
pub proof fn lemma_removed_range_unmapped(
    old: Seq<VmaRegion>,
    new: Seq<VmaRegion>,
    start: int,
    end: int,
    a: int,
    q: Option<usize>,
)
    requires
        hole_punched(old, new, start, end),
        start <= a < end,
        query_result(new, a, q),
    ensures
        q is None,
{
    if let Some(p) = q {
        let i = choose|i: int| is_first_cover(new, a, i) && new[i].prot == p;
        assert(covered(new, a));
    }
}

/// A freshly registered (or cleared) address space answers every query
/// with `None`.
pub proof fn lemma_empty_state_unmapped(st: VmState, a: int, q: Option<usize>, c: Option<usize>)
    requires
        st.is_empty_state(),
        query_result(st.vmas@, a, q),
        check_result(st.vmas@, a, c),
    ensures
        q is None,
        c is None,
{
    if let Some(p) = q {
        let i = choose|i: int| is_first_cover(st.vmas@, a, i) && st.vmas@[i].prot == p;
        assert(!st.vmas@[i].active);
    }
    if let Some(p) = c {
        let i = choose|i: int| is_best_accessible(st.vmas@, a, i) && st.vmas@[i].prot == p;
        assert(!st.vmas@[i].active);
    }
}

/// No address is given two protections by the regions of `vmas`: what
/// pairwise disjoint active regions give (see `lemma_disjoint_one_prot`),
/// and all that queries need of them.
pub open spec fn one_prot(vmas: Seq<VmaRegion>) -> bool {
    forall|a: int, p: usize, q: usize|
        #[trigger] covered_with(vmas, a, p) && #[trigger] covered_with(vmas, a, q) ==> p == q
}

/// Pairwise disjoint regions give no address two protections.
pub proof fn lemma_disjoint_one_prot(vmas: Seq<VmaRegion>)
    requires
        regions_disjoint(vmas),
    ensures
        one_prot(vmas),
{
    assert forall|a: int, p: usize, q: usize|
        #[trigger] covered_with(vmas, a, p) && #[trigger] covered_with(vmas, a, q) implies p == q by {
        let i = choose|i: int| 0 <= i < vmas.len() && #[trigger] covers(vmas[i], a) && vmas[i].prot == p;
        let j = choose|j: int| 0 <= j < vmas.len() && #[trigger] covers(vmas[j], a) && vmas[j].prot == q;
        if i != j {
            assert(!covers(vmas[j], a));
        }
    }
}

/// Where no address has two protections, a query answers by coverage:
/// `Some(p)` exactly when a region covers `a` with `p`.
proof fn lemma_query_by_coverage(vmas: Seq<VmaRegion>, a: int, q: Option<usize>)
    requires
        one_prot(vmas),
        query_result(vmas, a, q),
    ensures
        forall|p: usize| #[trigger] covered_with(vmas, a, p) <==> q == Some(p),
{
    assert forall|p: usize| #[trigger] covered_with(vmas, a, p) <==> q == Some(p) by {
        match q {
            Some(x) => {
                let i = choose|i: int| is_first_cover(vmas, a, i) && vmas[i].prot == x;
                assert(covered_with(vmas, a, vmas[i].prot));
            },
            None => {
                if covered_with(vmas, a, p) {
                    let j = choose|j: int| 0 <= j < vmas.len() && #[trigger] covers(vmas[j], a) && vmas[j].prot == p;
                    assert(covered(vmas, a));
                }
            },
        }
    }
}

/// Two tables that give every address the same protections, neither giving
/// one address two, answer every query alike.
proof fn lemma_same_coverage_same_answer(v0: Seq<VmaRegion>, v1: Seq<VmaRegion>, a: int, q0: Option<usize>, q1: Option<usize>)
    requires
        one_prot(v0),
        one_prot(v1),
        forall|p: usize| #[trigger] covered_with(v1, a, p) <==> covered_with(v0, a, p),
        query_result(v0, a, q0),
        query_result(v1, a, q1),
    ensures
        q0 == q1,
{
    lemma_query_by_coverage(v0, a, q0);
    lemma_query_by_coverage(v1, a, q1);
    match q0 {
        Some(p) => {
            assert(covered_with(v0, a, p));
            assert(covered_with(v1, a, p));
        },
        None => {
            if let Some(p) = q1 {
                assert(covered_with(v1, a, p));
            }
        },
    }
}

/// A forced add of `[start, end)` with `prot` that succeeded: a query of an
/// address in the range answers `prot`, a query of any other address
/// answers what it answered before, no address gets two protections where
/// none had, and disjoint regions stay disjoint.
pub proof fn law_fixed_add_answers(
    old: VmState,
    new: VmState,
    start: usize,
    end: usize,
    prot: usize,
    a: int,
    q0: Option<usize>,
    q1: Option<usize>,
)
    requires
        vma_add_post(old, new, start, end, prot, true, Ok(())),
        one_prot(old.vmas@),
        query_result(old.vmas@, a, q0),
        query_result(new.vmas@, a, q1),
    ensures
        one_prot(new.vmas@),
        start <= a < end ==> q1 == Some(prot),
        !(start <= a < end) ==> q1 == q0,
        start < end && regions_disjoint(old.vmas@) ==> regions_disjoint(new.vmas@),
{
    let v0 = old.vmas@;
    let v1 = new.vmas@;
    assert forall|b: int, p: usize, q: usize|
        #[trigger] covered_with(v1, b, p) && #[trigger] covered_with(v1, b, q) implies p == q by {
        if !(start <= b < end) {
            assert(covered_with(v0, b, p) && covered_with(v0, b, q));
        }
    }
    lemma_query_by_coverage(v1, a, q1);
    if start <= a < end {
        assert(covered_with(v1, a, prot));
    } else {
        lemma_same_coverage_same_answer(v0, v1, a, q0, q1);
    }
}

/// A removal of `[start, end)` in which a region reaching past both ends of
/// the range found a free slot for its second piece (always so when no
/// region does, or when one alone meets the range and a slot is free):
/// nothing in the range is found any more, every other address answers
/// as before, and no address gets two protections where none had.
pub proof fn law_remove_range_answers(
    old: Seq<VmaRegion>,
    new: Seq<VmaRegion>,
    start: int,
    end: int,
    a: int,
    q0: Option<usize>,
    q1: Option<usize>,
)
    requires
        removal_result(old, new, start, end),
        no_new_coverage(old, new),
        one_prot(old),
        forall|j: int|
            0 <= j < old.len() && #[trigger] splits(old[j], start, end) ==> only_overlap(old, j, start, end) && !all_active(
                old,
            ),
        query_result(old, a, q0),
        query_result(new, a, q1),
    ensures
        one_prot(new),
        start <= a < end ==> q1 is None,
        !(start <= a < end) ==> q1 == q0,
{
    assert forall|b: int, p: usize, q: usize|
        #[trigger] covered_with(new, b, p) && #[trigger] covered_with(new, b, q) implies p == q by {
        assert(covered_with(old, b, p) && covered_with(old, b, q));
    }
    if exists|j: int| 0 <= j < old.len() && #[trigger] splits(old[j], start, end) {
        let j = choose|j: int| 0 <= j < old.len() && #[trigger] splits(old[j], start, end);
        assert(only_overlap(old, j, start, end));
    }
    assert(hole_punched(old, new, start, end));
    if start <= a < end {
        lemma_removed_range_unmapped(old, new, start, end, a, q1);
    } else {
        lemma_same_coverage_same_answer(old, new, a, q0, q1);
    }
}

/// A clone of `src_root` into `dst_root` (not registered before, in a
/// registry with one slot per root): `dst_root`'s address space is a copy
/// of `src_root`'s, so every query and permission check answers alike in
/// both, and `src_root`'s is untouched.
pub proof fn law_clone_same_answers(
    old: Seq<VmStateSlot>,
    new: Seq<VmStateSlot>,
    src_root: usize,
    dst_root: usize,
    i: int,
    j: int,
)
    requires
        unique_roots(old),
        !registered(old, dst_root),
        cloned_into(old, new, src_root, dst_root),
        is_slot_of(old, src_root, j),
    ensures
        is_slot_of(new, dst_root, i) ==> new[i].state.vmas@ == old[j].state.vmas@ && forall|a: int, q: Option<usize>|
            (#[trigger] query_result(new[i].state.vmas@, a, q) <==> query_result(old[j].state.vmas@, a, q))
                && (#[trigger] check_result(new[i].state.vmas@, a, q) <==> check_result(old[j].state.vmas@, a, q)),
        is_slot_of(new, src_root, j),
        new[j] == old[j],
{
    let (s, d) = choose|s: int, d: int|
        #![trigger old[s], new[d]]
        holds_root(old, src_root, s) && 0 <= d < old.len() && !old[d].active && new[d].active && new[d].root
            == dst_root && new[d].state.vmas@ == old[s].state.vmas@ && new[d].state.next_mmap_addr
            == old[s].state.next_mmap_addr && new[d].state.max_elf_vaddr == old[s].state.max_elf_vaddr
            && forall|k: int| 0 <= k < old.len() && k != d ==> #[trigger] new[k] == old[k];
    assert(holds_root(old, old[s].root, s) && holds_root(old, old[j].root, j));
    assert(s == j);
    if is_slot_of(new, dst_root, i) {
        if i != d {
            assert(new[i] == old[i]);
            assert(holds_root(old, dst_root, i));
        }
    }
    assert(j != d);
    assert(new[j] == old[j]);
    assert forall|k: int| 0 <= k < j implies !#[trigger] holds_root(new, src_root, k) by {
        if k != d {
            assert(new[k] == old[k]);
            assert(!holds_root(old, src_root, k));
        } else {
            if holds_root(new, src_root, k) {
                assert(registered(old, src_root));
                assert(holds_root(old, src_root, j));
            }
        }
    }
}

} // verus!
