//! Installing mappings: `map` and the identity maps built on it, with the
//! frames for new page tables taken from a free list.
use vstd::prelude::*;

use crate::mm::addr::lemma_page_mask;
use crate::mm::vmm::{
    huge_frame, leaf_frame, level_size, pte_huge, pte_ppn, pte_valid, step, translate_from, vpn, vpn_s, vread,
    vwrite, vzero,
    MemView, PTEFlags, PhysMem, Step, ALL_FLAGS, FLAG_ACCESSED, FLAG_DIRTY, FLAG_PRESENT, FLAG_PS,
    FLAG_USER, FLAG_WRITABLE, NON_LEAF_FLAGS, PPN_MASK, PTE_COUNT, translate_user, pt_slot_from, unmap_result,
};

verus! {

/// The table frame at `level` on the walk of `va` from `root`: the root at
/// level 3, then each present non-huge entry's frame.
pub open spec fn table_at(m: MemView, root: u64, va: usize, level: int) -> Option<u64>
    decreases 3 - level,
{
    if level >= 3 {
        Some(root)
    } else if level < 0 {
        None
    } else {
        match table_at(m, root, va, level + 1) {
            Some(t) => match step(m, t, va, level + 1) {
                Step::Next(p) => Some(p),
                _ => None,
            },
            None => None,
        }
    }
}

/// Slot `i` of frame `f` is the entry for `va` of a table on its walk.
pub open spec fn on_path(m: MemView, root: u64, va: usize, f: int, i: int) -> bool {
    exists|l: int| 0 <= l <= 3 && #[trigger] table_at(m, root, va, l) == Some(f as u64) && i == vpn_s(va, l)
}

/// Every table on the walk of `va` can be read at the entry for `va`, and
/// no entry on the way points to frame 0.
pub open spec fn path_ok(m: MemView, root: u64, va: usize) -> bool {
    forall|l: int|
        0 <= l <= 3 ==> match #[trigger] table_at(m, root, va, l) {
            Some(t) => vread(m, t as int, vpn_s(va, l)) is Some && (l > 0 ==> !(step(m, t, va, l) is Bad)),
            None => true,
        }
}

/// The tables on the walk of `va` are different frames.
pub open spec fn path_distinct(m: MemView, root: u64, va: usize) -> bool {
    forall|l1: int, l2: int|
        0 <= l1 <= 3 && 0 <= l2 <= 3 && l1 != l2 && (#[trigger] table_at(m, root, va, l1)) is Some
            ==> #[trigger] table_at(m, root, va, l2) != table_at(m, root, va, l1)
}

/// Frame `f` is memory and a nonzero frame number an entry can hold.
pub open spec fn usable_frame(m: MemView, f: u64) -> bool {
    m.base <= f < m.base + m.tables.len() && 0 < f <= PPN_MASK
}

/// The last three frames of `free` (those `map` may take) are usable,
/// different from each other and from every table on the walk of `va`.
pub open spec fn fresh_frames(m: MemView, root: u64, va: usize, free: Seq<u64>) -> bool {
    &&& free.len() >= 3
    &&& forall|j: int| free.len() - 3 <= j < free.len() ==> usable_frame(m, #[trigger] free[j])
    &&& forall|j1: int, j2: int|
        free.len() - 3 <= j1 < j2 < free.len() ==> #[trigger] free[j1] != #[trigger] free[j2]
    &&& forall|j: int, l: int|
        free.len() - 3 <= j < free.len() && 0 <= l <= 3 ==> #[trigger] table_at(m, root, va, l) != Some(
            #[trigger] free[j],
        )
}

/// `map` can work on `va` with the free frames `free`: the walk is sound,
/// its tables distinct, and the frames it may take fresh.
pub open spec fn map_ready(m: MemView, free: Seq<u64>, root: u64, va: usize) -> bool {
    path_ok(m, root, va) && path_distinct(m, root, va) && fresh_frames(m, root, va, free)
}

/// Frame `p` is one of those of `free` from index `lo` on: the frames
/// taken from the end of the list.
pub open spec fn taken(free: Seq<u64>, lo: int, p: int) -> bool {
    exists|j: int| lo <= j < free.len() && free[j] == p
}

/// The leaf entry that maps a page to `paddr` with `flags`.
pub open spec fn leaf_entry(paddr: usize, flags: u64) -> u64 {
    ((paddr as u64) & 0xffff_ffff_ffff_f000u64) | flags
}

/// What a last-level entry `e` translates `va` to.
pub open spec fn leaf_translation(e: u64, va: usize) -> Option<usize> {
    if pte_valid(e) {
        Some(leaf_frame(e, va))
    } else {
        None
    }
}

/// No huge page sits at the top two levels of the walk of `va` (those are
/// the levels whose huge pages `map` does not split into a working table).
pub open spec fn no_big_huge(m: MemView, root: u64, va: usize) -> bool {
    forall|l: int|
        2 <= l <= 3 ==> match #[trigger] table_at(m, root, va, l) {
            Some(t) => !(step(m, t, va, l) is Huge),
            None => true,
        }
}

/// A walk passes through the tables on its way: the address that the walk
/// from the root gives is the one that the walk from its table at any
/// level gives.
pub proof fn lemma_translate_at(m: MemView, root: u64, va: usize, l: int)
    requires
        0 <= l <= 3,
        table_at(m, root, va, l) is Some,
    ensures
        translate_from(m, root, va, 3) == translate_from(m, table_at(m, root, va, l)->0, va, l),
    decreases 3 - l,
{
    if l < 3 {
        lemma_translate_at(m, root, va, l + 1);
    }
}

/// The huge entry that maps the 2 MiB page of `va` (at the level above the
/// last), when the walk of `va` meets one there.
pub open spec fn huge_pd(m: MemView, root: u64, va: usize) -> Option<u64> {
    match table_at(m, root, va, 1) {
        Some(t) => match step(m, t, va, 1) {
            Step::Huge(e) => Some(e),
            _ => None,
        },
        None => None,
    }
}

/// The last-level table on the walk of `va` holds the 4 KiB pieces of the
/// 2 MiB page of entry `e`, all but the entry for `va` itself.
pub open spec fn split_pieces(m: MemView, root: u64, va: usize, e: u64) -> bool {
    &&& table_at(m, root, va, 0) is Some
    &&& forall|i: int|
        0 <= i < PTE_COUNT && i != vpn_s(va, 0) ==> #[trigger] vread(m, table_at(m, root, va, 0)->0 as int, i)
            == Some(split_entry(e, 1, i))
}

/// Every link on the walk of `va` in `m0` (an entry pointing to the next
/// table) still points to the same table in `m1`.
pub open spec fn links_kept(m0: MemView, m1: MemView, root: u64, va: usize) -> bool {
    forall|l: int|
        1 <= l <= 3 && (#[trigger] table_at(m0, root, va, l)) is Some && step(m0, table_at(m0, root, va, l)->0, va, l)
            is Next ==> step(m1, table_at(m0, root, va, l)->0, va, l) == step(m0, table_at(m0, root, va, l)->0, va, l)
}

/// Two addresses whose table indices agree above `level` meet the same
/// tables down to `level`.
proof fn lemma_table_at_same_walk(m: MemView, root: u64, va: usize, va2: usize, l: int)
    requires
        0 <= l <= 3,
        forall|k: int| l < k <= 3 ==> #[trigger] vpn_s(va2, k) == vpn_s(va, k),
    ensures
        table_at(m, root, va2, l) == table_at(m, root, va, l),
    decreases 3 - l,
{
    if l < 3 {
        lemma_table_at_same_walk(m, root, va, va2, l + 1);
        assert(vpn_s(va2, l + 1) == vpn_s(va, l + 1));
    }
}

/// The piece of an aligned 2 MiB page `e` for address `v` is a present
/// entry whose frame plus `v`'s offset in its 4 KiB page is the huge page's
/// frame plus `v`'s offset in the 2 MiB page.
proof fn lemma_piece_frame(e: u64, v: u64)
    requires
        (e >> 12u64) & 0x1ffu64 == 0,
        e & 1u64 != 0,
    ensures
        ({
            let p = (e >> 12u64) & 0xff_ffff_ffffu64;
            let i = (v >> 12u64) & 0x1ffu64;
            let x = (((((p << 12u64) + i * 4096u64) as u64) >> 12u64) << 12u64) | (e & !128u64);
            &&& x & 1u64 != 0
            &&& (((x >> 12u64) & 0xff_ffff_ffffu64) << 12u64) | (v & 0xfffu64) == (p << 12u64) | (v
                & 0x1f_ffffu64)
        }),
{
    assert({
        let p = (e >> 12u64) & 0xff_ffff_ffffu64;
        let i = (v >> 12u64) & 0x1ffu64;
        let x = (((((p << 12u64) + i * 4096u64) as u64) >> 12u64) << 12u64) | (e & !128u64);
        &&& x & 1u64 != 0
        &&& (((x >> 12u64) & 0xff_ffff_ffffu64) << 12u64) | (v & 0xfffu64) == (p << 12u64) | (v & 0x1f_ffffu64)
    }) by (bit_vector)
        requires
            (e >> 12u64) & 0x1ffu64 == 0,
            e & 1u64 != 0,
    ;
}

/// Mapping one 4 KiB page of a 2 MiB page keeps its other pages where they
/// were: when the huge entry `e` that mapped the 2 MiB page of `va` (its
/// frame aligned to 2 MiB) is replaced by the table of its pieces
/// (`split_pieces`), an address `va2` in another 4 KiB page of the same
/// 2 MiB page translates as before.
pub proof fn lemma_split_keeps_siblings(m0: MemView, m1: MemView, root: u64, va: usize, va2: usize)
    requires
        huge_pd(m0, root, va) is Some,
        pte_ppn(huge_pd(m0, root, va)->0) % 512 == 0,
        split_pieces(m1, root, va, huge_pd(m0, root, va)->0),
        forall|l: int| 1 <= l <= 3 ==> #[trigger] vpn_s(va2, l) == vpn_s(va, l),
        vpn_s(va2, 0) != vpn_s(va, 0),
    ensures
        translate_from(m1, root, va2, 3) == translate_from(m0, root, va2, 3),
{
    let e = huge_pd(m0, root, va)->0;
    lemma_table_at_same_walk(m0, root, va, va2, 1);
    lemma_table_at_same_walk(m1, root, va, va2, 0);
    let t = table_at(m0, root, va, 1)->0;
    assert(vpn_s(va2, 1) == vpn_s(va, 1));
    assert(step(m0, t, va2, 1) == Step::Huge(e));
    lemma_translate_at(m0, root, va2, 1);
    assert(translate_from(m0, root, va2, 3) == Some(huge_frame(e, va2, 1)));
    let nt = table_at(m1, root, va, 0)->0;
    lemma_translate_at(m1, root, va2, 0);
    let v = va2 as u64;
    let i = vpn_s(va2, 0);
    lemma_vpn_bound(va2, 0);
    assert(vread(m1, nt as int, i) == Some(split_entry(e, 1, i)));
    assert(i == ((v >> 12u64) & 0x1ffu64) as int);
    assert(pte_ppn(e) % 512 == 0 ==> (e >> 12u64) & 0x1ffu64 == 0) by (bit_vector);
    assert(pte_ppn(e) % 512 == 0 ==> ((e >> 12u64) & 0xff_ffff_ffffu64) % 512 == 0);
    assert((e >> 12u64) & 0x1ffu64 == 0) by (bit_vector)
        requires
            ((e >> 12u64) & 0xff_ffff_ffffu64) % 512 == 0,
    ;
    lemma_piece_frame(e, v);
    assert(1u64 << 21u64 == 0x20_0000u64) by (bit_vector);
    assert(level_size(1) == 0x20_0000u64);
}

/// A chain of tables that each point to the next at the entry for `va`,
/// from level 3 down.
pub open spec fn chain_ok(m: MemView, va: usize, chain: Seq<u64>) -> bool {
    forall|i: int|
        0 <= i < chain.len() - 1 ==> step(m, #[trigger] chain[i], va, 3 - i) == Step::Next(chain[i + 1])
}

/// The frames of a chain starting at the root are the walk's tables.
pub proof fn lemma_chain_table_at(m: MemView, root: u64, va: usize, chain: Seq<u64>, i: int)
    requires
        chain.len() <= 4,
        chain.len() > 0,
        chain[0] == root,
        chain_ok(m, va, chain),
        0 <= i < chain.len(),
    ensures
        table_at(m, root, va, 3 - i) == Some(chain[i]),
    decreases i,
{
    if i > 0 {
        lemma_chain_table_at(m, root, va, chain, i - 1);
        assert(step(m, chain[i - 1], va, 3 - (i - 1)) == Step::Next(chain[i]));
    }
}

proof fn lemma_bits_nonleaf(nt: u64)
    requires
        nt <= PPN_MASK,
    ensures
        ((nt << 12u64) | NON_LEAF_FLAGS) & FLAG_PRESENT != 0,
        ((nt << 12u64) | NON_LEAF_FLAGS) & FLAG_PS == 0,
        (((nt << 12u64) | NON_LEAF_FLAGS) >> 12u64) & PPN_MASK == nt,
        ((nt << 12u64) | NON_LEAF_FLAGS) & FLAG_USER != 0,
{
    assert(((nt << 12u64) | 7u64) & 1u64 != 0 && ((nt << 12u64) | 7u64) & 128u64 == 0
        && (((nt << 12u64) | 7u64) >> 12u64) & 0xff_ffff_ffffu64 == nt && ((nt << 12u64) | 7u64)
        & 4u64 != 0) by (bit_vector)
        requires
            nt <= 0xff_ffff_ffffu64,
    ;
}

proof fn lemma_vpn_bound(va: usize, l: int)
    requires
        0 <= l <= 3,
    ensures
        0 <= vpn_s(va, l) < PTE_COUNT,
{
    let v = va as u64;
    let sh = (12 + 9 * l) as u64;
    assert((v >> sh) & 0x1ffu64 < 512u64) by (bit_vector);
}

proof fn lemma_bits_zero()
    ensures
        0u64 & FLAG_PRESENT == 0,
        0u64 & FLAG_PS == 0,
{
    assert(0u64 & 1u64 == 0 && 0u64 & 128u64 == 0) by (bit_vector);
}

/// Memory `m2` differs from `m1` at most in slot `i0` of frame `p0` and in
/// frame `f`.
pub open spec fn changed_at_most(m1: MemView, m2: MemView, p0: int, i0: int, f: int) -> bool {
    forall|p: int, i: int|
        #[trigger] vread(m2, p, i) != vread(m1, p, i) ==> (p == p0 && i == i0) || p == f
}

proof fn lemma_bits_user(e: u64)
    ensures
        (e | FLAG_USER) & FLAG_PRESENT == e & FLAG_PRESENT,
        (e | FLAG_USER) & FLAG_PS == e & FLAG_PS,
        ((e | FLAG_USER) >> 12u64) & PPN_MASK == (e >> 12u64) & PPN_MASK,
{
    assert((e | 4u64) & 1u64 == e & 1u64 && (e | 4u64) & 128u64 == e & 128u64 && ((e | 4u64)
        >> 12u64) & 0xff_ffff_ffffu64 == (e >> 12u64) & 0xff_ffff_ffffu64) by (bit_vector);
}

/// A table's frame and entry index in memory `m` can be read.
pub open spec fn readable(m: MemView, f: u64) -> bool {
    m.base <= f < m.base + m.tables.len() && m.tables[f - m.base].len() == PTE_COUNT
}


/// Below a level where the walk ended there is no table.
proof fn lemma_table_at_none(m: MemView, root: u64, va: usize, l: int, l2: int)
    requires
        0 <= l2 <= l <= 3,
        table_at(m, root, va, l) is None,
    ensures
        table_at(m, root, va, l2) is None,
    decreases l - l2,
{
    if l2 < l {
        lemma_table_at_none(m, root, va, l, l2 + 1);
    }
}

/// The tables on the walk of `va` (level 3 first) when the walk is sound
/// (see `path_ok`), else `None`.
fn path_tables(mem: &PhysMem, root: u64, vaddr: usize) -> (r: Option<Vec<u64>>)
    requires
        mem.wf(),
    ensures
        match r {
            None => !path_ok(mem@, root, vaddr),
            Some(v) => {
                &&& path_ok(mem@, root, vaddr)
                &&& 1 <= v@.len() <= 4
                &&& forall|i: int| 0 <= i < v@.len() ==> table_at(mem@, root, vaddr, 3 - i) == Some(#[trigger] v@[i])
                &&& forall|l: int| 0 <= l <= 3 - v@.len() ==> #[trigger] table_at(mem@, root, vaddr, l) is None
            },
        },
{
    let mut frames: Vec<u64> = Vec::new();
    frames.push(root);
    let mut t = root;
    let mut level: usize = 3;
    loop
        invariant_except_break
            mem.wf(),
            1 <= level <= 3,
            frames@.len() == 4 - level,
            t == frames@.last(),
            forall|i: int| 0 <= i < frames@.len() ==> table_at(mem@, root, vaddr, 3 - i) == Some(#[trigger] frames@[i]),
            forall|l: int|
                level < l <= 3 ==> match #[trigger] table_at(mem@, root, vaddr, l) {
                    Some(tt) => vread(mem@, tt as int, vpn_s(vaddr, l)) is Some && !(step(mem@, tt, vaddr, l) is Bad),
                    None => true,
                },
        ensures
            mem.wf(),
            0 <= level <= 3,
            frames@.len() == 4 - level,
            t == frames@.last(),
            forall|i: int| 0 <= i < frames@.len() ==> table_at(mem@, root, vaddr, 3 - i) == Some(#[trigger] frames@[i]),
            forall|l: int|
                level < l <= 3 ==> match #[trigger] table_at(mem@, root, vaddr, l) {
                    Some(tt) => vread(mem@, tt as int, vpn_s(vaddr, l)) is Some && !(step(mem@, tt, vaddr, l) is Bad),
                    None => true,
                },
            level > 0 ==> table_at(mem@, root, vaddr, level - 1) is None,
            level > 0 ==> vread(mem@, t as int, vpn_s(vaddr, level as int)) is Some && !(step(mem@, t, vaddr, level as int) is Bad),
        decreases level,
    {
        let idx = vpn(vaddr, level);
        let e = match mem.read_entry(t, idx) {
            Some(e) => e,
            None => {
                assert(table_at(mem@, root, vaddr, level as int) == Some(t));
                return None;
            },
        };
        proof {
            assert(table_at(mem@, root, vaddr, level as int) == Some(t));
        }
        if e & FLAG_PRESENT == 0 || e & FLAG_PS != 0 {
            break;
        }
        let p = (e >> 12) & PPN_MASK;
        if p == 0 {
            return None;
        }
        frames.push(p);
        t = p;
        level = level - 1;
        if level == 0 {
            break;
        }
    }
    proof {
        if level > 0 {
            assert forall|l: int| 0 <= l <= 3 - frames@.len() implies #[trigger] table_at(mem@, root, vaddr, l) is None by {
                lemma_table_at_none(mem@, root, vaddr, level - 1, l);
            }
        }
    }
    if level == 0 {
        let idx = vpn(vaddr, 0);
        if mem.read_entry(t, idx).is_none() {
            assert(table_at(mem@, root, vaddr, 0) == Some(t));
            return None;
        }
        assert(table_at(mem@, root, vaddr, 0) == Some(t));
    }
    proof {
        assert forall|l: int| 0 <= l <= 3 implies match #[trigger] table_at(mem@, root, vaddr, l) {
            Some(tt) => vread(mem@, tt as int, vpn_s(vaddr, l)) is Some && (l > 0 ==> !(step(mem@, tt, vaddr, l) is Bad)),
            None => true,
        } by {
            if l <= 3 - frames@.len() && level > 0 {
                lemma_table_at_none(mem@, root, vaddr, level - 1, l);
            }
        }
    }
    Some(frames)
}

/// Whether `map` can work on `vaddr` with the free frames `free`: the
/// walk is sound and its tables distinct (see `path_ok`, `path_distinct`)
/// and the frames it may take are fresh (see `fresh_frames`).
pub fn can_map(mem: &PhysMem, free: &Vec<u64>, root: u64, vaddr: usize) -> (r: bool)
    requires
        mem.wf(),
    ensures
        r == map_ready(mem@, free@, root, vaddr),
{
    let frames = match path_tables(mem, root, vaddr) {
        Some(v) => v,
        None => return false,
    };
    let ghost m = mem@;
    let n = frames.len();
    let mut i: usize = 0;
    while i < n
        invariant
            n == frames@.len(),
            1 <= n <= 4,
            i <= n,
            m == mem@,
            forall|i2: int| 0 <= i2 < n ==> table_at(m, root, vaddr, 3 - i2) == Some(#[trigger] frames@[i2]),
            forall|a: int, b: int| 0 <= a < i && 0 <= b < n && a != b ==> frames@[a] != frames@[b],
        decreases n - i,
    {
        let mut j: usize = 0;
        while j < n
            invariant
                n == frames@.len(),
                i < n,
                j <= n,
                m == mem@,
                forall|i2: int| 0 <= i2 < n ==> table_at(m, root, vaddr, 3 - i2) == Some(#[trigger] frames@[i2]),
                forall|a: int, b: int| 0 <= a < i && 0 <= b < n && a != b ==> frames@[a] != frames@[b],
                forall|b: int| 0 <= b < j && b != i ==> frames@[i as int] != frames@[b],
            decreases n - j,
        {
            if j != i && frames[i] == frames[j] {
                proof {
                    assert(table_at(m, root, vaddr, 3 - i) == Some(frames@[i as int]));
                    assert(table_at(m, root, vaddr, 3 - j) == Some(frames@[j as int]));
                }
                return false;
            }
            j = j + 1;
        }
        i = i + 1;
    }
    proof {
        assert forall|l1: int, l2: int|
            0 <= l1 <= 3 && 0 <= l2 <= 3 && l1 != l2 && (#[trigger] table_at(m, root, vaddr, l1)) is Some
            implies #[trigger] table_at(m, root, vaddr, l2) != table_at(m, root, vaddr, l1) by {
            if l2 > 3 - n {
                assert(table_at(m, root, vaddr, 3 - (3 - l1)) == Some(frames@[3 - l1]));
                assert(table_at(m, root, vaddr, 3 - (3 - l2)) == Some(frames@[3 - l2]));
            }
        }
    }
    let fl = free.len();
    if fl < 3 {
        return false;
    }
    let base = mem.base_ppn;
    let count = mem.frames.len();
    let mut j: usize = fl - 3;
    while j < fl
        invariant
            fl == free@.len(),
            fl >= 3,
            fl - 3 <= j <= fl,
            n == frames@.len(),
            1 <= n <= 4,
            base == m.base,
            count == m.tables.len(),
            m == mem@,
            forall|i: int| 0 <= i < n ==> table_at(m, root, vaddr, 3 - i) == Some(#[trigger] frames@[i]),
            forall|l: int| 0 <= l <= 3 - n ==> #[trigger] table_at(m, root, vaddr, l) is None,
            forall|j2: int| fl - 3 <= j2 < j ==> usable_frame(m, #[trigger] free@[j2]),
            forall|j1: int, j2: int| fl - 3 <= j1 < j2 < j ==> #[trigger] free@[j1] != #[trigger] free@[j2],
            forall|j2: int, l: int|
                fl - 3 <= j2 < j && 0 <= l <= 3 ==> #[trigger] table_at(m, root, vaddr, l) != Some(#[trigger] free@[j2]),
        decreases fl - j,
    {
        let f = free[j];
        if f < base || f - base >= count as u64 || f == 0 || f > PPN_MASK {
            return false;
        }
        let mut k: usize = fl - 3;
        while k < j
            invariant
                fl - 3 <= k <= j,
                j < fl,
                fl >= 3,
                fl == free@.len(),
                f == free@[j as int],
                forall|k2: int| fl - 3 <= k2 < k ==> free@[k2] != f,
            decreases j - k,
        {
            if free[k] == f {
                return false;
            }
            k = k + 1;
        }
        let mut a: usize = 0;
        while a < n
            invariant
                a <= n,
                n == frames@.len(),
                fl - 3 <= j < fl,
                fl == free@.len(),
                f == free@[j as int],
                m == mem@,
                forall|i2: int| 0 <= i2 < n ==> table_at(m, root, vaddr, 3 - i2) == Some(#[trigger] frames@[i2]),
                forall|a2: int| 0 <= a2 < a ==> frames@[a2] != f,
            decreases n - a,
        {
            if frames[a] == f {
                proof {
                    assert(table_at(m, root, vaddr, 3 - a) == Some(free@[j as int]));
                    assert(!fresh_frames(m, root, vaddr, free@));
                }
                return false;
            }
            a = a + 1;
        }
        proof {
            assert forall|l: int| 0 <= l <= 3 implies #[trigger] table_at(m, root, vaddr, l) != Some(free@[j as int]) by {
                if l > 3 - n {
                    assert(table_at(m, root, vaddr, 3 - (3 - l)) == Some(frames@[3 - l]));
                }
            }
        }
        j = j + 1;
    }
    true
}


/// Bytes mapped by each entry of the table that replaces a huge entry at
/// `level`.
pub open spec fn sub_size(level: int) -> u64 {
    if level == 3 {
        0x20_0000
    } else {
        0x1000
    }
}

/// The flags of the entries that replace the huge entry `e` at `level`:
/// huge pages again below level 3, else the flags of `e` without the huge bit.
pub open spec fn sub_flags(e: u64, level: int) -> u64 {
    if level == 3 {
        FLAG_PRESENT | FLAG_WRITABLE | FLAG_USER | FLAG_PS
    } else {
        e & !FLAG_PS
    }
}

/// Entry `i` of the table that replaces the huge entry `e` at `level`: the
/// `i`-th piece of the huge page, one level down.
pub open spec fn split_entry(e: u64, level: int, i: int) -> u64 {
    let sub_pa = ((pte_ppn(e) << 12u64) + i * sub_size(level)) as u64;
    ((sub_pa >> 12u64) << 12u64) | sub_flags(e, level)
}

proof fn lemma_split_bits(e: u64, a: u64)
    ensures
        (pte_ppn(e) << 12u64) <= 0xff_ffff_ffff_f000u64,
        (a | sub_flags(e, 3)) & FLAG_PS != 0,
{
    assert(((e >> 12u64) & 0xff_ffff_ffffu64) << 12u64 <= 0xff_ffff_ffff_f000u64 && (a | (1u64 | 2u64
        | 4u64 | 128u64)) & 128u64 != 0) by (bit_vector);
}

/// Fill the table in frame `nt` with the entries that map the huge page of
/// entry `e` at `level` in 512 pieces one level down.
fn fill_split(mem: &mut PhysMem, nt: u64, e: u64, level: usize)
    requires
        old(mem).wf(),
        readable(old(mem)@, nt),
    ensures
        final(mem).wf(),
        final(mem)@.base == old(mem)@.base,
        final(mem)@.tables.len() == old(mem)@.tables.len(),
        forall|p: int, i: int| #[trigger]
            vread(final(mem)@, p, i) == if p == nt && 0 <= i < PTE_COUNT {
                Some(split_entry(e, level as int, i))
            } else {
                vread(old(mem)@, p, i)
            },
{
    proof {
        lemma_split_bits(e, 0);
    }
    let huge_paddr: u64 = ((e >> 12) & PPN_MASK) << 12;
    let sub: u64 = if level == 3 { 0x20_0000 } else { 0x1000 };
    let ghost m0 = mem@;
    let mut i: usize = 0;
    while i < PTE_COUNT
        invariant
            mem.wf(),
            i <= PTE_COUNT,
            readable(m0, nt),
            mem@.base == m0.base,
            mem@.tables.len() == m0.tables.len(),
            huge_paddr == pte_ppn(e) << 12u64,
            huge_paddr <= 0xff_ffff_ffff_f000u64,
            sub == sub_size(level as int),
            forall|p: int, i2: int| #[trigger]
                vread(mem@, p, i2) == if p == nt && 0 <= i2 < i {
                    Some(split_entry(e, level as int, i2))
                } else {
                    vread(m0, p, i2)
                },
        decreases PTE_COUNT - i,
    {
        assert((i as u64) * sub <= 511 * 0x20_0000) by (nonlinear_arith)
            requires
                i < 512,
                sub <= 0x20_0000,
        ;
        let sub_paddr = huge_paddr + (i as u64) * sub;
        let flags = if sub > 4096 {
            FLAG_PRESENT | FLAG_WRITABLE | FLAG_USER | FLAG_PS
        } else {
            e & !FLAG_PS
        };
        assert(vread(mem@, nt as int, i as int) is Some);
        let v = ((sub_paddr >> 12) << 12) | flags;
        assert(flags == sub_flags(e, level as int));
        assert(sub_paddr == ((pte_ppn(e) << 12u64) + i * sub_size(level as int)) as u64);
        assert(v == split_entry(e, level as int, i as int));
        let ghost mb = mem@;
        mem.write_entry(nt, i, v);
        assert forall|p: int, i2: int| #[trigger]
                vread(mem@, p, i2) == if p == nt && 0 <= i2 < i + 1 {
                    Some(split_entry(e, level as int, i2))
                } else {
                    vread(m0, p, i2)
                } by {
            assert(vread(mb, p, i2) == if p == nt && 0 <= i2 < i {
                    Some(split_entry(e, level as int, i2))
                } else {
                    vread(m0, p, i2)
                });
        }
        i = i + 1;
    }
}


proof fn lemma_taken(m: MemView, root: u64, va: usize, free: Seq<u64>, lo: int, p: int)
    requires
        fresh_frames(m, root, va, free),
        free.len() - 3 <= lo,
        taken(free, lo, p),
    ensures
        usable_frame(m, p as u64),
        p == p as u64,
        forall|l: int| 0 <= l <= 3 ==> #[trigger] table_at(m, root, va, l) != Some(p as u64),
        forall|j: int| free.len() - 3 <= j < lo ==> #[trigger] free[j] != p,
{
    let j = choose|j: int| lo <= j < free.len() && free[j] == p;
    assert(usable_frame(m, free[j]));
    assert forall|l: int| 0 <= l <= 3 implies #[trigger] table_at(m, root, va, l) != Some(p as u64) by {
        assert(table_at(m, root, va, l) != Some(free[j]));
    }
    assert forall|j2: int| free.len() - 3 <= j2 < lo implies #[trigger] free[j2] != p by {
        assert(free[j2] != free[j]);
    }
}

/// A chain of four tables from the root translates `va` as its last table
/// does at the last level.
proof fn lemma_chain_translate(m: MemView, va: usize, chain: Seq<u64>)
    requires
        chain.len() == 4,
        chain_ok(m, va, chain),
    ensures
        translate_from(m, chain[0], va, 3) == translate_from(m, chain[3], va, 0),
{
    assert(step(m, chain[2], va, 1) == Step::Next(chain[3]));
    assert(translate_from(m, chain[2], va, 1) == translate_from(m, chain[3], va, 0));
    assert(step(m, chain[1], va, 2) == Step::Next(chain[2]));
    assert(translate_from(m, chain[1], va, 2) == translate_from(m, chain[2], va, 1));
    assert(step(m, chain[0], va, 3) == Step::Next(chain[1]));
}

/// In well-formed memory every entry of a frame in range can be read.
proof fn lemma_readable(mem: PhysMem, f: u64)
    requires
        mem.wf(),
        mem@.base <= f < mem@.base + mem@.tables.len(),
    ensures
        readable(mem@, f),
        forall|i: int| 0 <= i < PTE_COUNT ==> #[trigger] vread(mem@, f as int, i) is Some,
{
    assert(mem.frames@[f - mem.base_ppn].entries@.len() == PTE_COUNT);
}

/// The walk of `va` reaches a last-level table, through tables that are
/// different frames: how `map` leaves it.
pub open spec fn walk_to_last_level(m: MemView, root: u64, va: usize) -> bool {
    table_at(m, root, va, 0) is Some && path_distinct(m, root, va)
}

/// Map `vaddr` to `paddr` with `flags` in the tables rooted at frame `root`,
/// taking frames for new tables from the end of `free`.
///
/// Each missing table on the way is made from a zeroed free frame; a huge
/// page on the way is split into a new table of 512 pieces one level down
/// (2 MiB pieces below the root, else 4 KiB ones, after which the new table
/// is the last level); a table reached on the way gets the user bit when
/// `flags` asks for user access. The last-level entry is then
/// `paddr`'s page with `flags`. A caller that split a huge page flushes
/// the TLB entry of `vaddr`.
///
/// Returns `false` and changes nothing when the walk is unsound or the
/// last three free frames cannot serve as tables (see `can_map`).
#[verifier::rlimit(60)]
pub fn map(mem: &mut PhysMem, free: &mut Vec<u64>, root: u64, vaddr: usize, paddr: usize, flags: PTEFlags) -> (r: bool)
    requires
        old(mem).wf(),
    ensures
        final(mem).wf(),
        r == map_ready(old(mem)@, old(free)@, root, vaddr),
        !r ==> final(mem)@ == old(mem)@ && final(free)@ == old(free)@,
        r ==> old(free)@.len() - 3 <= final(free)@.len() <= old(free)@.len(),
        r ==> final(free)@ == old(free)@.subrange(0, final(free)@.len() as int),
        r ==> final(mem)@.base == old(mem)@.base && final(mem)@.tables.len() == old(mem)@.tables.len(),
        r ==> forall|p: int, i: int|
            #[trigger] vread(final(mem)@, p, i) != vread(old(mem)@, p, i) ==> on_path(old(mem)@, root, vaddr, p, i)
                || taken(old(free)@, final(free)@.len() as int, p),
        r && no_big_huge(old(mem)@, root, vaddr) ==> translate_from(final(mem)@, root, vaddr, 3)
            == leaf_translation(leaf_entry(paddr, flags.bits), vaddr),
        r && no_big_huge(old(mem)@, root, vaddr) && huge_pd(old(mem)@, root, vaddr) is Some ==> split_pieces(
            final(mem)@,
            root,
            vaddr,
            huge_pd(old(mem)@, root, vaddr)->0,
        ),
        r ==> links_kept(old(mem)@, final(mem)@, root, vaddr),
        r && no_big_huge(old(mem)@, root, vaddr) ==> walk_to_last_level(final(mem)@, root, vaddr),
{
    if !can_map(mem, free, root, vaddr) {
        return false;
    }
    let ghost m0 = mem@;
    let ghost f0 = free@;
    let ghost n0 = f0.len() as int;
    let ghost good = no_big_huge(m0, root, vaddr);
    let ghost mut chain: Seq<u64> = seq![root];
    let ghost mut fresh = false;
    let ghost mut split_pd = false;
    let mut table = root;
    let mut level: usize = 3;
    proof {
        assert(table_at(m0, root, vaddr, 3) == Some(root));
    }
    while level > 0
        invariant
            mem.wf(),
            level <= 3,
            mem@.base == m0.base,
            mem@.tables.len() == m0.tables.len(),
            map_ready(m0, f0, root, vaddr),
            n0 == f0.len(),
            good == no_big_huge(m0, root, vaddr),
            n0 - 3 + level <= free@.len() <= n0,
            free@ == f0.subrange(0, free@.len() as int),
            fresh ==> taken(f0, free@.len() as int, table as int),
            !fresh ==> table_at(m0, root, vaddr, level as int) == Some(table),
            fresh && level > 0 ==> match vread(mem@, table as int, vpn_s(vaddr, level as int)) {
                Some(x) => x == 0 || x & FLAG_PS != 0,
                None => false,
            },
            good && fresh && level > 0 ==> vread(mem@, table as int, vpn_s(vaddr, level as int)) == Some(0u64),
            forall|l: int|
                0 <= l <= level ==> match #[trigger] table_at(m0, root, vaddr, l) {
                    Some(t) => vread(mem@, t as int, vpn_s(vaddr, l)) == vread(m0, t as int, vpn_s(vaddr, l)),
                    None => true,
                },
            forall|p: int, i: int|
                #[trigger] vread(mem@, p, i) != vread(m0, p, i) ==> on_path(m0, root, vaddr, p, i)
                    || taken(f0, free@.len() as int, p),
            1 <= chain.len() <= 4 - level,
            level > 0 || good ==> chain.len() == 4 - level,
            chain[0] == root,
            chain.last() == table,
            chain_ok(mem@, vaddr, chain),
            forall|i: int|
                0 <= i < chain.len() ==> table_at(m0, root, vaddr, 3 - i) == Some(#[trigger] chain[i])
                    || taken(f0, free@.len() as int, chain[i] as int),
            forall|i1: int, i2: int| 0 <= i1 < i2 < chain.len() ==> #[trigger] chain[i1] != #[trigger] chain[i2],
            fresh ==> table_at(m0, root, vaddr, level as int) is None,
            forall|l: int|
                level < l <= 3 && (#[trigger] table_at(m0, root, vaddr, l)) is Some && step(
                    m0,
                    table_at(m0, root, vaddr, l)->0,
                    vaddr,
                    l,
                ) is Next ==> step(mem@, table_at(m0, root, vaddr, l)->0, vaddr, l) == step(
                    m0,
                    table_at(m0, root, vaddr, l)->0,
                    vaddr,
                    l,
                ),
            split_pd ==> level == 0 && huge_pd(m0, root, vaddr) is Some && forall|i: int|
                0 <= i < PTE_COUNT ==> #[trigger] vread(mem@, table as int, i) == Some(
                    split_entry(huge_pd(m0, root, vaddr)->0, 1, i),
                ),
            good && level == 0 && huge_pd(m0, root, vaddr) is Some ==> split_pd,
        decreases level,
    {
        let idx = vpn(vaddr, level);
        let ghost lo = free@.len() as int;
        let ghost mstart = mem@;
        let ghost t0 = table;
        let ghost ch0 = chain;
        let ghost fr0 = fresh;
        let ghost l0 = level as int;
        proof {
            lemma_bits_zero();
            if fresh {
                lemma_taken(m0, root, vaddr, f0, lo, table as int);
                lemma_readable(*mem, table);
            } else {
                assert(table_at(m0, root, vaddr, level as int) == Some(table));
            }
        }
        let e0 = mem.read_entry(table, idx).unwrap();
        let mut e = e0;
        let ghost mut allocated = false;
        let ghost mut link_same = false;
        // Frames other than the current table that this step writes.
        let ghost mut other: int = -1;
        if e & FLAG_PRESENT == 0 {
            let nt = free.pop().unwrap();
            proof {
                assert(nt == f0[lo - 1]);
                assert(usable_frame(m0, f0[lo - 1]));
                assert(taken(f0, lo - 1, nt as int));
                lemma_taken(m0, root, vaddr, f0, lo - 1, nt as int);
                lemma_readable(*mem, nt);
                if fresh {
                    assert(f0[lo - 1] != table);
                }
            }
            mem.zero_table(nt);
            let ghost mz = mem@;
            e = (nt << 12) | NON_LEAF_FLAGS;
            proof {
                lemma_bits_nonleaf(nt);
            }
            mem.write_entry(table, idx, e);
            proof {
                allocated = true;
                other = nt as int;
                assert forall|q: int, i: int| #[trigger] vread(mem@, q, i) != vread(mstart, q, i)
                    implies (q == table && i == idx) || q == other by {
                    assert(vread(mz, q, i) == vread(mstart, q, i) || q == nt);
                }
                lemma_vpn_bound(vaddr, level - 1);
                let k = vpn_s(vaddr, level - 1);
                assert(nt != table);
                assert(vread(mz, nt as int, k) == Some(0u64));
                assert(vread(mem@, nt as int, k) == vread(mz, nt as int, k));
            }
        }
        let ghost lo2 = free@.len() as int;
        proof {
            assert(changed_at_most(mstart, mem@, table as int, idx as int, other));
            if good && level > 1 && e & FLAG_PS != 0 {
                if fresh {
                    assert(vread(mstart, table as int, vpn_s(vaddr, level as int)) == Some(0u64));
                    assert(allocated);
                } else if !allocated {
                    assert(vread(mstart, table as int, vpn_s(vaddr, level as int)) == vread(m0, table as int, vpn_s(vaddr, level as int)));
                    assert(step(m0, table, vaddr, level as int) == Step::Huge(e0));
                    assert(!no_big_huge(m0, root, vaddr));
                }
                assert(false);
            }
        }
        if e & FLAG_PS != 0 {
            // A huge page on the way: replace it by a table of its pieces.
            let nt = free.pop().unwrap();
            proof {
                assert(!allocated);
                assert(nt == f0[lo2 - 1]);
                assert(taken(f0, lo2 - 1, nt as int));
                lemma_taken(m0, root, vaddr, f0, lo2 - 1, nt as int);
                lemma_readable(*mem, nt);
                if fresh {
                    assert(f0[lo2 - 1] != table);
                }
            }
            let ghost mfill = mem@;
            fill_split(mem, nt, e, level);
            let ghost mf2 = mem@;
            let ne = (nt << 12) | NON_LEAF_FLAGS;
            proof {
                lemma_bits_nonleaf(nt);
            }
            mem.write_entry(table, idx, ne);
            proof {
                other = nt as int;
                assert(changed_at_most(mstart, mem@, table as int, idx as int, other)) by {
                    assert forall|p: int, i: int| #[trigger] vread(mem@, p, i) != vread(mstart, p, i)
                        implies (p == table && i == idx) || p == other by {
                        assert(vread(mfill, p, i) == vread(mstart, p, i));
                        assert(vread(mf2, p, i) == vread(mfill, p, i) || p == nt);
                        assert(vread(mem@, p, i) == vread(mf2, p, i) || (p == table && i == idx));
                    }
                }
                assert(nt != table);
                if level == 3 {
                    let i2 = vpn_s(vaddr, 2);
                    lemma_vpn_bound(vaddr, 2);
                    lemma_split_bits(e, ((((pte_ppn(e) << 12u64) + i2 * sub_size(3)) as u64) >> 12u64) << 12u64);
                    assert(vread(mf2, nt as int, i2) == Some(split_entry(e, 3, i2)));
                    assert(vread(mem@, nt as int, i2) == vread(mf2, nt as int, i2));
                }
            }
            proof {
                if level == 1 && !fr0 {
                    assert(table_at(m0, root, vaddr, 1) == Some(table));
                    assert(vread(mstart, table as int, vpn_s(vaddr, 1)) == vread(m0, table as int, vpn_s(vaddr, 1)));
                    assert(e == e0);
                    assert(step(m0, table, vaddr, 1) == Step::Huge(e0));
                    assert(huge_pd(m0, root, vaddr) == Some(e0));
                    assert forall|i: int| 0 <= i < PTE_COUNT implies #[trigger] vread(mem@, nt as int, i) == Some(
                        split_entry(e0, 1, i),
                    ) by {
                        assert(vread(mf2, nt as int, i) == Some(split_entry(e, level as int, i)));
                    }
                    split_pd = true;
                }
            }
            table = nt;
            proof {
                fresh = true;
                chain = chain.push(nt);
            }
            if level == 3 {
                level = 2;
            } else {
                // The pieces are 4 KiB pages: the new table is the last level.
                level = 0;
            }
        } else {
            let p = (e >> 12) & PPN_MASK;
            proof {
                if !allocated {
                    assert(e0 != 0);
                    assert(!fresh);
                    assert(vread(mstart, table as int, vpn_s(vaddr, level as int)) == vread(m0, table as int, vpn_s(vaddr, level as int)));
                    assert(step(m0, table, vaddr, level as int) == Step::Next(p));
                    assert(table_at(m0, root, vaddr, level - 1) == Some(p));
                }
            }
            let ghost mpatch = mem@;
            if e & FLAG_USER == 0 && flags.bits & FLAG_USER == FLAG_USER {
                proof {
                    lemma_bits_user(e);
                }
                mem.write_entry(table, idx, e | FLAG_USER);
            }
            proof {
                assert(changed_at_most(mstart, mem@, table as int, idx as int, other)) by {
                    assert forall|q: int, i: int| #[trigger] vread(mem@, q, i) != vread(mstart, q, i)
                        implies (q == table && i == idx) || q == other by {
                        assert(vread(mpatch, q, i) == vread(mstart, q, i) || (q == table && i == idx) || q == other);
                    }
                }
                assert(step(mem@, table, vaddr, level as int) == Step::Next(p));
                if !allocated {
                    link_same = true;
                }
            }
            proof {
                if level == 1 && huge_pd(m0, root, vaddr) is Some {
                    if fr0 {
                        assert(table_at(m0, root, vaddr, 1) is None);
                    } else {
                        assert(table_at(m0, root, vaddr, 1) == Some(table));
                        assert(vread(mstart, table as int, vpn_s(vaddr, 1)) == vread(m0, table as int, vpn_s(vaddr, 1)));
                        assert(!allocated);
                        assert(step(m0, table, vaddr, 1) is Huge);
                    }
                }
            }
            table = p;
            proof {
                fresh = allocated;
                chain = chain.push(p);
            }
            level = level - 1;
        }
        proof {
            // What this step changed: the current slot and a taken frame.
            let lo3 = free@.len() as int;
            assert(other >= 0 ==> taken(f0, lo3, other));
            assert forall|l: int|
                level < l <= 3 && (#[trigger] table_at(m0, root, vaddr, l)) is Some && step(
                    m0,
                    table_at(m0, root, vaddr, l)->0,
                    vaddr,
                    l,
                ) is Next implies step(mem@, table_at(m0, root, vaddr, l)->0, vaddr, l) == step(
                    m0,
                    table_at(m0, root, vaddr, l)->0,
                    vaddr,
                    l,
                ) by {
                let t = table_at(m0, root, vaddr, l)->0;
                if l == l0 {
                    assert(!fr0);
                    assert(t == t0);
                    assert(vread(mstart, t0 as int, vpn_s(vaddr, l0)) == vread(m0, t0 as int, vpn_s(vaddr, l0)));
                    if !link_same {
                        assert(vread(m0, t0 as int, vpn_s(vaddr, l0)) == Some(e0));
                    }
                } else if l > l0 {
                    if fr0 {
                        lemma_taken(m0, root, vaddr, f0, lo, t0 as int);
                    } else {
                        assert(table_at(m0, root, vaddr, l0) == Some(t0));
                    }
                    assert(t != t0);
                    if other >= 0 {
                        lemma_taken(m0, root, vaddr, f0, lo3, other);
                    }
                    assert(vread(mem@, t as int, vpn_s(vaddr, l)) == vread(mstart, t as int, vpn_s(vaddr, l)));
                } else {
                    lemma_table_at_none(m0, root, vaddr, l0 - 1, l);
                }
            }
            assert forall|l: int| 0 <= l <= level implies match #[trigger] table_at(m0, root, vaddr, l) {
                Some(t) => vread(mem@, t as int, vpn_s(vaddr, l)) == vread(m0, t as int, vpn_s(vaddr, l)),
                None => true,
            } by {
                if let Some(t) = table_at(m0, root, vaddr, l) {
                    if fr0 {
                        lemma_taken(m0, root, vaddr, f0, lo, t0 as int);
                    } else {
                        assert(table_at(m0, root, vaddr, l0) == Some(t0));
                    }
                    assert(t != t0);
                    if other >= 0 {
                        lemma_taken(m0, root, vaddr, f0, lo3, other);
                    }
                    assert(vread(mem@, t as int, vpn_s(vaddr, l)) == vread(mstart, t as int, vpn_s(vaddr, l)));
                }
            }
            assert forall|q: int, i: int| #[trigger] vread(mem@, q, i) != vread(m0, q, i)
                implies on_path(m0, root, vaddr, q, i) || taken(f0, lo3, q) by {
                if vread(mstart, q, i) != vread(m0, q, i) {
                    if taken(f0, lo, q) {
                        let j = choose|j: int| lo <= j < f0.len() && f0[j] == q;
                        assert(f0[j] == q);
                    }
                } else if q == t0 && i == idx {
                    if !fr0 {
                        assert(table_at(m0, root, vaddr, l0) == Some(t0));
                    } else {
                        let j = choose|j: int| lo <= j < f0.len() && f0[j] == t0;
                        assert(f0[j] == t0);
                    }
                }
            }
        }
    }
    let idx = vpn(vaddr, 0);
    let pa = paddr as u64;
    let v = ((pa >> 12) << 12) | flags.bits;
    proof {
        assert(((pa >> 12u64) << 12u64) == pa & 0xffff_ffff_ffff_f000u64) by (bit_vector);
        if fresh {
            lemma_taken(m0, root, vaddr, f0, free@.len() as int, table as int);
            lemma_readable(*mem, table);
        } else {
            assert(table_at(m0, root, vaddr, 0) == Some(table));
        }
    }
    let ghost mlast = mem@;
    mem.write_entry(table, idx, v);
    proof {
        assert forall|p: int, i: int|
            #[trigger] vread(mem@, p, i) != vread(m0, p, i) implies on_path(m0, root, vaddr, p, i)
                || taken(f0, free@.len() as int, p) by {
            if p == table && i == idx {
                if !fresh {
                    assert(table_at(m0, root, vaddr, 0) == Some(table));
                }
            } else {
                assert(vread(mlast, p, i) != vread(m0, p, i));
            }
        }
        if good {
            assert(chain.len() == 4);
            assert forall|i: int| 0 <= i < chain.len() - 1 implies step(mem@, #[trigger] chain[i], vaddr, 3 - i) == Step::Next(chain[i + 1]) by {
                assert(step(mlast, chain[i], vaddr, 3 - i) == Step::Next(chain[i + 1]));
                assert(chain[i] != chain[3]);
            }
            lemma_chain_translate(mem@, vaddr, chain);
            assert forall|i: int| 0 <= i < 4 implies #[trigger] table_at(mem@, root, vaddr, 3 - i) == Some(chain[i]) by {
                lemma_chain_table_at(mem@, root, vaddr, chain, i);
            }
            assert(table_at(mem@, root, vaddr, 0) == Some(chain[3]));
            assert(table_at(mem@, root, vaddr, 1) == Some(chain[2]));
            assert(table_at(mem@, root, vaddr, 2) == Some(chain[1]));
            assert(table_at(mem@, root, vaddr, 3) == Some(chain[0]));
            assert(chain[0] != chain[1] && chain[0] != chain[2] && chain[0] != chain[3] && chain[1] != chain[2]
                && chain[1] != chain[3] && chain[2] != chain[3]);
            if huge_pd(m0, root, vaddr) is Some {
                lemma_chain_table_at(mem@, root, vaddr, chain, 3);
                assert(table_at(mem@, root, vaddr, 0) == Some(table));
                assert forall|i: int| 0 <= i < PTE_COUNT && i != vpn_s(vaddr, 0) implies #[trigger] vread(
                    mem@,
                    table as int,
                    i,
                ) == Some(split_entry(huge_pd(m0, root, vaddr)->0, 1, i)) by {
                    assert(vread(mlast, table as int, i) == Some(split_entry(huge_pd(m0, root, vaddr)->0, 1, i)));
                }
            }
        }
    }
    true
}


/// A page mapped with present flags (and no bits beyond the defined flags)
/// translates an address to the page of `paddr` plus the address's offset
/// within its page.
pub proof fn lemma_leaf_translation(paddr: usize, flags: u64, va: usize)
    requires
        flags & FLAG_PRESENT != 0,
        flags == flags & ALL_FLAGS,
        (paddr as u64) < 0x10_0000_0000_0000u64,
    ensures
        leaf_translation(leaf_entry(paddr, flags), va) == Some(
            (((paddr as u64) & 0xffff_ffff_ffff_f000u64) | ((va as u64) & 0xfffu64)) as usize,
        ),
{
    let p = paddr as u64;
    let v = va as u64;
    assert(((p & 0xffff_ffff_ffff_f000u64) | flags) & 1u64 != 0 && ((((((p & 0xffff_ffff_ffff_f000u64)
        | flags) >> 12u64) & 0xff_ffff_ffffu64) << 12u64) | (v & 0xfffu64)) == (p
        & 0xffff_ffff_ffff_f000u64) | (v & 0xfffu64)) by (bit_vector)
        requires
            flags & 1u64 != 0,
            flags == flags & 0x8000_0000_0000_01ffu64,
            p < 0x10_0000_0000_0000u64,
    ;
}

/// Map a user page: `map` with the same contract.
pub fn map_user(mem: &mut PhysMem, free: &mut Vec<u64>, root: u64, vaddr: usize, paddr: usize, flags: PTEFlags) -> (r: bool)
    requires
        old(mem).wf(),
    ensures
        final(mem).wf(),
        r == map_ready(old(mem)@, old(free)@, root, vaddr),
        !r ==> final(mem)@ == old(mem)@ && final(free)@ == old(free)@,
        r ==> old(free)@.len() - 3 <= final(free)@.len() <= old(free)@.len(),
        r ==> final(free)@ == old(free)@.subrange(0, final(free)@.len() as int),
        r ==> final(mem)@.base == old(mem)@.base && final(mem)@.tables.len() == old(mem)@.tables.len(),
        r ==> forall|p: int, i: int|
            #[trigger] vread(final(mem)@, p, i) != vread(old(mem)@, p, i) ==> on_path(old(mem)@, root, vaddr, p, i)
                || taken(old(free)@, final(free)@.len() as int, p),
        r && no_big_huge(old(mem)@, root, vaddr) ==> translate_from(final(mem)@, root, vaddr, 3)
            == leaf_translation(leaf_entry(paddr, flags.bits), vaddr),
        r && no_big_huge(old(mem)@, root, vaddr) && huge_pd(old(mem)@, root, vaddr) is Some ==> split_pieces(
            final(mem)@,
            root,
            vaddr,
            huge_pd(old(mem)@, root, vaddr)->0,
        ),
        r ==> links_kept(old(mem)@, final(mem)@, root, vaddr),
        r && no_big_huge(old(mem)@, root, vaddr) ==> walk_to_last_level(final(mem)@, root, vaddr),
{
    map(mem, free, root, vaddr, paddr, flags)
}

/// A new empty table: the last frame of `free`, zeroed. `None`, changing
/// nothing, when `free` is empty or its last frame is not memory.
pub fn create_user_page_table(mem: &mut PhysMem, free: &mut Vec<u64>) -> (r: Option<u64>)
    requires
        old(mem).wf(),
    ensures
        final(mem).wf(),
        final(mem)@.base == old(mem)@.base,
        final(mem)@.tables.len() == old(mem)@.tables.len(),
        match r {
            Some(f) => {
                &&& old(free)@.len() > 0
                &&& f == old(free)@.last()
                &&& final(free)@ == old(free)@.drop_last()
                &&& forall|p: int, i: int| #[trigger]
                    vread(final(mem)@, p, i) == if p == f && 0 <= i < PTE_COUNT {
                        Some(0u64)
                    } else {
                        vread(old(mem)@, p, i)
                    }
            },
            None => {
                &&& final(mem)@ == old(mem)@
                &&& final(free)@ == old(free)@
                &&& (old(free)@.len() == 0 || !(old(mem)@.base <= old(free)@.last() < old(mem)@.base
                    + old(mem)@.tables.len()))
            },
        },
{
    let n = free.len();
    if n == 0 {
        return None;
    }
    let f = free[n - 1];
    if f < mem.base_ppn || f - mem.base_ppn >= mem.frames.len() as u64 {
        return None;
    }
    let f = free.pop().unwrap();
    proof {
        lemma_readable(*mem, f);
    }
    mem.zero_table(f);
    Some(f)
}

/// The entry `e` with the accessed and dirty bits set (the same frame, its
/// defined flags and those two).
pub open spec fn ad_entry(e: u64) -> u64 {
    (pte_ppn(e) << 12u64) | ((e & ALL_FLAGS) | FLAG_ACCESSED | FLAG_DIRTY)
}

/// Set the accessed and dirty bits of every present entry of the table in
/// frame `root`. On x86_64 every present entry counts as a leaf here (it is
/// readable), so no lower table is visited. `false`, changing nothing, when
/// `root` is not memory.
pub fn set_all_ad_bits(mem: &mut PhysMem, root: u64) -> (r: bool)
    requires
        old(mem).wf(),
    ensures
        final(mem).wf(),
        r == (old(mem)@.base <= root < old(mem)@.base + old(mem)@.tables.len()),
        !r ==> final(mem)@ == old(mem)@,
        final(mem)@.base == old(mem)@.base,
        final(mem)@.tables.len() == old(mem)@.tables.len(),
        forall|p: int, i: int| #[trigger]
            vread(final(mem)@, p, i) == if r && p == root && 0 <= i < PTE_COUNT && pte_valid(
                vread(old(mem)@, p, i)->0,
            ) {
                Some(ad_entry(vread(old(mem)@, p, i)->0))
            } else {
                vread(old(mem)@, p, i)
            },
{
    if root < mem.base_ppn || root - mem.base_ppn >= mem.frames.len() as u64 {
        return false;
    }
    proof {
        lemma_readable(*mem, root);
    }
    let ghost m0 = mem@;
    let mut i: usize = 0;
    while i < PTE_COUNT
        invariant
            mem.wf(),
            i <= PTE_COUNT,
            readable(m0, root),
            mem@.base == m0.base,
            mem@.tables.len() == m0.tables.len(),
            forall|p: int, j: int| #[trigger]
                vread(mem@, p, j) == if p == root && 0 <= j < i && pte_valid(vread(m0, p, j)->0) {
                    Some(ad_entry(vread(m0, p, j)->0))
                } else {
                    vread(m0, p, j)
                },
        decreases PTE_COUNT - i,
    {
        let e = mem.read_entry(root, i).unwrap();
        let ghost mb = mem@;
        if e & FLAG_PRESENT != 0 {
            let flags = PTEFlags::from_bits_truncate(e);
            let new_flags = flags.union(PTEFlags { bits: FLAG_ACCESSED }).union(PTEFlags { bits: FLAG_DIRTY });
            let ppn = (e >> 12) & PPN_MASK;
            mem.write_entry(root, i, (ppn << 12) | new_flags.bits);
        }
        assert forall|p: int, j: int| #[trigger]
            vread(mem@, p, j) == if p == root && 0 <= j < i + 1 && pte_valid(vread(m0, p, j)->0) {
                Some(ad_entry(vread(m0, p, j)->0))
            } else {
                vread(m0, p, j)
            } by {
            assert(vread(mb, p, j) == if p == root && 0 <= j < i && pte_valid(vread(m0, p, j)->0) {
                Some(ad_entry(vread(m0, p, j)->0))
            } else {
                vread(m0, p, j)
            });
        }
        i = i + 1;
    }
    true
}


/// The frames that freeing the table in frame `t` at `level` releases from
/// entry `i` on, in order: for each present entry, above level 1 and not a
/// huge page, the frames of the table below and then that table's frame;
/// at level 1, the frame of a user page. A frame that is not memory holds
/// nothing.
pub open spec fn freed_from(m: MemView, t: u64, level: int, i: int) -> Seq<u64>
    decreases level, PTE_COUNT - i,
{
    if level <= 0 || i < 0 || i >= PTE_COUNT {
        Seq::empty()
    } else {
        let rest = freed_from(m, t, level, i + 1);
        match vread(m, t as int, i) {
            None => rest,
            Some(e) => if !pte_valid(e) {
                rest
            } else if level > 1 && !pte_huge(e) {
                freed_from(m, pte_ppn(e), level - 1, 0).push(pte_ppn(e)) + rest
            } else if level == 1 && e & FLAG_USER != 0 {
                seq![pte_ppn(e)] + rest
            } else {
                rest
            },
        }
    }
}

/// Append to `out` the frames that freeing the table in frame `t` at
/// `level` releases.
fn free_level(mem: &PhysMem, t: u64, level: usize, out: &mut Vec<u64>)
    requires
        mem.wf(),
        level <= 4,
    ensures
        final(out)@ == old(out)@ + freed_from(mem@, t, level as int, 0),
    decreases level,
{
    if level == 0 {
        return;
    }
    let mut i: usize = 0;
    while i < PTE_COUNT
        invariant
            mem.wf(),
            1 <= level <= 4,
            i <= PTE_COUNT,
            old(out)@ + freed_from(mem@, t, level as int, 0) == out@ + freed_from(mem@, t, level as int, i as int),
        decreases PTE_COUNT - i,
    {
        let ghost before = out@;
        let ghost rest = freed_from(mem@, t, level as int, i + 1);
        match mem.read_entry(t, i) {
            None => {},
            Some(e) => {
                if e & FLAG_PRESENT != 0 {
                    let huge = e & FLAG_PS != 0;
                    let ppn = (e >> 12) & PPN_MASK;
                    if level > 1 && !huge {
                        free_level(mem, ppn, level - 1, out);
                        out.push(ppn);
                        proof {
                            let sub = freed_from(mem@, ppn, level - 1, 0);
                            assert(out@ + rest =~= before + (sub.push(ppn) + rest));
                        }
                    } else if level == 1 && e & FLAG_USER != 0 {
                        out.push(ppn);
                        proof {
                            assert(out@ + rest =~= before + (seq![ppn] + rest));
                        }
                    }
                }
            },
        }
        i = i + 1;
    }
    assert(freed_from(mem@, t, level as int, PTE_COUNT as int) =~= Seq::<u64>::empty());
    assert(out@ + Seq::<u64>::empty() =~= out@);
}

/// Release the user page tables rooted at frame `root`: every table below
/// the root (the root counting as level 4, so the last level is 1), every
/// user page mapped at the last level, then the root itself, each pushed
/// onto `free` in that order.
pub fn free_user_page_table(mem: &PhysMem, free: &mut Vec<u64>, root: u64)
    requires
        mem.wf(),
    ensures
        final(free)@ == old(free)@ + freed_from(mem@, root, 4, 0).push(root),
{
    free_level(mem, root, 4, free);
    free.push(root);
    assert(free@ =~= old(free)@ + freed_from(mem@, root, 4, 0).push(root));
}


/// The page-aligned start of the range `start..end`.
pub open spec fn range_first(start: usize) -> int {
    start - start % 4096
}

/// The page-aligned end of the range `start..end` (rounded up).
pub open spec fn range_last(end: usize) -> int {
    (end + 4095) - (end + 4095) % 4096
}

/// The walk of `va2` in `m0` uses none of the frames taken from `f0` (from
/// index `lo` on), and meets the walk of `va` only at links of the same
/// level that both addresses take.
pub open spec fn walk_apart(m0: MemView, f0: Seq<u64>, lo: int, root: u64, va: usize, va2: usize) -> bool {
    forall|l: int|
        0 <= l <= 3 && (#[trigger] table_at(m0, root, va2, l)) is Some ==> {
            let t = table_at(m0, root, va2, l)->0;
            &&& !taken(f0, lo, t as int)
            &&& on_path(m0, root, va, t as int, vpn_s(va2, l)) ==> 1 <= l && table_at(m0, root, va, l) == Some(t)
                && vpn_s(va2, l) == vpn_s(va, l) && step(m0, t, va, l) is Next
        }
}

/// The translation of `va2` from its table at level `l` down is kept when
/// its walk is apart from the changes of a `map` of `va`.
proof fn lemma_kept_walk(
    m0: MemView,
    f0: Seq<u64>,
    m1: MemView,
    f1: Seq<u64>,
    root: u64,
    va: usize,
    va2: usize,
    l: int,
)
    requires
        0 <= l <= 3,
        table_at(m0, root, va2, l) is Some,
        forall|p: int, i: int|
            #[trigger] vread(m1, p, i) != vread(m0, p, i) ==> on_path(m0, root, va, p, i) || taken(f0, f1.len() as int, p),
        links_kept(m0, m1, root, va),
        walk_apart(m0, f0, f1.len() as int, root, va, va2),
    ensures
        translate_from(m1, table_at(m0, root, va2, l)->0, va2, l) == translate_from(
            m0,
            table_at(m0, root, va2, l)->0,
            va2,
            l,
        ),
    decreases l,
{
    let t = table_at(m0, root, va2, l)->0;
    let i = vpn_s(va2, l);
    if vread(m1, t as int, i) != vread(m0, t as int, i) {
        assert(on_path(m0, root, va, t as int, i));
        assert(1 <= l && table_at(m0, root, va, l) == Some(t) && step(m0, t, va, l) is Next);
        assert(step(m1, t, va, l) == step(m0, t, va, l));
    }
    if l > 0 {
        assert(step(m1, t, va2, l) == step(m0, t, va2, l));
        match step(m0, t, va2, l) {
            Step::Next(p) => {
                assert(table_at(m0, root, va2, l - 1) == Some(p));
                lemma_kept_walk(m0, f0, m1, f1, root, va, va2, l - 1);
            },
            _ => {},
        }
    }
}

/// A `map` of `va` keeps the translation of every other address whose
/// walk is apart from it (`walk_apart`): one that uses none of the frames
/// the map took, and meets the walk of `va` only at links of the same level
/// (the links the map keeps).
pub proof fn lemma_map_keeps_other_walks(
    m0: MemView,
    f0: Seq<u64>,
    m1: MemView,
    f1: Seq<u64>,
    root: u64,
    va: usize,
    pa: usize,
    flags: u64,
    va2: usize,
)
    requires
        map_effect(m0, f0, m1, f1, root, va, pa, flags),
        links_kept(m0, m1, root, va),
        walk_apart(m0, f0, f1.len() as int, root, va, va2),
    ensures
        translate_from(m1, root, va2, 3) == translate_from(m0, root, va2, 3),
{
    assert(table_at(m0, root, va2, 3) == Some(root));
    lemma_kept_walk(m0, f0, m1, f1, root, va, va2, 3);
}

/// Memory `m1` and free list `f1` are what a `map` of `va` to `pa` with
/// `flags` that went through may leave of `m0` and `f0`: at most three
/// frames taken from the end of the list, no entry changed but those on the
/// walk of `va` and those of the frames taken, and `va` translating as the
/// new leaf entry says where no huge page sat at the top two levels.
pub open spec fn map_effect(m0: MemView, f0: Seq<u64>, m1: MemView, f1: Seq<u64>, root: u64, va: usize, pa: usize, flags: u64) -> bool {
    &&& f0.len() - 3 <= f1.len() <= f0.len()
    &&& f1 == f0.subrange(0, f1.len() as int)
    &&& m1.base == m0.base
    &&& m1.tables.len() == m0.tables.len()
    &&& forall|p: int, i: int|
        #[trigger] vread(m1, p, i) != vread(m0, p, i) ==> on_path(m0, root, va, p, i) || taken(f0, f1.len() as int, p)
    &&& no_big_huge(m0, root, va) ==> translate_from(m1, root, va, 3) == leaf_translation(leaf_entry(pa, flags), va)
}

/// The pages `start`, `start + 4096`, ... mapped to themselves one after
/// the other: `ms[k]` and `fs[k]` are the memory and free list before page
/// `k`, and each page but the last state's was accepted by `map`
/// (`map_ready`) and mapped as it promises (`map_effect`).
pub open spec fn map_trace(ms: Seq<MemView>, fs: Seq<Seq<u64>>, root: u64, start: int, flags: u64) -> bool {
    &&& ms.len() == fs.len()
    &&& ms.len() >= 1
    &&& forall|k: int|
        0 <= k < ms.len() - 1 ==> map_ready(ms[k], fs[k], root, (start + 4096 * k) as usize) && #[trigger] map_effect(
            ms[k],
            fs[k],
            ms[k + 1],
            fs[k + 1],
            root,
            (start + 4096 * k) as usize,
            (start + 4096 * k) as usize,
            flags,
        )
}

/// How many pages of 4096 bytes lie from `start` up to `end`.
pub open spec fn page_count(start: int, end: int) -> int {
    if start < end {
        (end - start) / 4096
    } else {
        0
    }
}

/// `identity_map` of the pages from `start` up to `end` may go from memory
/// `m0` and free list `f0` to `m` and `f` with result `r`: page after page
/// is mapped to itself as `map` promises (`map_trace`); the run ends with
/// `true` after the last page, or with `false`, nothing more changed, at
/// the first page that `map` refuses.
pub open spec fn map_run(m0: MemView, f0: Seq<u64>, root: u64, start: int, end: int, flags: u64, r: bool, m: MemView, f: Seq<u64>) -> bool {
    exists|ms: Seq<MemView>, fs: Seq<Seq<u64>>|
        {
            &&& #[trigger] map_trace(ms, fs, root, start, flags)
            &&& ms[0] == m0
            &&& fs[0] == f0
            &&& ms.last() == m
            &&& fs.last() == f
            &&& ms.len() - 1 <= page_count(start, end)
            &&& r == (ms.len() - 1 == page_count(start, end))
            &&& !r ==> !map_ready(m, f, root, (start + 4096 * (ms.len() - 1)) as usize)
        }
}

/// The pages from an aligned `start` up to an aligned `end`: `n` pages in
/// when `start + 4096 * n` has not passed `end`, all of them when it reached it.
proof fn lemma_page_count(start: int, end: int, n: int)
    requires
        start % 4096 == 0,
        end % 4096 == 0,
        n >= 0,
    ensures
        start < end && start + 4096 * n <= end ==> n <= page_count(start, end),
        start < end && start + 4096 * n < end ==> n < page_count(start, end),
        start < end && start + 4096 * n >= end ==> n >= page_count(start, end),
{
    if start < end {
        assert((end - start) % 4096 == 0);
        assert(((end - start) / 4096) * 4096 == end - start);
        if start + 4096 * n < end {
            assert(n < (end - start) / 4096) by (nonlinear_arith)
                requires start + 4096 * n < end, ((end - start) / 4096) * 4096 == end - start;
        } else {
            assert(n >= (end - start) / 4096) by (nonlinear_arith)
                requires start + 4096 * n >= end, ((end - start) / 4096) * 4096 == end - start;
        }
    }
}

/// Identity map every page covering `start..end` (each page to itself)
/// with `flags`, one `map` after the other. Stops with `false` at the first
/// page that `map` refuses.
#[verifier::rlimit(30)]
pub fn identity_map(mem: &mut PhysMem, free: &mut Vec<u64>, root: u64, start: usize, end: usize, flags: PTEFlags) -> (r: bool)
    requires
        old(mem).wf(),
        end + 4095 <= usize::MAX,
    ensures
        final(mem).wf(),
        final(mem)@.base == old(mem)@.base,
        final(mem)@.tables.len() == old(mem)@.tables.len(),
        final(free)@ == old(free)@.subrange(0, final(free)@.len() as int),
        range_first(start) >= range_last(end) ==> r && final(mem)@ == old(mem)@ && final(free)@ == old(free)@,
        map_run(old(mem)@, old(free)@, root, range_first(start), range_last(end), flags.bits, r, final(mem)@, final(free)@),
{
    proof {
        lemma_page_mask(start);
        lemma_page_mask((end + 4095) as usize);
    }
    let start_page = start & !(4096 - 1);
    let end_page = (end + (4096 - 1)) & !(4096 - 1);
    let mut addr = start_page;
    let ghost mut ms: Seq<MemView> = seq![mem@];
    let ghost mut fs: Seq<Seq<u64>> = seq![free@];
    while addr < end_page
        invariant
            mem.wf(),
            mem@.base == old(mem)@.base,
            mem@.tables.len() == old(mem)@.tables.len(),
            free@.len() <= old(free)@.len(),
            free@ == old(free)@.subrange(0, free@.len() as int),
            addr % 4096 == 0,
            end_page % 4096 == 0,
            end_page == range_last(end),
            addr >= start_page,
            start_page == range_first(start),
            addr == start_page ==> mem@ == old(mem)@ && free@ == old(free)@,
            start_page >= end_page ==> addr == start_page,
            map_trace(ms, fs, root, start_page as int, flags.bits),
            ms[0] == old(mem)@,
            fs[0] == old(free)@,
            ms.last() == mem@,
            fs.last() == free@,
            addr == start_page + 4096 * (ms.len() - 1),
            start_page < end_page ==> addr <= end_page,
        decreases end_page - addr,
    {
        let ghost m_prev = mem@;
        let ghost f_prev = free@;
        if !map(mem, free, root, addr, addr, flags) {
            proof {
                lemma_page_count(start_page as int, end_page as int, ms.len() - 1);
            }
            return false;
        }
        proof {
            let ms2 = ms.push(mem@);
            let fs2 = fs.push(free@);
            assert forall|k: int| #![trigger ms2[k]] 0 <= k < ms2.len() - 1 implies map_ready(ms2[k], fs2[k], root, (start_page + 4096 * k) as usize)
                && map_effect(
                ms2[k],
                fs2[k],
                ms2[k + 1],
                fs2[k + 1],
                root,
                (start_page + 4096 * k) as usize,
                (start_page + 4096 * k) as usize,
                flags.bits,
            ) by {
                if k < ms.len() - 1 {
                    assert(map_effect(ms[k], fs[k], ms[k + 1], fs[k + 1], root, (start_page + 4096 * k) as usize,
                        (start_page + 4096 * k) as usize, flags.bits));
                } else {
                    assert(ms2[k] == m_prev && fs2[k] == f_prev && ms2[k + 1] == mem@ && fs2[k + 1] == free@);
                    assert((start_page + 4096 * k) as usize == addr);
                    assert(map_ready(m_prev, f_prev, root, addr));
                    assert(map_effect(m_prev, f_prev, mem@, free@, root, addr, addr, flags.bits));
                }
            }
            assert(map_trace(ms2, fs2, root, start_page as int, flags.bits));
            ms = ms2;
            fs = fs2;
        }
        assert(addr + 4096 <= end_page);
        addr = addr + 4096;
    }
    proof {
        lemma_page_count(start_page as int, end_page as int, ms.len() - 1);
    }
    true
}

/// The pages `start`, `start + 4096`, ... walked one after the other by
/// `identity_map_skip`: `ms[k]` and `fs[k]` are the memory and free list
/// before page `k`; a page that already translates is left as it is, any
/// other was accepted by `map` and mapped to itself as it promises.
pub open spec fn skip_trace(ms: Seq<MemView>, fs: Seq<Seq<u64>>, root: u64, start: int, flags: u64) -> bool {
    &&& ms.len() == fs.len()
    &&& ms.len() >= 1
    &&& forall|k: int| 0 <= k < ms.len() - 1 ==> #[trigger] skip_step(ms, fs, root, start, flags, k)
}

/// Page `k` of the walk `ms`, `fs` from `start`: it already translated and
/// nothing changed, or it did not and `map` accepted it and mapped it to
/// itself.
pub open spec fn skip_step(ms: Seq<MemView>, fs: Seq<Seq<u64>>, root: u64, start: int, flags: u64, k: int) -> bool {
    let va = (start + 4096 * k) as usize;
    if translate_from(ms[k], root, va, 3) is Some {
        ms[k + 1] == ms[k] && fs[k + 1] == fs[k]
    } else {
        map_ready(ms[k], fs[k], root, va) && map_effect(ms[k], fs[k], ms[k + 1], fs[k + 1], root, va, va, flags)
    }
}

/// How many of the first `n` pages of the walk `ms` from `start` did not
/// translate when their turn came.
pub open spec fn unmapped_count(ms: Seq<MemView>, root: u64, start: int, n: int) -> int
    decreases n,
{
    if n <= 0 {
        0
    } else {
        unmapped_count(ms, root, start, n - 1) + if translate_from(
            ms[n - 1],
            root,
            (start + 4096 * (n - 1)) as usize,
            3,
        ) is Some {
            0int
        } else {
            1int
        }
    }
}

/// The count of pages that did not translate depends only on the walk's
/// first `n` states.
proof fn lemma_unmapped_prefix(ms: Seq<MemView>, ms2: Seq<MemView>, root: u64, start: int, n: int)
    requires
        n <= ms.len(),
        n <= ms2.len(),
        forall|i: int| 0 <= i < n ==> ms[i] == ms2[i],
    ensures
        unmapped_count(ms, root, start, n) == unmapped_count(ms2, root, start, n),
    decreases n,
{
    if n > 0 {
        lemma_unmapped_prefix(ms, ms2, root, start, n - 1);
    }
}

/// A walk that is one page longer: the next page already translated and
/// nothing changed, or it did not and `map` accepted it and mapped it.
proof fn lemma_skip_extend(ms: Seq<MemView>, fs: Seq<Seq<u64>>, m: MemView, f: Seq<u64>, root: u64, start: int, flags: u64)
    requires
        skip_trace(ms, fs, root, start, flags),
        ({
            let va = (start + 4096 * (ms.len() - 1)) as usize;
            if translate_from(ms.last(), root, va, 3) is Some {
                m == ms.last() && f == fs.last()
            } else {
                map_ready(ms.last(), fs.last(), root, va) && map_effect(ms.last(), fs.last(), m, f, root, va, va, flags)
            }
        }),
    ensures
        skip_trace(ms.push(m), fs.push(f), root, start, flags),
        unmapped_count(ms.push(m), root, start, ms.len() as int) == unmapped_count(ms, root, start, ms.len() - 1)
            + if translate_from(ms.last(), root, (start + 4096 * (ms.len() - 1)) as usize, 3) is Some {
            0int
        } else {
            1int
        },
{
    let n = ms.len() - 1;
    let ms2 = ms.push(m);
    let fs2 = fs.push(f);
    assert forall|k: int| 0 <= k < ms2.len() - 1 implies #[trigger] skip_step(ms2, fs2, root, start, flags, k) by {
        if k < n {
            assert(skip_step(ms, fs, root, start, flags, k));
            assert(ms2[k] == ms[k] && ms2[k + 1] == ms[k + 1] && fs2[k] == fs[k] && fs2[k + 1] == fs[k + 1]);
        } else {
            assert(ms2[k] == ms.last() && fs2[k] == fs.last() && ms2[k + 1] == m && fs2[k + 1] == f);
        }
    }
    lemma_unmapped_prefix(ms, ms2, root, start, n);
    assert(ms2[n] == ms.last());
}

/// `identity_map_skip` of the pages from `start` up to `end` may go from
/// memory `m0` and free list `f0` to `m` and `f` with result `r`: the pages
/// are walked as `skip_trace` says; `Some` of the numbers mapped and skipped
/// when every page was walked, `None` at the first page that does not
/// translate and that `map` refuses, nothing more changed.
pub open spec fn skip_run(m0: MemView, f0: Seq<u64>, root: u64, start: int, end: int, flags: u64, r: Option<(usize, usize)>, m: MemView, f: Seq<u64>) -> bool {
    exists|ms: Seq<MemView>, fs: Seq<Seq<u64>>|
        {
            &&& #[trigger] skip_trace(ms, fs, root, start, flags)
            &&& ms[0] == m0
            &&& fs[0] == f0
            &&& ms.last() == m
            &&& fs.last() == f
            &&& ms.len() - 1 <= page_count(start, end)
            &&& match r {
                Some((mapped, skipped)) => {
                    &&& ms.len() - 1 == page_count(start, end)
                    &&& mapped == unmapped_count(ms, root, start, ms.len() - 1)
                    &&& mapped + skipped == ms.len() - 1
                },
                None => {
                    let va = (start + 4096 * (ms.len() - 1)) as usize;
                    &&& ms.len() - 1 < page_count(start, end)
                    &&& translate_from(m, root, va, 3) is None
                    &&& !map_ready(m, f, root, va)
                },
            }
        }
}

/// Identity map the pages covering `start..end` that do not translate yet,
/// leaving the others (those an earlier loader mapped) as they are. Returns
/// how many pages were mapped and how many skipped, or `None` at the first
/// page that `map` refuses.
#[verifier::rlimit(30)]
pub fn identity_map_skip(mem: &mut PhysMem, free: &mut Vec<u64>, root: u64, start: usize, end: usize, flags: PTEFlags) -> (r: Option<(usize, usize)>)
    requires
        old(mem).wf(),
        end + 4095 <= usize::MAX,
    ensures
        final(mem).wf(),
        final(mem)@.base == old(mem)@.base,
        final(mem)@.tables.len() == old(mem)@.tables.len(),
        final(free)@ == old(free)@.subrange(0, final(free)@.len() as int),
        match r {
            Some((mapped, skipped)) => mapped + skipped == if range_first(start) < range_last(end) {
                (range_last(end) - range_first(start)) / 4096
            } else {
                0
            },
            None => true,
        },
        range_first(start) >= range_last(end) ==> r == Some((0usize, 0usize)) && final(mem)@ == old(mem)@
            && final(free)@ == old(free)@,
        skip_run(old(mem)@, old(free)@, root, range_first(start), range_last(end), flags.bits, r, final(mem)@, final(free)@),
{
    proof {
        lemma_page_mask(start);
        lemma_page_mask((end + 4095) as usize);
    }
    let start_page = start & !(4096 - 1);
    let end_page = (end + (4096 - 1)) & !(4096 - 1);
    let mut addr = start_page;
    let mut map_count: usize = 0;
    let mut skip_count: usize = 0;
    let ghost mut ms: Seq<MemView> = seq![mem@];
    let ghost mut fs: Seq<Seq<u64>> = seq![free@];
    while addr < end_page
        invariant
            mem.wf(),
            skip_trace(ms, fs, root, start_page as int, flags.bits),
            ms[0] == old(mem)@,
            fs[0] == old(free)@,
            ms.last() == mem@,
            fs.last() == free@,
            addr == start_page + 4096 * (ms.len() - 1),
            map_count == unmapped_count(ms, root, start_page as int, ms.len() - 1),
            map_count + skip_count == ms.len() - 1,
            mem@.base == old(mem)@.base,
            mem@.tables.len() == old(mem)@.tables.len(),
            free@.len() <= old(free)@.len(),
            free@ == old(free)@.subrange(0, free@.len() as int),
            addr % 4096 == 0,
            end_page % 4096 == 0,
            end_page == range_last(end),
            addr >= start_page,
            start_page == range_first(start),
            addr <= end_page || start_page >= end_page,
            map_count + skip_count == (addr - start_page) / 4096,
            addr == start_page ==> mem@ == old(mem)@ && free@ == old(free)@,
            start_page >= end_page ==> addr == start_page,
        decreases end_page - addr,
    {
        let ghost n = ms.len() - 1;
        if translate_user(mem, root, addr).is_none() {
            if !map(mem, free, root, addr, addr, flags) {
                proof {
                    lemma_page_count(start_page as int, end_page as int, n);
                }
                return None;
            }
            map_count = map_count + 1;
        } else {
            skip_count = skip_count + 1;
        }
        proof {
            lemma_skip_extend(ms, fs, mem@, free@, root, start_page as int, flags.bits);
            ms = ms.push(mem@);
            fs = fs.push(free@);
        }
        assert(addr + 4096 <= end_page);
        assert((addr + 4096 - start_page) / 4096 == (addr - start_page) / 4096 + 1);
        addr = addr + 4096;
    }
    assert(start_page < end_page ==> addr == end_page);
    proof {
        lemma_page_count(start_page as int, end_page as int, ms.len() - 1);
    }
    Some((map_count, skip_count))
}


/// The low 21 bits of `x` are its offset within a 2 MiB page.
proof fn lemma_huge_mask(x: usize)
    ensures
        x & !0x1f_ffffusize == x - x % 0x20_0000,
{
    assert(x & !0x1f_ffffusize == x - x % 0x20_0000) by (bit_vector);
}

/// What `ensure_table` gives on memory `m` and free list `free`: the table
/// that entry `idx` of frame `table` points to, with the memory and free
/// list after it. A present entry gives its frame and changes nothing; an
/// entry that is not present takes the last free frame `f`, zeroes it and
/// points the entry at it. `None` when `table` is not memory, or the last
/// free frame is missing or not memory.
pub open spec fn table_after(m: MemView, free: Seq<u64>, table: u64, idx: int) -> Option<(u64, MemView, Seq<u64>)> {
    match vread(m, table as int, idx) {
        None => None,
        Some(e) => if pte_valid(e) {
            Some((pte_ppn(e), m, free))
        } else if free.len() == 0 || !(m.base <= free.last() < m.base + m.tables.len()) {
            None
        } else {
            let f = free.last();
            Some((f, vwrite(vzero(m, f as int), table as int, idx, (f << 12u64) | NON_LEAF_FLAGS), free.drop_last()))
        },
    }
}

/// The table that entry `idx` of the table in frame `table` points to,
/// after making it from the last free frame (zeroed) when the entry is not
/// present. `None`, changing nothing, when `table` is not memory, or a new
/// table is needed and the last free frame is missing or not memory.
fn ensure_table(mem: &mut PhysMem, free: &mut Vec<u64>, table: u64, idx: usize) -> (r: Option<u64>)
    requires
        old(mem).wf(),
        idx < PTE_COUNT,
    ensures
        final(mem).wf(),
        final(mem)@.base == old(mem)@.base,
        final(mem)@.tables.len() == old(mem)@.tables.len(),
        final(free)@ == old(free)@.subrange(0, final(free)@.len() as int),
        old(free)@.len() - 1 <= final(free)@.len() <= old(free)@.len(),
        r is None ==> final(mem)@ == old(mem)@ && final(free)@ == old(free)@,
        match table_after(old(mem)@, old(free)@, table, idx as int) {
            None => r is None,
            Some((p, m1, f1)) => r == Some(p) && final(mem)@ == m1 && final(free)@ == f1,
        },
        match vread(old(mem)@, table as int, idx as int) {
            None => r is None,
            Some(e) => if pte_valid(e) {
                r == Some(pte_ppn(e)) && final(mem)@ == old(mem)@ && final(free)@ == old(free)@
            } else {
                r is Some ==> {
                    let f = old(free)@.last();
                    &&& r == Some(f)
                    &&& final(free)@.len() == old(free)@.len() - 1
                    &&& vread(final(mem)@, table as int, idx as int) == Some((f << 12u64) | NON_LEAF_FLAGS)
                    &&& forall|i: int|
                        0 <= i < PTE_COUNT && !(f == table && i == idx) ==> #[trigger] vread(final(mem)@, f as int, i)
                            == Some(0u64)
                    &&& forall|p: int, i: int|
                        p != f && !(p == table && i == idx) ==> #[trigger] vread(final(mem)@, p, i) == vread(
                            old(mem)@,
                            p,
                            i,
                        )
                }
            },
        },
{
    let e = match mem.read_entry(table, idx) {
        Some(e) => e,
        None => return None,
    };
    if e & FLAG_PRESENT != 0 {
        return Some((e >> 12) & PPN_MASK);
    }
    let n = free.len();
    if n == 0 {
        return None;
    }
    let f = free[n - 1];
    if f < mem.base_ppn || f - mem.base_ppn >= mem.frames.len() as u64 {
        return None;
    }
    let f = free.pop().unwrap();
    proof {
        lemma_readable(*mem, f);
    }
    mem.zero_table(f);
    let ghost mz = mem@;
    mem.write_entry(table, idx, (f << 12) | NON_LEAF_FLAGS);
    assert forall|i: int| 0 <= i < PTE_COUNT && !(f == table && i == idx) implies #[trigger] vread(mem@, f as int, i)
        == Some(0u64) by {
        assert(vread(mz, f as int, i) == Some(0u64));
    }
    assert forall|p: int, i: int| p != f && !(p == table && i == idx) implies #[trigger] vread(mem@, p, i) == vread(
        old(mem)@,
        p,
        i,
    ) by {
        assert(vread(mz, p, i) == vread(old(mem)@, p, i));
    }
    Some(f)
}

/// The entry that maps the 2 MiB page at `addr` to itself with `flags` and
/// the huge bit.
pub open spec fn huge_entry(addr: usize, flags: u64) -> u64 {
    (((addr as u64) >> 12u64) << 12u64) | (flags | FLAG_PS)
}

/// One 2 MiB page of `identity_map_2mb` at `addr`: the tables at the top two
/// levels made where missing (`table_after`), then the huge entry written.
/// Whether it went through, and the memory and free list after it (what
/// was done before a failure stays).
pub open spec fn huge_step(m: MemView, free: Seq<u64>, root: u64, addr: usize, flags: u64) -> (bool, MemView, Seq<u64>) {
    match table_after(m, free, root, vpn_s(addr, 3)) {
        None => (false, m, free),
        Some((p3, m1, f1)) => match table_after(m1, f1, p3, vpn_s(addr, 2)) {
            None => (false, m1, f1),
            Some((p2, m2, f2)) => if m2.base <= p2 < m2.base + m2.tables.len() {
                (true, vwrite(m2, p2 as int, vpn_s(addr, 1), huge_entry(addr, flags)), f2)
            } else {
                (false, m2, f2)
            },
        },
    }
}

/// The 2 MiB pages from `addr` up to `end`, one `huge_step` after the
/// other, stopping at the first that fails: whether all went through, and
/// the memory and free list after them.
pub open spec fn huge_run(m: MemView, free: Seq<u64>, root: u64, addr: int, end: int, flags: u64) -> (bool, MemView, Seq<u64>)
    decreases end - addr + 0x20_0000,
{
    if addr >= end {
        (true, m, free)
    } else {
        let s = huge_step(m, free, root, addr as usize, flags);
        if !s.0 {
            s
        } else {
            huge_run(s.1, s.2, root, addr + 0x20_0000, end, flags)
        }
    }
}

/// Identity map `start..end`, rounded out to 2 MiB, with 2 MiB pages: for
/// each 2 MiB page, a missing table at the top two levels is made from a
/// zeroed free frame (see `ensure_table`), and the entry at the next level
/// maps the page with `flags` and the huge bit. Stops with `false` at the
/// first page for which `ensure_table` fails or the table found is not
/// memory.
pub fn identity_map_2mb(mem: &mut PhysMem, free: &mut Vec<u64>, root: u64, start: usize, end: usize, flags: PTEFlags) -> (r: bool)
    requires
        old(mem).wf(),
        end + 0x1f_ffff <= usize::MAX,
    ensures
        final(mem).wf(),
        final(mem)@.base == old(mem)@.base,
        final(mem)@.tables.len() == old(mem)@.tables.len(),
        final(free)@ == old(free)@.subrange(0, final(free)@.len() as int),
        start - start % 0x20_0000 >= (end + 0x1f_ffff) - (end + 0x1f_ffff) % 0x20_0000 ==> r && final(mem)@
            == old(mem)@ && final(free)@ == old(free)@,
        (r, final(mem)@, final(free)@) == huge_run(
            old(mem)@,
            old(free)@,
            root,
            start - start % 0x20_0000,
            (end + 0x1f_ffff) - (end + 0x1f_ffff) % 0x20_0000,
            flags.bits,
        ),
{
    proof {
        lemma_huge_mask(start);
        lemma_huge_mask((end + 0x1f_ffff) as usize);
    }
    let start_aligned = start & !(0x20_0000 - 1);
    let end_aligned = (end + (0x20_0000 - 1)) & !(0x20_0000 - 1);
    let mut addr = start_aligned;
    while addr < end_aligned
        invariant
            mem.wf(),
            mem@.base == old(mem)@.base,
            mem@.tables.len() == old(mem)@.tables.len(),
            free@.len() <= old(free)@.len(),
            free@ == old(free)@.subrange(0, free@.len() as int),
            addr % 0x20_0000 == 0,
            end_aligned % 0x20_0000 == 0,
            addr >= start_aligned,
            start_aligned == start - start % 0x20_0000,
            end_aligned == (end + 0x1f_ffff) - (end + 0x1f_ffff) % 0x20_0000,
            addr == start_aligned ==> mem@ == old(mem)@ && free@ == old(free)@,
            start_aligned >= end_aligned ==> addr == start_aligned,
            huge_run(mem@, free@, root, addr as int, end_aligned as int, flags.bits) == huge_run(
                old(mem)@,
                old(free)@,
                root,
                start_aligned as int,
                end_aligned as int,
                flags.bits,
            ),
        decreases end_aligned - addr,
    {
        let p3 = match ensure_table(mem, free, root, vpn(addr, 3)) {
            Some(p) => p,
            None => return false,
        };
        let p2 = match ensure_table(mem, free, p3, vpn(addr, 2)) {
            Some(p) => p,
            None => return false,
        };
        let idx = vpn(addr, 1);
        if p2 < mem.base_ppn || p2 - mem.base_ppn >= mem.frames.len() as u64 {
            return false;
        }
        proof {
            lemma_readable(*mem, p2);
        }
        let ppn = (addr as u64) >> 12;
        mem.write_entry(p2, idx, (ppn << 12) | (flags.bits | FLAG_PS));
        assert(addr + 0x20_0000 <= end_aligned);
        addr = addr + 0x20_0000;
    }
    true
}

/// The last-level table of the walk of `va` from the root is the one the
/// walk from its table at level `l` reaches.
proof fn lemma_slot_at(m: MemView, root: u64, va: usize, l: int)
    requires
        0 <= l <= 3,
    ensures
        match table_at(m, root, va, l) {
            Some(t) => pt_slot_from(m, root, va, 3) == pt_slot_from(m, t, va, l),
            None => pt_slot_from(m, root, va, 3) is None,
        },
    decreases 3 - l,
{
    if l < 3 {
        lemma_slot_at(m, root, va, l + 1);
    }
}

/// Clearing entry `i` of frame `f`, which the walk of `va` does not read,
/// keeps the translation of `va` from its table at level `l` down.
proof fn lemma_clear_off_path(m: MemView, root: u64, va: usize, f: int, i: int, l: int)
    requires
        0 <= l <= 3,
        table_at(m, root, va, l) is Some,
        !on_path(m, root, va, f, i),
    ensures
        translate_from(vwrite(m, f, i, 0), table_at(m, root, va, l)->0, va, l) == translate_from(
            m,
            table_at(m, root, va, l)->0,
            va,
            l,
        ),
    decreases l,
{
    let m2 = vwrite(m, f, i, 0);
    let t = table_at(m, root, va, l)->0;
    if t as int == f && vpn_s(va, l) == i {
        assert(on_path(m, root, va, f, i));
    }
    assert(vread(m2, t as int, vpn_s(va, l)) == vread(m, t as int, vpn_s(va, l)));
    if l > 0 {
        assert(step(m2, t, va, l) == step(m, t, va, l));
        match step(m, t, va, l) {
            Step::Next(p) => {
                assert(table_at(m, root, va, l - 1) == Some(p));
                lemma_clear_off_path(m, root, va, f, i, l - 1);
            },
            _ => {},
        }
    }
}

/// Unmapping what a `map` mapped: where a `map` of `va` to `pa` with
/// present flags went through with no huge page at the top two levels
/// (leaving, as it promises, the walk of `va` ending in a last-level table
/// through distinct frames), `unmap_user` of `va` hands back `pa`'s page plus
/// the offset of `va`; afterwards `va` translates to nothing, a second
/// `unmap_user` of it hands back nothing, and every address whose walk
/// does not read the cleared entry translates as before.
pub proof fn law_unmap_after_map(
    m0: MemView,
    f0: Seq<u64>,
    m1: MemView,
    f1: Seq<u64>,
    root: u64,
    va: usize,
    pa: usize,
    flags: u64,
    other: usize,
)
    requires
        map_effect(m0, f0, m1, f1, root, va, pa, flags),
        no_big_huge(m0, root, va),
        flags & FLAG_PRESENT != 0,
        flags == flags & ALL_FLAGS,
        (pa as u64) < 0x10_0000_0000_0000u64,
        walk_to_last_level(m1, root, va),
    ensures
        unmap_result(m1, root, va).0 == Some(
            (((pa as u64) & 0xffff_ffff_ffff_f000u64) | ((va as u64) & 0xfffu64)) as usize,
        ),
        translate_from(unmap_result(m1, root, va).1, root, va, 3) is None,
        unmap_result(unmap_result(m1, root, va).1, root, va).0 is None,
        !on_path(m1, root, other, table_at(m1, root, va, 0)->0 as int, vpn_s(va, 0)) ==> translate_from(
            unmap_result(m1, root, va).1,
            root,
            other,
            3,
        ) == translate_from(m1, root, other, 3),
{
    let t = table_at(m1, root, va, 0)->0;
    let i = vpn_s(va, 0);
    lemma_leaf_translation(pa, flags, va);
    lemma_translate_at(m1, root, va, 0);
    lemma_slot_at(m1, root, va, 0);
    let e = vread(m1, t as int, i)->0;
    assert(pte_valid(e));
    let m2 = vwrite(m1, t as int, i, 0);
    assert(unmap_result(m1, root, va) == (Some(leaf_frame(e, va)), m2));
    assert forall|l: int| 0 <= l <= 3 implies #[trigger] table_at(m2, root, va, l) == table_at(m1, root, va, l) by {
        lemma_table_at_kept(m1, root, va, t as int, i, l);
    }
    assert(vread(m2, t as int, i) == Some(0u64));
    assert(0u64 & FLAG_PRESENT == 0) by (bit_vector);
    lemma_translate_at(m2, root, va, 0);
    lemma_slot_at(m2, root, va, 0);
    if !on_path(m1, root, other, t as int, i) {
        assert(table_at(m1, root, other, 3) == Some(root));
        lemma_clear_off_path(m1, root, other, t as int, i, 3);
    }
}

/// Clearing an entry of the last-level table of the walk of `va` keeps
/// the tables of that walk, when they are different frames.
proof fn lemma_table_at_kept(m: MemView, root: u64, va: usize, f: int, i: int, l: int)
    requires
        0 <= l <= 3,
        table_at(m, root, va, 0) == Some(f as u64),
        path_distinct(m, root, va),
    ensures
        table_at(vwrite(m, f, i, 0), root, va, l) == table_at(m, root, va, l),
    decreases 3 - l,
{
    if l < 3 {
        lemma_table_at_kept(m, root, va, f, i, l + 1);
        match table_at(m, root, va, l + 1) {
            Some(t) => {
                assert(t as int != f) by {
                    assert(table_at(m, root, va, 0) is Some);
                }
                assert(vread(vwrite(m, f, i, 0), t as int, vpn_s(va, l + 1)) == vread(m, t as int, vpn_s(va, l + 1)));
            },
            None => {},
        }
    }
}

} // verus!
