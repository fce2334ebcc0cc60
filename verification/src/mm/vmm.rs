//! Virtual memory manager: x86_64 four-level page tables.
//!
//! Page tables live in physical frames. `PhysMem` is the physical memory in
//! which the tables are read and written: a run of frames, each viewed as a
//! table of 512 entries. A frame number outside that run cannot be read; a
//! walk that meets one reports an invalid entry.
use crate::mm::addr::PhysAddr;
use crate::mm::page_table::WalkResult;
use vstd::prelude::*;

verus! {

/// Entries per page table.
pub const PTE_COUNT: usize = 512;

/// Levels of the page table hierarchy.
pub const PT_LEVELS: usize = 4;

pub const FLAG_PRESENT: u64 = 1;
pub const FLAG_WRITABLE: u64 = 2;
pub const FLAG_USER: u64 = 4;
pub const FLAG_PWT: u64 = 8;
pub const FLAG_PCD: u64 = 16;
pub const FLAG_ACCESSED: u64 = 32;
pub const FLAG_DIRTY: u64 = 64;
/// Page size bit: a huge page at a non-leaf level.
pub const FLAG_PS: u64 = 128;
pub const FLAG_GLOBAL: u64 = 256;
/// No-execute bit.
pub const FLAG_NX: u64 = 0x8000_0000_0000_0000;
/// Every defined flag bit.
pub const ALL_FLAGS: u64 = 0x8000_0000_0000_01ff;
/// Flags of a non-leaf entry: present, writable, user.
pub const NON_LEAF_FLAGS: u64 = 7;
/// Mask of the frame number once shifted down by twelve.
pub const PPN_MASK: u64 = 0xff_ffff_ffff;

/// Page table entry flags.
#[derive(Clone, Copy)]
pub struct PTEFlags {
    pub bits: u64,
}

impl PTEFlags {
    /// The raw bits.
    pub fn bits(&self) -> (r: u64)
        ensures
            r == self.bits,
    {
        self.bits
    }

    /// The defined flags among `bits`; other bits are dropped.
    pub fn from_bits_truncate(bits: u64) -> (r: Self)
        ensures
            r.bits == bits & ALL_FLAGS,
    {
        PTEFlags { bits: bits & ALL_FLAGS }
    }

    /// Whether every flag of `other` is set in `self`.
    pub fn contains(&self, other: PTEFlags) -> (r: bool)
        ensures
            r == (self.bits & other.bits == other.bits),
    {
        self.bits & other.bits == other.bits
    }

    /// The flags of both.
    pub fn union(self, other: PTEFlags) -> (r: Self)
        ensures
            r.bits == self.bits | other.bits,
    {
        PTEFlags { bits: self.bits | other.bits }
    }

    /// Kernel read-write mapping.
    pub fn krw() -> (r: Self)
        ensures
            r.bits == 3,
    {
        assert(1u64 | 2u64 == 3u64) by (bit_vector);
        PTEFlags { bits: FLAG_PRESENT | FLAG_WRITABLE }
    }

    /// User read-write mapping.
    pub fn urw() -> (r: Self)
        ensures
            r.bits == 7,
    {
        assert(1u64 | 2u64 | 4u64 == 7u64) by (bit_vector);
        PTEFlags { bits: FLAG_PRESENT | FLAG_WRITABLE | FLAG_USER }
    }

    /// User read-only mapping.
    pub fn ur() -> (r: Self)
        ensures
            r.bits == 5,
    {
        assert(1u64 | 4u64 == 5u64) by (bit_vector);
        PTEFlags { bits: FLAG_PRESENT | FLAG_USER }
    }

    /// Kernel read-write-execute mapping (no NX bit, so writable is all it
    /// adds to present).
    pub fn krwx() -> (r: Self)
        ensures
            r.bits == 3,
    {
        Self::krw()
    }

    /// Kernel read-execute mapping: present only.
    pub fn krx() -> (r: Self)
        ensures
            r.bits == 1,
    {
        PTEFlags { bits: FLAG_PRESENT }
    }

    /// User read-write-execute mapping.
    pub fn urwx() -> (r: Self)
        ensures
            r.bits == 7,
    {
        Self::urw()
    }

    /// User execute-only mapping (without NX, the same bits as read-only).
    pub fn ux() -> (r: Self)
        ensures
            r.bits == 5,
    {
        Self::ur()
    }
}

/// The frame number an entry points to.
pub open spec fn pte_ppn(e: u64) -> u64 {
    (e >> 12u64) & PPN_MASK
}

/// Whether an entry is present.
pub open spec fn pte_valid(e: u64) -> bool {
    e & FLAG_PRESENT != 0
}

/// Whether an entry maps a huge page.
pub open spec fn pte_huge(e: u64) -> bool {
    e & FLAG_PS != 0
}

/// A page table entry.
#[derive(Clone, Copy)]
pub struct PTE(pub u64);

impl PTE {
    /// A leaf entry for frame `ppn` with `flags`, exactly as given.
    pub fn new_leaf(ppn: usize, flags: PTEFlags) -> (r: Self)
        ensures
            r.0 == ((ppn as u64) << 12u64) | flags.bits,
    {
        PTE(((ppn as u64) << 12) | flags.bits)
    }

    /// An entry for frame `ppn` with `flags` (on x86_64 a leaf entry).
    pub fn new(ppn: usize, flags: PTEFlags) -> (r: Self)
        ensures
            r.0 == ((ppn as u64) << 12u64) | flags.bits,
    {
        Self::new_leaf(ppn, flags)
    }

    /// A non-leaf entry pointing to the table at frame `ppn`: present,
    /// writable and user, so that user-mode walks pass it.
    pub fn new_nonleaf(ppn: usize) -> (r: Self)
        ensures
            r.0 == ((ppn as u64) << 12u64) | NON_LEAF_FLAGS,
    {
        PTE(((ppn as u64) << 12) | NON_LEAF_FLAGS)
    }

    /// The defined flag bits of the entry.
    pub fn flags(&self) -> (r: PTEFlags)
        ensures
            r.bits == self.0 & ALL_FLAGS,
    {
        PTEFlags::from_bits_truncate(self.0)
    }

    /// The frame number the entry points to (40 bits).
    pub fn ppn(&self) -> (r: usize)
        ensures
            r == pte_ppn(self.0) as usize,
    {
        let e = self.0;
        proof {
            assert((e >> 12u64) & 0xff_ffff_ffffu64 <= 0xff_ffff_ffffu64) by (bit_vector);
        }
        #[verifier::truncate]
        (((e >> 12) & PPN_MASK) as usize)
    }

    /// Whether the entry is present.
    pub fn is_valid(&self) -> (r: bool)
        ensures
            r == pte_valid(self.0),
    {
        self.0 & FLAG_PRESENT != 0
    }

    /// Whether the entry maps a page at `level`: present, and either at the
    /// leaf level or a huge page.
    pub fn is_leaf_at_level(&self, level: usize) -> (r: bool)
        ensures
            r == (pte_valid(self.0) && (level == 0 || pte_huge(self.0))),
    {
        self.is_valid() && (level == 0 || self.0 & FLAG_PS != 0)
    }
}

/// A page table: 512 entries.
pub struct PageTable {
    pub entries: Vec<PTE>,
}

impl PageTable {
    /// A table of 512 empty entries.
    pub fn zeroed() -> (r: Self)
        ensures
            r.entries@.len() == PTE_COUNT,
            forall|i: int| 0 <= i < PTE_COUNT ==> (#[trigger] r.entries@[i]).0 == 0,
    {
        let mut entries: Vec<PTE> = Vec::new();
        let mut i: usize = 0;
        while i < PTE_COUNT
            invariant
                i <= PTE_COUNT,
                entries@.len() == i,
                forall|j: int| 0 <= j < i ==> (#[trigger] entries@[j]).0 == 0,
            decreases PTE_COUNT - i,
        {
            entries.push(PTE(0));
            i = i + 1;
        }
        PageTable { entries }
    }

    /// Entry `idx`.
    pub fn entry(&self, idx: usize) -> (r: PTE)
        requires
            idx < self.entries@.len(),
        ensures
            r == self.entries@[idx as int],
    {
        self.entries[idx]
    }

    /// Replace entry `idx`.
    pub fn set_entry(&mut self, idx: usize, pte: PTE)
        requires
            idx < old(self).entries@.len(),
        ensures
            final(self).entries@ == old(self).entries@.update(idx as int, pte),
    {
        self.entries.set(idx, pte);
    }
}

/// The index into the table at `level` for `vaddr`.
pub open spec fn vpn_s(vaddr: usize, level: int) -> int {
    (((vaddr as u64) >> ((12 + 9 * level) as u64)) & 0x1ffu64) as int
}

/// Index into the table at `level` for `vaddr` (nine bits per level).
pub fn vpn(vaddr: usize, level: usize) -> (r: usize)
    requires
        level < PT_LEVELS,
    ensures
        r == vpn_s(vaddr, level as int),
        r < PTE_COUNT,
{
    let sh = (12 + 9 * level) as u64;
    let v = vaddr as u64;
    proof {
        assert((v >> sh) & 0x1ffu64 < 512u64) by (bit_vector);
    }
    ((v >> sh) & 0x1ff) as usize
}

/// Physical memory holding page tables: frames `base_ppn ..` each viewed
/// as a table.
pub struct PhysMem {
    pub base_ppn: u64,
    pub frames: Vec<PageTable>,
}

/// A ghost view of physical memory: the first frame number and the
/// entries of each frame.
pub struct MemView {
    pub base: int,
    pub tables: Seq<Seq<u64>>,
}

/// Entry `idx` of the table in frame `ppn`, if that frame is memory.
pub open spec fn vread(m: MemView, ppn: int, idx: int) -> Option<u64> {
    if m.base <= ppn < m.base + m.tables.len() && 0 <= idx < m.tables[ppn - m.base].len() {
        Some(m.tables[ppn - m.base][idx])
    } else {
        None
    }
}

/// Memory with every entry of frame `ppn` set to zero.
pub open spec fn vzero(m: MemView, ppn: int) -> MemView {
    if m.base <= ppn < m.base + m.tables.len() {
        MemView { base: m.base, tables: m.tables.update(ppn - m.base, Seq::new(PTE_COUNT as nat, |i: int| 0u64)) }
    } else {
        m
    }
}

/// Memory with entry `idx` of frame `ppn` replaced by `v`.
pub open spec fn vwrite(m: MemView, ppn: int, idx: int, v: u64) -> MemView {
    if m.base <= ppn < m.base + m.tables.len() && 0 <= idx < m.tables[ppn - m.base].len() {
        MemView {
            base: m.base,
            tables: m.tables.update(ppn - m.base, m.tables[ppn - m.base].update(idx, v)),
        }
    } else {
        m
    }
}

impl PhysMem {
    /// Every frame is a table of 512 entries.
    pub open spec fn wf(&self) -> bool {
        &&& forall|i: int| 0 <= i < self.frames@.len() ==> (#[trigger] self.frames@[i]).entries@.len()
            == PTE_COUNT
        &&& self.base_ppn + self.frames@.len() <= u64::MAX
    }

    /// `frames` zeroed frames starting at frame `base_ppn`.
    pub fn new(base_ppn: u64, frames: usize) -> (r: Self)
        requires
            base_ppn + frames <= u64::MAX,
        ensures
            r.wf(),
            r@.base == base_ppn,
            r@.tables.len() == frames,
            forall|p: int, i: int|
                base_ppn <= p < base_ppn + frames && 0 <= i < PTE_COUNT ==> #[trigger] vread(
                    r@,
                    p,
                    i,
                ) == Some(0u64),
    {
        let mut v: Vec<PageTable> = Vec::new();
        let mut k: usize = 0;
        while k < frames
            invariant
                k <= frames,
                v@.len() == k,
                forall|i: int|
                    0 <= i < k ==> (#[trigger] v@[i]).entries@.len() == PTE_COUNT && forall|j: int|
                        0 <= j < PTE_COUNT ==> (#[trigger] v@[i].entries@[j]).0 == 0,
            decreases frames - k,
        {
            v.push(PageTable::zeroed());
            k = k + 1;
        }
        PhysMem { base_ppn, frames: v }
    }

    /// Entry `idx` of the table in frame `ppn`; `None` when the frame is not
    /// memory.
    pub fn read_entry(&self, ppn: u64, idx: usize) -> (r: Option<u64>)
        requires
            self.wf(),
            idx < PTE_COUNT,
        ensures
            r == vread(self@, ppn as int, idx as int),
    {
        if ppn >= self.base_ppn && ppn - self.base_ppn < self.frames.len() as u64 {
            let n = self.frames.len();
        assert(ppn - self.base_ppn < n);
        let k = (ppn - self.base_ppn) as usize;
            Some(self.frames[k].entries[idx].0)
        } else {
            None
        }
    }

    /// Replace entry `idx` of the table in frame `ppn`, which must be
    /// memory.
    pub fn write_entry(&mut self, ppn: u64, idx: usize, val: u64)
        requires
            old(self).wf(),
            idx < PTE_COUNT,
            vread(old(self)@, ppn as int, idx as int) is Some,
        ensures
            final(self).wf(),
            final(self)@ == vwrite(old(self)@, ppn as int, idx as int, val),
    {
        let n = self.frames.len();
        assert(ppn - self.base_ppn < n);
        let k = (ppn - self.base_ppn) as usize;
        let t = &mut self.frames[k];
        t.entries.set(idx, PTE(val));
        proof {
            let w = vwrite(old(self)@, ppn as int, idx as int, val);
            assert(self@.tables =~= w.tables) by {
                assert forall|i: int| 0 <= i < self@.tables.len() implies #[trigger] self@.tables[i]
                    =~= w.tables[i] by {}
            }
        }
    }

    /// Fill the table in frame `ppn` with empty entries.
    pub fn zero_table(&mut self, ppn: u64)
        requires
            old(self).wf(),
            vread(old(self)@, ppn as int, 0) is Some,
        ensures
            final(self).wf(),
            final(self)@.base == old(self)@.base,
            final(self)@.tables.len() == old(self)@.tables.len(),
            final(self)@ == vzero(old(self)@, ppn as int),
            forall|p: int, i: int| #[trigger]
                vread(final(self)@, p, i) == if p == ppn && 0 <= i < PTE_COUNT {
                    Some(0u64)
                } else {
                    vread(old(self)@, p, i)
                },
    {
        let n = self.frames.len();
        assert(ppn - self.base_ppn < n);
        let k = (ppn - self.base_ppn) as usize;
        let t = PageTable::zeroed();
        self.frames.set(k, t);
        proof {
            assert forall|j: int| 0 <= j < self@.tables.len() implies #[trigger] self@.tables[j] == vzero(
                old(self)@,
                ppn as int,
            ).tables[j] by {
                assert(self@.tables[j] =~= vzero(old(self)@, ppn as int).tables[j]);
            }
            assert(self@.tables =~= vzero(old(self)@, ppn as int).tables);
            assert forall|p: int, i: int| #[trigger]
                vread(self@, p, i) == if p == ppn && 0 <= i < PTE_COUNT {
                    Some(0u64)
                } else {
                    vread(old(self)@, p, i)
                } by {}
        }
    }
}

impl View for PhysMem {
    type V = MemView;

    /// The entries of every frame.
    open spec fn view(&self) -> MemView {
        MemView {
            base: self.base_ppn as int,
            tables: Seq::new(
                self.frames@.len(),
                |i: int| Seq::new(self.frames@[i].entries@.len(), |j: int| self.frames@[i].entries@[j].0),
            ),
        }
    }
}


/// What one level of a walk finds.
pub enum Step {
    /// The entry is not present.
    Absent,
    /// The entry maps a huge page.
    Huge(u64),
    /// The entry points to the next table.
    Next(u64),
    /// The table cannot be read, or the entry points to frame zero.
    Bad,
}

/// The entry for `va` at `level` in the table in frame `ppn`.
pub open spec fn step(m: MemView, ppn: u64, va: usize, level: int) -> Step {
    match vread(m, ppn as int, vpn_s(va, level)) {
        None => Step::Bad,
        Some(e) => if !pte_valid(e) {
            Step::Absent
        } else if pte_huge(e) {
            Step::Huge(e)
        } else if pte_ppn(e) == 0 {
            Step::Bad
        } else {
            Step::Next(pte_ppn(e))
        },
    }
}

/// The mathematical result of a walk.
pub enum WalkView {
    NotMapped,
    Mapped4K { frame: usize, flags: u64 },
    MappedHuge { frame: usize, level: usize, size: usize, flags: u64 },
    Invalid,
}

/// Bytes mapped by one entry at `level`.
pub open spec fn level_size(level: int) -> u64 {
    1u64 << ((12 + 9 * level) as u64)
}

/// The huge page that entry `e` at `level` maps: its frame address, aligned
/// to the page's size.
pub open spec fn huge_base(e: u64, level: int) -> usize {
    ((pte_ppn(e) << 12u64) & !((level_size(level) - 1) as u64)) as usize
}

/// The 4 KiB page that entry `e` maps: its frame address.
pub open spec fn page_base(e: u64) -> usize {
    (pte_ppn(e) << 12u64) as usize
}

/// Address of `va` within the huge page that entry `e` at `level` maps.
pub open spec fn huge_frame(e: u64, va: usize, level: int) -> usize {
    ((pte_ppn(e) << 12u64) | ((va as u64) & ((level_size(level) - 1) as u64))) as usize
}

/// Address of `va` within the 4 KiB page that entry `e` maps.
pub open spec fn leaf_frame(e: u64, va: usize) -> usize {
    ((pte_ppn(e) << 12u64) | ((va as u64) & 0xfffu64)) as usize
}

/// The walk for `va` from the table in frame `ppn` at `level` down.
pub open spec fn walk_from(m: MemView, ppn: u64, va: usize, level: int) -> WalkView
    decreases level,
{
    if level <= 0 {
        match vread(m, ppn as int, vpn_s(va, 0)) {
            None => WalkView::Invalid,
            Some(e) => if !pte_valid(e) {
                WalkView::NotMapped
            } else if pte_ppn(e) == 0 {
                WalkView::Invalid
            } else {
                WalkView::Mapped4K { frame: page_base(e), flags: e & ALL_FLAGS }
            },
        }
    } else {
        match step(m, ppn, va, level) {
            Step::Absent => WalkView::NotMapped,
            Step::Bad => WalkView::Invalid,
            Step::Huge(e) => WalkView::MappedHuge {
                frame: huge_base(e, level),
                level: level as usize,
                size: level_size(level) as usize,
                flags: e & ALL_FLAGS,
            },
            Step::Next(p) => walk_from(m, p, va, level - 1),
        }
    }
}

/// The walk for `va` from the root table in frame `root`.
pub open spec fn walk_spec(m: MemView, root: u64, va: usize) -> WalkView {
    walk_from(m, root, va, 3)
}

/// The mathematical value of a walk result.
pub open spec fn walk_view(r: WalkResult) -> WalkView {
    match r {
        WalkResult::NotMapped => WalkView::NotMapped,
        WalkResult::Mapped4K { frame, flags } => WalkView::Mapped4K { frame: frame@, flags },
        WalkResult::MappedHuge { frame, level, size, flags } => WalkView::MappedHuge {
            frame: frame@,
            level,
            size,
            flags,
        },
        WalkResult::Invalid => WalkView::Invalid,
    }
}

/// One level of a walk.
fn walk_step(mem: &PhysMem, ppn: u64, va: usize, level: usize) -> (r: (Step, u64))
    requires
        mem.wf(),
        level < PT_LEVELS,
    ensures
        r.0 == step(mem@, ppn, va, level as int),
{
    let idx = vpn(va, level);
    match mem.read_entry(ppn, idx) {
        None => (Step::Bad, 0),
        Some(e) => {
            if e & FLAG_PRESENT == 0 {
                (Step::Absent, e)
            } else if e & FLAG_PS != 0 {
                (Step::Huge(e), e)
            } else {
                let p = (e >> 12) & PPN_MASK;
                if p == 0 {
                    (Step::Bad, e)
                } else {
                    (Step::Next(p), e)
                }
            }
        },
    }
}

/// Typed walk of the tables rooted at frame `root` for `vaddr`: a huge page
/// on the way is reported as such, never descended into.
pub fn walk_mapping(mem: &PhysMem, root: u64, vaddr: usize) -> (r: WalkResult)
    requires
        mem.wf(),
    ensures
        walk_view(r) == walk_spec(mem@, root, vaddr),
{
    let mut table = root;
    let mut level: usize = 3;
    while level > 0
        invariant
            mem.wf(),
            level <= 3,
            walk_from(mem@, table, vaddr, level as int) == walk_spec(mem@, root, vaddr),
        decreases level,
    {
        let (st, _) = walk_step(mem, table, vaddr, level);
        match st {
            Step::Absent => {
                return WalkResult::NotMapped;
            },
            Step::Bad => {
                return WalkResult::Invalid;
            },
            Step::Huge(e) => {
                let shift = (12 + 9 * level) as u64;
                assert(shift < 64);
                let size: u64 = 1u64 << shift;
                proof {
                    assert(shift < 64 ==> 1u64 << shift >= 1u64) by (bit_vector);
                }
                let mask = size - 1;
                let fr: u64 = (((e >> 12) & PPN_MASK) << 12) & !mask;
                let frame = #[verifier::truncate]
                (fr as usize);
                return WalkResult::MappedHuge {
                    frame: PhysAddr::new(frame),
                    level,
                    size: #[verifier::truncate]
                    (size as usize),
                    flags: e & ALL_FLAGS,
                };
            },
            Step::Next(p) => {
                table = p;
            },
        }
        level = level - 1;
    }
    let idx = vpn(vaddr, 0);
    match mem.read_entry(table, idx) {
        None => WalkResult::Invalid,
        Some(e) => {
            if e & FLAG_PRESENT == 0 {
                WalkResult::NotMapped
            } else {
                let p = (e >> 12) & PPN_MASK;
                if p == 0 {
                    WalkResult::Invalid
                } else {
                    let fr: u64 = p << 12;
                    let frame = #[verifier::truncate]
                    (fr as usize);
                    WalkResult::Mapped4K { frame: PhysAddr::new(frame), flags: e & ALL_FLAGS }
                }
            }
        },
    }
}


/// The translation of `va` from the table in frame `ppn` at `level` down:
/// the mapped address, also inside a huge page.
pub open spec fn translate_from(m: MemView, ppn: u64, va: usize, level: int) -> Option<usize>
    decreases level,
{
    if level <= 0 {
        match vread(m, ppn as int, vpn_s(va, 0)) {
            None => None,
            Some(e) => if !pte_valid(e) {
                None
            } else {
                Some(leaf_frame(e, va))
            },
        }
    } else {
        match step(m, ppn, va, level) {
            Step::Absent => None,
            Step::Bad => None,
            Step::Huge(e) => Some(huge_frame(e, va, level)),
            Step::Next(p) => translate_from(m, p, va, level - 1),
        }
    }
}

/// The frame of the last-level table for `va`, reached without meeting a
/// missing entry, a huge page or frame zero.
pub open spec fn pt_slot_from(m: MemView, ppn: u64, va: usize, level: int) -> Option<u64>
    decreases level,
{
    if level <= 0 {
        Some(ppn)
    } else {
        match step(m, ppn, va, level) {
            Step::Next(p) => pt_slot_from(m, p, va, level - 1),
            _ => None,
        }
    }
}

/// Translate `vaddr` through the tables rooted at frame `root`: the mapped
/// physical address, also inside a huge page; `None` when unmapped.
pub fn translate_user(mem: &PhysMem, root: u64, vaddr: usize) -> (r: Option<usize>)
    requires
        mem.wf(),
    ensures
        r == translate_from(mem@, root, vaddr, 3),
{
    let mut table = root;
    let mut level: usize = 3;
    while level > 0
        invariant
            mem.wf(),
            level <= 3,
            translate_from(mem@, table, vaddr, level as int) == translate_from(mem@, root, vaddr, 3),
        decreases level,
    {
        let (st, _) = walk_step(mem, table, vaddr, level);
        match st {
            Step::Absent => {
                return None;
            },
            Step::Bad => {
                return None;
            },
            Step::Huge(e) => {
                let shift = (12 + 9 * level) as u64;
                let size: u64 = 1u64 << shift;
                proof {
                    assert(shift < 64 ==> 1u64 << shift >= 1u64) by (bit_vector);
                }
                let mask = size - 1;
                let fr: u64 = (((e >> 12) & PPN_MASK) << 12) | ((vaddr as u64) & mask);
                return Some(
                    #[verifier::truncate]
                    (fr as usize),
                );
            },
            Step::Next(p) => {
                table = p;
            },
        }
        level = level - 1;
    }
    let idx = vpn(vaddr, 0);
    match mem.read_entry(table, idx) {
        None => None,
        Some(e) => {
            if e & FLAG_PRESENT == 0 {
                None
            } else {
                let fr: u64 = (((e >> 12) & PPN_MASK) << 12) | ((vaddr as u64) & 0xfff);
                Some(
                    #[verifier::truncate]
                    (fr as usize),
                )
            }
        },
    }
}

/// The last-level table for `vaddr` (see `pt_slot_from`) and the index of
/// the entry for `vaddr` in it.
pub fn walk_to_pt(mem: &PhysMem, root: u64, vaddr: usize) -> (r: Option<(u64, usize)>)
    requires
        mem.wf(),
    ensures
        r matches Some((p, i)) ==> pt_slot_from(mem@, root, vaddr, 3) == Some(p) && i == vpn_s(
            vaddr,
            0,
        ) && i < PTE_COUNT,
        r is None ==> pt_slot_from(mem@, root, vaddr, 3) is None,
{
    let mut table = root;
    let mut level: usize = 3;
    while level > 0
        invariant
            mem.wf(),
            level <= 3,
            pt_slot_from(mem@, table, vaddr, level as int) == pt_slot_from(mem@, root, vaddr, 3),
        decreases level,
    {
        let (st, _) = walk_step(mem, table, vaddr, level);
        match st {
            Step::Next(p) => {
                table = p;
            },
            _ => {
                return None;
            },
        }
        level = level - 1;
    }
    Some((table, vpn(vaddr, 0)))
}

/// The raw last-level entry for `vaddr`, for debugging.
pub fn debug_pte(mem: &PhysMem, root: u64, vaddr: usize) -> (r: Option<u64>)
    requires
        mem.wf(),
    ensures
        r == match pt_slot_from(mem@, root, vaddr, 3) {
            Some(p) => vread(mem@, p as int, vpn_s(vaddr, 0)),
            None => None,
        },
{
    match walk_to_pt(mem, root, vaddr) {
        Some((p, i)) => mem.read_entry(p, i),
        None => None,
    }
}

/// What unmapping the 4 KiB page at `va` gives and leaves of `m`: when the
/// walk reaches a last-level table whose entry for `va` is present, the
/// address it mapped `va` to, with that entry cleared; otherwise nothing,
/// `m` unchanged.
pub open spec fn unmap_result(m: MemView, root: u64, va: usize) -> (Option<usize>, MemView) {
    match pt_slot_from(m, root, va, 3) {
        None => (None, m),
        Some(p) => match vread(m, p as int, vpn_s(va, 0)) {
            None => (None, m),
            Some(e) => if !pte_valid(e) {
                (None, m)
            } else {
                (Some(leaf_frame(e, va)), vwrite(m, p as int, vpn_s(va, 0), 0))
            },
        },
    }
}

/// Unmap the 4 KiB page at `vaddr`: its last-level entry is cleared and
/// the physical address it mapped `vaddr` to is returned. `None`, changing
/// nothing, when no such entry is present.
pub fn unmap_user(mem: &mut PhysMem, root: u64, vaddr: usize) -> (r: Option<usize>)
    requires
        old(mem).wf(),
    ensures
        final(mem).wf(),
        (r, final(mem)@) == unmap_result(old(mem)@, root, vaddr),
{
    let (p, i) = match walk_to_pt(mem, root, vaddr) {
        Some(x) => x,
        None => {
            return None;
        },
    };
    let e = match mem.read_entry(p, i) {
        Some(e) => e,
        None => {
            return None;
        },
    };
    if e & FLAG_PRESENT == 0 {
        return None;
    }
    let fr: u64 = (((e >> 12) & PPN_MASK) << 12) | ((vaddr as u64) & 0xfff);
    mem.write_entry(p, i, 0);
    Some(
        #[verifier::truncate]
        (fr as usize),
    )
}

/// The frame of the last-level table for `va`, following present entries
/// to non-zero frames without regard to huge pages.
pub open spec fn or_slot_from(m: MemView, ppn: u64, va: usize, level: int) -> Option<u64>
    decreases level,
{
    if level <= 0 {
        Some(ppn)
    } else {
        match vread(m, ppn as int, vpn_s(va, level)) {
            None => None,
            Some(e) => if !pte_valid(e) || pte_ppn(e) == 0 {
                None
            } else {
                or_slot_from(m, pte_ppn(e), va, level - 1)
            },
        }
    }
}

/// Add `add_flags` to the last-level entry of `vaddr`. `false`, changing
/// nothing, when the walk meets a missing entry or frame zero or the entry
/// is not present.
pub fn or_pte_flags(mem: &mut PhysMem, root: u64, vaddr: usize, add_flags: PTEFlags) -> (r: bool)
    requires
        old(mem).wf(),
    ensures
        final(mem).wf(),
        match or_slot_from(old(mem)@, root, vaddr, 3) {
            None => !r && final(mem)@ == old(mem)@,
            Some(p) => match vread(old(mem)@, p as int, vpn_s(vaddr, 0)) {
                None => !r && final(mem)@ == old(mem)@,
                Some(e) => if !pte_valid(e) {
                    !r && final(mem)@ == old(mem)@
                } else {
                    r && final(mem)@ == vwrite(
                        old(mem)@,
                        p as int,
                        vpn_s(vaddr, 0),
                        (pte_ppn(e) << 12u64) | ((e & ALL_FLAGS) | add_flags.bits),
                    )
                },
            },
        },
{
    let mut table = root;
    let mut level: usize = 3;
    while level > 0
        invariant
            mem.wf(),
            mem@ == old(mem)@,
            level <= 3,
            or_slot_from(mem@, table, vaddr, level as int) == or_slot_from(mem@, root, vaddr, 3),
        decreases level,
    {
        let idx = vpn(vaddr, level);
        let e = match mem.read_entry(table, idx) {
            Some(e) => e,
            None => {
                return false;
            },
        };
        if e & FLAG_PRESENT == 0 {
            return false;
        }
        let p = (e >> 12) & PPN_MASK;
        if p == 0 {
            return false;
        }
        table = p;
        level = level - 1;
    }
    let idx = vpn(vaddr, 0);
    let e = match mem.read_entry(table, idx) {
        Some(e) => e,
        None => {
            return false;
        },
    };
    if e & FLAG_PRESENT == 0 {
        return false;
    }
    let new_flags = PTEFlags::from_bits_truncate(e).union(add_flags);
    let p = (e >> 12) & PPN_MASK;
    mem.write_entry(table, idx, (p << 12) | new_flags.bits());
    true
}

/// A non-leaf entry with the user bit added when the leaf flags ask for
/// user access and it lacks it.
pub open spec fn user_patch(e: u64, leaf_flags: u64) -> u64 {
    if e & FLAG_USER == 0 && leaf_flags & FLAG_USER == FLAG_USER {
        e | FLAG_USER
    } else {
        e
    }
}

/// The memory and result of changing the flags of the page of `va` from
/// the table in frame `ppn` at `level` down: each non-leaf entry passed is
/// given the user bit when the flags ask for it; the last-level entry keeps
/// its frame and takes `flags`.
pub open spec fn mprotect_from(m: MemView, ppn: u64, va: usize, level: int, flags: u64) -> (bool, MemView)
    decreases level,
{
    if level <= 0 {
        match vread(m, ppn as int, vpn_s(va, 0)) {
            None => (false, m),
            Some(e) => if !pte_valid(e) {
                (false, m)
            } else {
                (true, vwrite(m, ppn as int, vpn_s(va, 0), (pte_ppn(e) << 12u64) | flags))
            },
        }
    } else {
        match vread(m, ppn as int, vpn_s(va, level)) {
            None => (false, m),
            Some(e) => if !pte_valid(e) || pte_huge(e) {
                (false, m)
            } else {
                let e2 = user_patch(e, flags);
                let m2 = vwrite(m, ppn as int, vpn_s(va, level), e2);
                if pte_ppn(e2) == 0 {
                    (false, m2)
                } else {
                    mprotect_from(m2, pte_ppn(e2), va, level - 1, flags)
                }
            },
        }
    }
}

/// Change the flags of the mapped page at `vaddr`, keeping its frame.
/// Non-leaf entries on the way get the user bit when `flags` asks for user
/// access. A huge page is not a user leaf: the walk stops there with
/// `false`, as it does at a missing entry.
pub fn mprotect_user(mem: &mut PhysMem, root: u64, vaddr: usize, flags: PTEFlags) -> (r: bool)
    requires
        old(mem).wf(),
    ensures
        final(mem).wf(),
        (r, final(mem)@) == mprotect_from(old(mem)@, root, vaddr, 3, flags.bits),
{
    let mut table = root;
    let mut level: usize = 3;
    while level > 0
        invariant
            mem.wf(),
            level <= 3,
            mprotect_from(mem@, table, vaddr, level as int, flags.bits) == mprotect_from(
                old(mem)@,
                root,
                vaddr,
                3,
                flags.bits,
            ),
        decreases level,
    {
        let idx = vpn(vaddr, level);
        let e = match mem.read_entry(table, idx) {
            Some(e) => e,
            None => {
                return false;
            },
        };
        if e & FLAG_PRESENT == 0 {
            return false;
        }
        if e & FLAG_PS != 0 {
            return false;
        }
        let e2 = if e & FLAG_USER == 0 && flags.bits & FLAG_USER == FLAG_USER {
            e | FLAG_USER
        } else {
            e
        };
        mem.write_entry(table, idx, e2);
        let p = (e2 >> 12) & PPN_MASK;
        if p == 0 {
            return false;
        }
        table = p;
        level = level - 1;
    }
    let idx = vpn(vaddr, 0);
    let e = match mem.read_entry(table, idx) {
        Some(e) => e,
        None => {
            return false;
        },
    };
    if e & FLAG_PRESENT == 0 {
        return false;
    }
    let p = (e >> 12) & PPN_MASK;
    mem.write_entry(table, idx, (p << 12) | flags.bits);
    true
}

} // verus!
