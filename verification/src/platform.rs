//! Platform constants of the x86_64 target.
use vstd::prelude::*;

verus! {

/// Physical address where the boot loader places the kernel image (1 MiB).
pub const KERNEL_PHYS_BASE: u64 = 0x10_0000;

/// Base of the kernel's direct map: physical address `p` is visible at
/// `DIRECT_MAP_BASE + p`. It lies in the top 2 GiB of the address space, as
/// the kernel code model requires.
pub const DIRECT_MAP_BASE: u64 = 0xFFFF_FFFF_8000_0000;

/// Virtual address of the kernel image.
pub const KERNEL_VMA: u64 = 0xFFFF_FFFF_8010_0000;

/// MMIO addresses (identity-mapped in the kernel page tables).
pub const VGA_TEXT_BUFFER: u64 = 0xB8000;
pub const LAPIC_BASE: u64 = 0xFEE0_0000;
pub const IOAPIC_BASE: u64 = 0xFEC0_0000;
pub const UART_PORT: u16 = 0x3F8;

/// The direct-map alias of physical address `paddr`.
pub fn phys_to_virt(paddr: usize) -> (r: usize)
    requires
        paddr as u64 <= u64::MAX - DIRECT_MAP_BASE,
    ensures
        r == (paddr as u64 + DIRECT_MAP_BASE) as usize,
{
    #[verifier::truncate]
    ((paddr as u64 + DIRECT_MAP_BASE) as usize)
}

/// The physical address of direct-map address `vaddr`.
pub fn virt_to_phys(vaddr: usize) -> (r: usize)
    requires
        vaddr as u64 >= DIRECT_MAP_BASE,
    ensures
        r == (vaddr as u64 - DIRECT_MAP_BASE) as usize,
{
    #[verifier::truncate]
    ((vaddr as u64 - DIRECT_MAP_BASE) as usize)
}

} // verus!
