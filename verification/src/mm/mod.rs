pub mod addr;
pub mod address_space;
pub mod vma;
pub mod pmm;
pub mod page_table;
pub mod vmm;
pub mod frame;
pub mod mapping;
pub mod diagnostics;
