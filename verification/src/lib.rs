//! Verified core of a small x86_64 kernel: memory management (typed
//! addresses, frame allocation, page tables, VMAs), file descriptor and file
//! system bookkeeping, pipes, the TTY line discipline, the kernel log ring
//! and USB descriptor parsing.
use vstd::prelude::*;

pub mod driver;
pub mod env;
pub mod kernel_log;
pub mod mm;
pub mod net;
pub mod platform;
