//! Verified core of a small AArch64 kernel: address alignment, translation
//! table descriptors, boot-time page-table construction, the translation
//! table pool, the flattened device tree parser, the PL011 UART register
//! protocol, the spinlock state and the freestanding memory routines.
use vstd::prelude::*;

pub mod align;
pub mod mmu;
pub mod mm;
pub mod boot;
pub mod sync;
pub mod builtins;
pub mod drivers;
