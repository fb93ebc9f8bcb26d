//! Verified core of the AMD Zynq UltraScale+ MPSoC support crate: the MMU
//! translation tables and register values, the soft-reset sequence, the
//! newlib system-call shims, and the decisions, output and log of the QEMU
//! test runner.

pub mod bits;
pub mod descriptor;
pub mod mmu;
pub mod registers;
pub mod newlib;
pub mod reset;
pub mod text;
pub mod runner;
pub mod report;
