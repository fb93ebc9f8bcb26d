# zynqmp

Support for the AMD Zynq UltraScale+ MPSoC, with its logic verified by Verus.

- `src/` is the verified library:
  - `bits`, `descriptor`: bit fields of 64-bit words and the block descriptors
    of the AArch64 translation tables;
  - `mmu`: the translation tables (1 GiB blocks for the devices, 2 MiB blocks
    for DDR, 4 KiB pages for the blocks that the program image and its guard
    range touch) and the
    proofs that they map every address to itself except a guard range, which
    faults, and that nothing writable is executable (W^X);
  - `registers`: the MAIR_EL1, TCR_EL1 and SCTLR_EL1 values;
  - `reset`: the soft-reset sequence through the CRL_APB registers;
  - `newlib`: the decisions of the `write` and `sbrk` system calls, and the
    proof that `sbrk` never hands out overlapping blocks;
  - `text`, `runner`, `report`: the test runner's processing of cargo and test
    output, its plan, outcomes and tally, what it prints, and its libtest JSON
    log lines.
- `app/` holds what touches the hardware or the host: processor and MMU
  registers, memory-mapped devices, the exported C symbols, and the test
  runner's command line, processes, files and printing.
