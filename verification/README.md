# rustyvisor (verified core)

The verified core of a small RISC-V hypervisor, written in Verus.

- `src/` is the library. Its modules:
  - `memory`: a model of physical memory, one word per address.
  - `paging`: Sv39 addresses and page-table entries, the page allocator,
    mapping and resolving an address, and the report on the mappings.
  - `table_tree`: well-formed page-table trees; mapping keeps them well
    formed and keeps every translation it does not replace, so the guest's
    page table maps each of its pages to itself.
  - `riscv::csr`, `riscv::interrupt`: updates of the control and status
    registers, as functions from the current value to the new one.
  - `clint`, `plic`, `memlayout`: register layout of the core-local
    interruptor and of the interrupt controller, and the memory map.
  - `sbi`, `timer`: SBI return values, the SBI timer extension and the
    guests' virtual timers.
  - `m_mode_calls`, `mkernel`, `hypervisor`, `guest`: the decisions of the
    M-mode layer, of the hypervisor's trap handler and of the guest kernel.
- `app/` is the program around it: register and device access, the entry
  points and trap handlers that the start-up assembly calls, and the output.
- `tests/` runs the library on concrete values.
