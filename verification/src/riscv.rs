//! RISC-V control and status registers and the interrupt enable bits.
pub mod csr;
pub mod interrupt;
