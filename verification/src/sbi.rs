//! The supervisor binary interface that the hypervisor offers its guests.
pub mod ecall;
pub mod timer;
