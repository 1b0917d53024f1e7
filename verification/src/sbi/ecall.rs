//! Extension identifiers and the return value of an SBI call.
use vstd::prelude::*;

verus! {

pub const EXTENSION_BASE: usize = 0x10;
pub const EXTENSION_TIMER: usize = 0x54494D45;
pub const EXTENSION_IPI: usize = 0x735049;
pub const EXTENSION_RFENCE: usize = 0x52464E43;
pub const EXTENSION_HSM: usize = 0x48534D;
pub const EXTENSION_SRST: usize = 0x53525354;
pub const EXTENSION_PMU: usize = 0x504D55;

pub struct SbiRet {
    /// Error number
    pub error: usize,
    /// Result value
    pub value: usize,
}

/// The error number `-k` as the register holds it (two's complement).
pub open spec fn sbi_error(k: nat) -> usize {
    (usize::MAX + 1 - k) as usize
}

pub const SBI_SUCCESS: usize = 0;
pub const SBI_ERR_FAILED: usize = usize::MAX;
pub const SBI_ERR_NOT_SUPPORTED: usize = usize::MAX - 1;
pub const SBI_ERR_INVALID_PARAM: usize = usize::MAX - 2;
pub const SBI_ERR_INVALID_ADDRESS: usize = usize::MAX - 4;
pub const SBI_ERR_ALREADY_AVAILABLE: usize = usize::MAX - 5;
pub const SBI_ERR_ALREADY_STARTED: usize = usize::MAX - 6;
pub const SBI_ERR_ALREADY_STOPPED: usize = usize::MAX - 7;

impl SbiRet {
    /// Return success SBI state with given value.
    pub fn ok(value: usize) -> (r: SbiRet)
        ensures
            r.error == 0,
            r.value == value,
    {
        SbiRet { error: SBI_SUCCESS, value }
    }

    /// The SBI call request failed for unknown reasons.
    pub fn failed() -> (r: SbiRet)
        ensures
            r.error == sbi_error(1),
            r.value == 0,
    {
        SbiRet { error: SBI_ERR_FAILED, value: 0 }
    }

    /// SBI call failed due to not supported by target ISA, operation type not supported,
    /// or target operation type not implemented on purpose.
    pub fn not_supported() -> (r: SbiRet)
        ensures
            r.error == sbi_error(2),
            r.value == 0,
    {
        SbiRet { error: SBI_ERR_NOT_SUPPORTED, value: 0 }
    }

    /// SBI call failed due to invalid hart mask parameter, invalid target hart id, invalid operation type
    /// or invalid resource index.
    pub fn invalid_param() -> (r: SbiRet)
        ensures
            r.error == sbi_error(3),
            r.value == 0,
    {
        SbiRet { error: SBI_ERR_INVALID_PARAM, value: 0 }
    }

    /// SBI call failed for invalid mask start address, not a valid physical address parameter,
    /// or the target address is prohibited by PMP to run in supervisor mode.
    pub fn invalid_address() -> (r: SbiRet)
        ensures
            r.error == sbi_error(5),
            r.value == 0,
    {
        SbiRet { error: SBI_ERR_INVALID_ADDRESS, value: 0 }
    }

    /// SBI call failed for the target resource is already available, e.g. the target hart is already
    /// started when caller still request it to start.
    pub fn already_available() -> (r: SbiRet)
        ensures
            r.error == sbi_error(6),
            r.value == 0,
    {
        SbiRet { error: SBI_ERR_ALREADY_AVAILABLE, value: 0 }
    }

    /// SBI call failed for the target resource is already started, e.g. target performance counter is started.
    pub fn already_started() -> (r: SbiRet)
        ensures
            r.error == sbi_error(7),
            r.value == 0,
    {
        SbiRet { error: SBI_ERR_ALREADY_STARTED, value: 0 }
    }

    /// SBI call failed for the target resource is already stopped, e.g. target performance counter is stopped.
    pub fn already_stopped() -> (r: SbiRet)
        ensures
            r.error == sbi_error(8),
            r.value == 0,
    {
        SbiRet { error: SBI_ERR_ALREADY_STOPPED, value: 0 }
    }

    /// Result of a legacy call: the value is the error register.
    pub fn legacy_ok(legacy_value: usize) -> (r: SbiRet)
        ensures
            r.error == legacy_value,
            r.value == 0,
    {
        SbiRet { error: legacy_value, value: 0 }
    }

    /// Result of a legacy call that leaves both return registers as they were.
    pub fn legacy_void(self, a0: usize, a1: usize) -> (r: SbiRet)
        ensures
            r.error == a0,
            r.value == a1,
    {
        SbiRet { error: a0, value: a1 }
    }

    /// Result of a legacy call that returns a value in the second register.
    pub fn legacy_return(self, a1: usize) -> (r: SbiRet)
        ensures
            r.error == self.error,
            r.value == a1,
    {
        SbiRet { error: self.error, value: a1 }
    }
}

} // verus!
