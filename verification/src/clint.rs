//! Register layout of the core-local interruptor (after the FU540 CLINT):
//! software-interrupt bits, packed four bits per hart, and timer registers.
use vstd::prelude::*;

verus! {

#[allow(non_camel_case_types)]
pub struct clint {
    pub msip: msip,
    pub mtimecmp: mtimecmp,
    pub mtime: mtime,
}

#[allow(non_camel_case_types)]
pub struct mtime {
    pub mtime: u8,
}

#[allow(non_camel_case_types)]
pub struct msip {
    pub h0_h1: u8,
    pub h2_h3: u8,
    pub h4: u8,
}

#[allow(non_camel_case_types)]
pub struct mtimecmp {
    pub h0: u8,
    pub h1: u8,
    pub h2: u8,
    pub h3: u8,
    pub h4: u8,
}

/// Bits 0 to 3 of a register byte.
pub open spec fn low_nibble(b: u8) -> usize {
    (b & 0xf) as usize
}

/// Bits 4 to 7 of a register byte, shifted down.
pub open spec fn high_nibble(b: u8) -> usize {
    ((b & 0xf0) >> 4u8) as usize
}

impl mtime {
    pub fn get_time(&self) -> (r: u8)
        ensures
            r == self.mtime,
    {
        self.mtime
    }
}

impl msip {
    pub fn h0_set(&mut self, value: usize)
        ensures
            final(self).h0_h1 == old(self).h0_h1 | ((value as u8) & 0xf),
            final(self).h2_h3 == old(self).h2_h3,
            final(self).h4 == old(self).h4,
    {
        self.h0_h1 = (self.h0_h1) | (value as u8 & 0xf)
    }

    pub fn h0_read(self) -> (r: usize)
        ensures
            r == low_nibble(self.h0_h1),
    {
        (self.h0_h1 & 0xf) as usize
    }

    pub fn h1_set(&mut self, value: usize)
        ensures
            final(self).h0_h1 == old(self).h0_h1 | ((value as u8) & 0xf0),
            final(self).h2_h3 == old(self).h2_h3,
            final(self).h4 == old(self).h4,
    {
        self.h0_h1 = (self.h0_h1) | (value as u8 & 0xf0)
    }

    pub fn h1_read(self) -> (r: usize)
        ensures
            r == high_nibble(self.h0_h1),
    {
        ((self.h0_h1 & 0xf0) >> 4) as usize
    }

    pub fn h2_set(&mut self, value: usize)
        ensures
            final(self).h2_h3 == old(self).h2_h3 | ((value as u8) & 0xf),
            final(self).h0_h1 == old(self).h0_h1,
            final(self).h4 == old(self).h4,
    {
        self.h2_h3 = (self.h2_h3) | (value as u8 & 0xf)
    }

    pub fn h2_read(self) -> (r: usize)
        ensures
            r == low_nibble(self.h2_h3),
    {
        (self.h2_h3 & 0xf) as usize
    }

    pub fn h3_set(&mut self, value: usize)
        ensures
            final(self).h2_h3 == old(self).h2_h3 | ((value as u8) & 0xf0),
            final(self).h0_h1 == old(self).h0_h1,
            final(self).h4 == old(self).h4,
    {
        self.h2_h3 = (self.h2_h3) | (value as u8 & 0xf0)
    }

    pub fn h3_read(self) -> (r: usize)
        ensures
            r == high_nibble(self.h2_h3),
    {
        ((self.h2_h3 & 0xf0) >> 4) as usize
    }

    /// Sets the bits of hart 4 on top of the byte of harts 2 and 3.
    pub fn h4_set(&mut self, value: usize)
        ensures
            final(self).h4 == old(self).h2_h3 | ((value as u8) & 0xf),
            final(self).h0_h1 == old(self).h0_h1,
            final(self).h2_h3 == old(self).h2_h3,
    {
        self.h4 = (self.h2_h3) | (value as u8 & 0xf)
    }

    pub fn h4_read(self) -> (r: usize)
        ensures
            r == low_nibble(self.h4),
    {
        ((self.h4 & 0xf)) as usize
    }
}

/// Setting the low bits of a byte adds them to what the low half reads and
/// leaves the high half as it was; setting the high bits does the converse.
pub proof fn lemma_nibble_set(b: u8, v: u8)
    ensures
        low_nibble(b | (v & 0xf)) == low_nibble(b) | low_nibble(v),
        high_nibble(b | (v & 0xf)) == high_nibble(b),
        high_nibble(b | (v & 0xf0)) == high_nibble(b) | high_nibble(v),
        low_nibble(b | (v & 0xf0)) == low_nibble(b),
{
    lemma_nibble_bits(b, v);
}

proof fn lemma_nibble_bits(b: u8, v: u8)
    by (bit_vector)
    ensures
        (((b | (v & 0xf)) & 0xf) as usize) == ((b & 0xf) as usize) | ((v & 0xf) as usize),
        ((((b | (v & 0xf)) & 0xf0) >> 4u8) as usize) == (((b & 0xf0) >> 4u8) as usize),
        ((((b | (v & 0xf0)) & 0xf0) >> 4u8) as usize) == (((b & 0xf0) >> 4u8) as usize) | (((v
            & 0xf0) >> 4u8) as usize),
        (((b | (v & 0xf0)) & 0xf) as usize) == ((b & 0xf) as usize),
{
}

impl clint {
    /// The register values of a CLINT after reset.
    pub fn new() -> (r: clint)
        ensures
            r.msip.h0_h1 == 0xda && r.msip.h2_h3 == 0xad && r.msip.h4 == 0xbe,
            r.mtimecmp.h0 == 0xde && r.mtimecmp.h1 == 0xad && r.mtimecmp.h2 == 0xbe
                && r.mtimecmp.h3 == 0xef && r.mtimecmp.h4 == 0xf0,
            r.mtime.mtime == 0xaa,
    {
        clint {
            msip: msip { h0_h1: 0xda, h2_h3: 0xad, h4: 0xbe },
            mtimecmp: mtimecmp { h0: 0xde, h1: 0xad, h2: 0xbe, h3: 0xef, h4: 0xf0 },
            mtime: mtime { mtime: 0xaa },
        }
    }
}

} // verus!
