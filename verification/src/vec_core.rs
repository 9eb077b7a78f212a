//! A stubbed-out vector-core driver, used where the real accelerator
//! hardware is absent: control operations do nothing and status reads
//! report an idle, fault-free core.

use vstd::prelude::*;

verus! {

pub fn enable_interrupts(_enable: bool) {
}

pub fn run() {
}

pub fn tcm_move(_src_offset: usize, _dest_offset: usize, _byte_length: usize) {
}

pub fn clear_host_req() {
}

pub fn clear_finish() {
}

pub fn clear_instruction_fault() {
}

pub fn clear_data_fault() {
}

pub fn clear_tcm(_addr: usize, _len: usize) {
}

pub fn wait_for_clear_to_finish() {
}

/// The stubbed core always reports a successful run.
pub fn get_return_code() -> (r: u32)
    ensures
        r == 0,
{
    0
}

/// The stubbed core never reports a fault.
pub fn get_fault_register() -> (r: u32)
    ensures
        r == 0,
{
    0
}

} // verus!
