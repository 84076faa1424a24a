//! Sizing a compute dispatch over a buffer of per-pixel records.
//!
//! The marching kernel runs in workgroups of a fixed size along one
//! dimension, one invocation per record.

use vstd::prelude::*;

verus! {

/// The number of invocations in one workgroup.
pub const WORKGROUP_SIZE: u32 = 64;

/// The number of workgroups dispatched for a buffer of `len` records: the
/// length, as the device counts it in 32 bits, divided by the workgroup size
/// and rounded down.
pub open spec fn workgroups(len: nat) -> nat {
    (len % 0x1_0000_0000) / (WORKGROUP_SIZE as nat)
}

/// The number of workgroups to dispatch for a buffer of `len` records.
///
/// The invocations never reach past the end of the buffer. They cover all
/// of it exactly when the length fits 32 bits and is a multiple of the
/// workgroup size; otherwise the records at the end are left untouched.
pub fn workgroup_count(len: usize) -> (groups: u32)
    ensures
        groups == workgroups(len as nat),
        groups * WORKGROUP_SIZE <= len,
        groups * WORKGROUP_SIZE == len <==> len <= u32::MAX && len % (WORKGROUP_SIZE as usize) == 0,
{
    let counted = #[verifier::truncate] (len as u32);
    assert(counted as u64 == (len as u64) % 0x1_0000_0000) by (bit_vector)
        requires
            counted == #[verifier::truncate] (len as u32),
    ;
    counted / WORKGROUP_SIZE
}

} // verus!
