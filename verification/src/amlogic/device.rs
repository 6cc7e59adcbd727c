use vstd::prelude::*;

use super::error::AmlError;

verus! {

/// Time between two looks for the device, in milliseconds.
pub const POLL_INTERVAL_MS: u64 = 100;

/// The index of the first of `devices`, given as vendor and product ids,
/// that has the ids asked for.
pub fn find_device(devices: &[(u16, u16)], vendor: u16, product: u16) -> (r: Option<usize>)
    ensures
        r matches Some(i) ==> i < devices@.len() && devices@[i as int] == (vendor, product) && forall|
            j: int,
        | 0 <= j < i ==> devices@[j] != (vendor, product),
        r is None ==> forall|j: int| 0 <= j < devices@.len() ==> devices@[j] != (vendor, product),
{
    let mut i: usize = 0;
    while i < devices.len()
        invariant
            i <= devices@.len(),
            forall|j: int| 0 <= j < i ==> devices@[j] != (vendor, product),
        decreases devices@.len() - i,
    {
        let (v, p) = devices[i];
        if v == vendor && p == product {
            return Some(i);
        }
        i = i + 1;
    }
    None
}

/// What to do after a look for the device.
#[derive(Debug, PartialEq, Eq, Structural)]
pub enum PollAction {
    /// The device is there: open it.
    Open,
    /// Not yet there: wait [`POLL_INTERVAL_MS`] and look again.
    Wait,
}

/// Decides what follows a look for the device with these ids: open it once
/// found; while not found, wait as long as a nonzero timeout has not passed;
/// else give up.
pub fn poll_device(
    found: bool,
    timeout_nanos: u128,
    elapsed_nanos: u128,
    vendor: u16,
    product: u16,
) -> (r: Result<PollAction, AmlError>)
    ensures
        found ==> r == Ok::<PollAction, AmlError>(PollAction::Open),
        !found && timeout_nanos > 0 && elapsed_nanos < timeout_nanos ==> r == Ok::<
            PollAction,
            AmlError,
        >(PollAction::Wait),
        !found && (timeout_nanos == 0 || elapsed_nanos >= timeout_nanos) ==> r == Err::<
            PollAction,
            AmlError,
        >(AmlError::DeviceNotFound { vendor, product }),
{
    if found {
        return Ok(PollAction::Open);
    }
    if timeout_nanos > 0 {
        if elapsed_nanos >= timeout_nanos {
            return Err(AmlError::DeviceNotFound { vendor, product });
        }
        Ok(PollAction::Wait)
    } else {
        Err(AmlError::DeviceNotFound { vendor, product })
    }
}

} // verus!
