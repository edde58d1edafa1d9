//! What can go wrong in the Bluetooth peripheral.

use vstd::prelude::*;

verus! {

/// A failure of the Bluetooth peripheral.
#[derive(Debug, Clone, Copy, PartialEq, Eq)]
pub enum Error {
    /// The advertisement could not be made or started.
    AdvertisementError,
    /// The signal strength could not be read.
    RssiReadFailed,
    /// The attribute server could not be set up or failed on an event.
    GattError,
}

} // verus!
