//! How the peripheral presents itself.

use vstd::prelude::*;

verus! {

/// The 128-bit identifier of the device service.
pub const DEVICE_SERVICE_UUID: u128 = 0x17ada41d_b564_4a77_ad1a_22cf554002fc;

/// The kind of a device address.
#[derive(Debug, Clone, Copy, PartialEq, Eq)]
pub enum AddrKind {
    Public,
    Random,
}

/// A device address.
#[derive(Debug, Clone, Copy, PartialEq, Eq)]
pub struct Address {
    pub kind: AddrKind,
    pub addr: [u8; 6],
}

/// Name and address of the peripheral.
#[derive(Debug, Clone, Copy)]
pub struct Config {
    /// Name of the device, as it is advertised.
    pub name: &'static str,
    /// Address of the device.
    pub address: Address,
}

impl Default for Config {
    fn default() -> (config: Config)
        ensures
            config.name == "Small Black Box",
            config.address.kind == AddrKind::Public,
            config.address.addr@ == seq![0x48u8, 0xca, 0x43, 0x3b, 0x0f, 0xa8],
    {
        let config = Config {
            name: "Small Black Box",
            address: Address { kind: AddrKind::Public, addr: [0x48, 0xca, 0x43, 0x3b, 0x0f, 0xa8] },
        };
        assert(config.address.addr@ =~= seq![0x48u8, 0xca, 0x43, 0x3b, 0x0f, 0xa8]);
        config
    }
}

} // verus!
