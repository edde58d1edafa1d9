//! What the peripheral broadcasts while it waits for a central.
//!
//! The advertisement carries the flags and the identifier of the device
//! service; the scan response carries the device's name. Both are sequences
//! of structures, each a length byte, a type byte and the data. The encoding
//! is `trouble_host`'s.

use crate::ble::config::DEVICE_SERVICE_UUID;
use crate::ble::error::Error;
use trouble_host::prelude::AdStructure;
use vstd::prelude::*;
use vstd::string::StringSliceAdditionalSpecFns;

verus! {

/// The most bytes that an advertisement or a scan response can hold.
pub const ADVERTISEMENT_SIZE: usize = 31;

/// Flag: the device is discoverable without a time limit.
pub const LE_GENERAL_DISCOVERABLE: u8 = 0x02;

/// Flag: the device does not speak classic Bluetooth.
pub const BR_EDR_NOT_SUPPORTED: u8 = 0x04;

/// One structure of an advertisement.
#[derive(Debug, Clone, Copy)]
pub enum AdField<'a> {
    /// Device flags.
    Flags(u8),
    /// The 128-bit identifier of one service, least significant byte first.
    ServiceUuid128(&'a [u8; 16]),
    /// The shortened name of the device.
    ShortenedLocalName(&'a [u8]),
}

/// The bytes of one structure: its length, its type and its data.
pub open spec fn encoded_field(field: AdField<'_>) -> Seq<u8> {
    match field {
        AdField::Flags(flags) => seq![0x02u8, 0x01u8, flags],
        AdField::ServiceUuid128(uuid) => seq![0x11u8, 0x07u8] + uuid@,
        AdField::ShortenedLocalName(name) => seq![(name@.len() + 1) as u8, 0x08u8] + name@,
    }
}

/// The bytes of a run of structures, one after the other.
pub open spec fn encoded(fields: Seq<AdField<'_>>) -> Seq<u8>
    decreases fields.len(),
{
    if fields.len() == 0 {
        Seq::empty()
    } else {
        encoded(fields.drop_last()) + encoded_field(fields.last())
    }
}

/// `AdStructure::encode_slice`: writes the structures one after the other at
/// the start of `dest` and returns how many bytes it wrote. It fails exactly
/// where `dest` is too short for all of them, and then what `dest` holds is
/// not told.
#[verifier::external_body]
fn encode_slice(data: &[AdField<'_>], dest: &mut [u8; 31]) -> (written: Option<usize>)
    ensures
        written is Some <==> encoded(data@).len() <= ADVERTISEMENT_SIZE,
        written matches Some(n) ==> n == encoded(data@).len() && final(dest)@.take(n as int)
            == encoded(data@),
{
    let structures: Vec<AdStructure<'_>> = data.iter().map(
        |field|
            match *field {
                AdField::Flags(flags) => AdStructure::Flags(flags),
                AdField::ServiceUuid128(uuid) => AdStructure::ServiceUuids128(
                    core::slice::from_ref(uuid),
                ),
                AdField::ShortenedLocalName(name) => AdStructure::ShortenedLocalName(name),
            },
    ).collect();
    AdStructure::encode_slice(&structures, &mut dest[..]).ok()
}

/// The `count` least significant bytes of `value`, least significant first.
pub open spec fn le_bytes(value: nat, count: nat) -> Seq<u8>
    decreases count,
{
    if count == 0 {
        Seq::empty()
    } else {
        le_bytes(value, (count - 1) as nat).push(((value / pow256((count - 1) as nat)) % 256) as u8)
    }
}

/// 256 to the power `n`.
pub open spec fn pow256(n: nat) -> nat
    decreases n,
{
    if n == 0 {
        1
    } else {
        256 * pow256((n - 1) as nat)
    }
}

/// The advertisement: the flags, then the identifier of the one service.
pub open spec fn advertisement_of(uuid: u128) -> Seq<u8> {
    seq![0x02u8, 0x01u8, 0x06u8, 0x11u8, 0x07u8] + le_bytes(uuid as nat, 16)
}

/// The scan response: the shortened name of the device.
pub open spec fn scan_response_of(name: Seq<u8>) -> Seq<u8> {
    seq![(name.len() + 1) as u8, 0x08u8] + name
}

/// What to broadcast: the advertisement and the scan response, each at the
/// start of its buffer.
#[derive(Debug, Clone, Copy, PartialEq, Eq)]
pub struct AdvertisementData {
    pub adv_data: [u8; 31],
    pub adv_len: usize,
    pub scan_data: [u8; 31],
    pub scan_len: usize,
}

impl AdvertisementData {
    /// The bytes of the advertisement.
    pub open spec fn advertisement(self) -> Seq<u8> {
        self.adv_data@.take(self.adv_len as int)
    }

    /// The bytes of the scan response.
    pub open spec fn scan_response(self) -> Seq<u8> {
        self.scan_data@.take(self.scan_len as int)
    }
}

/// The sixteen bytes of a 128-bit identifier, least significant first.
pub fn uuid_bytes(uuid: u128) -> (bytes: [u8; 16])
    ensures
        bytes@ == le_bytes(uuid as nat, 16),
{
    let mut bytes: [u8; 16] = [0; 16];
    let mut rest: u128 = uuid;
    let mut i: usize = 0;
    assert(pow256(0) == 1);
    while i < 16
        invariant
            i <= 16,
            rest == uuid as nat / pow256(i as nat),
            bytes@.take(i as int) == le_bytes(uuid as nat, i as nat),
        decreases 16 - i,
    {
        let ghost before = bytes@;
        bytes[i] = (rest % 256) as u8;
        proof {
            assert(bytes@.take(i + 1) =~= before.take(i as int).push(bytes@[i as int]));
            lemma_pow256_step(uuid as nat, i as nat);
        }
        rest = rest / 256;
        i += 1;
    }
    assert(bytes@.take(16) =~= bytes@);
    bytes
}

/// Dividing by the next power of 256 is dividing once more by 256.
proof fn lemma_pow256_step(value: nat, n: nat)
    ensures
        pow256(n) > 0,
        value / pow256(n + 1) == (value / pow256(n)) / 256,
    decreases n,
{
    if n > 0 {
        lemma_pow256_step(value, (n - 1) as nat);
    }
    let p = pow256(n);
    assert(pow256(n + 1) == 256 * p);
    assert(value / (256 * p) == (value / p) / 256) by (nonlinear_arith)
        requires
            p > 0,
    ;
}

/// Makes what the peripheral broadcasts under the given name: the flags
/// (general discoverable, no classic Bluetooth) and the device service in the
/// advertisement, the name in the scan response. A name too long for the scan
/// response is an error.
pub fn advertise(name: &str) -> (data: Result<AdvertisementData, Error>)
    ensures
        data is Ok <==> name.spec_bytes().len() + 2 <= ADVERTISEMENT_SIZE,
        data matches Ok(made) ==> {
            &&& made.adv_len <= ADVERTISEMENT_SIZE
            &&& made.scan_len <= ADVERTISEMENT_SIZE
            &&& made.advertisement() == advertisement_of(DEVICE_SERVICE_UUID)
            &&& made.scan_response() == scan_response_of(name.spec_bytes())
        },
        data matches Err(e) ==> e == Error::AdvertisementError,
{
    let flags: u8 = LE_GENERAL_DISCOVERABLE | BR_EDR_NOT_SUPPORTED;
    assert(flags == 0x06) by (bit_vector)
        requires
            flags == 0x02u8 | 0x04u8,
    ;
    let uuid = uuid_bytes(DEVICE_SERVICE_UUID);
    let name_bytes = name.as_bytes();
    let adv_fields = [AdField::Flags(flags), AdField::ServiceUuid128(&uuid)];
    let scan_fields = [AdField::ShortenedLocalName(name_bytes)];
    proof {
        reveal_with_fuel(encoded, 3);
        let adv = adv_fields@;
        assert(adv.drop_last().drop_last() =~= Seq::empty());
        assert(adv.drop_last().last() == adv[0]);
        assert(encoded(adv.drop_last()) =~= encoded_field(adv[0]));
        assert(encoded(adv) =~= advertisement_of(DEVICE_SERVICE_UUID));
        let scan = scan_fields@;
        assert(scan.drop_last() =~= Seq::empty());
        assert(encoded(scan) =~= scan_response_of(name.spec_bytes()));
    }
    let mut adv_data: [u8; 31] = [0; 31];
    let mut scan_data: [u8; 31] = [0; 31];
    let adv_len = match encode_slice(adv_fields.as_slice(), &mut adv_data) {
        Some(adv_len) => adv_len,
        None => { return Err(Error::AdvertisementError); },
    };
    let scan_len = match encode_slice(scan_fields.as_slice(), &mut scan_data) {
        Some(scan_len) => scan_len,
        None => { return Err(Error::AdvertisementError); },
    };
    Ok(AdvertisementData { adv_data, adv_len, scan_data, scan_len })
}

} // verus!
