//! BLE UUIDs and their short forms: a 16- or 32-bit short UUID stands for
//! the full 128-bit UUID obtained by filling in the Bluetooth Base UUID.

use vstd::prelude::*;
use crate::text::{hex_lower_fixed, hex_lower_padded, push_hex_lower_padded, string_push};

verus! {

/// The Bluetooth Base UUID, `00000000-0000-1000-8000-00805f9b34fb`.
pub const BLUETOOTH_BASE_UUID: u128 = 0x00000000_0000_1000_8000_00805f9b34fb;

const BLUETOOTH_BASE_MASK: u128 = 0x00000000_ffff_ffff_ffff_ffffffffffff;

const BLUETOOTH_BASE_MASK_16: u128 = 0xffff0000_ffff_ffff_ffff_ffffffffffff;

/// The weight of the short-UUID field: two to the power 96.
pub open spec fn short_unit() -> int {
    0x1_0000_0000_0000_0000_0000_0000
}

/// A 128-bit UUID, held as its value with the first byte most significant.
#[derive(Clone, Copy, PartialEq, Eq, Structural, Debug, Hash, PartialOrd, Ord)]
pub struct Uuid(pub u128);

impl View for Uuid {
    type V = u128;

    open spec fn view(&self) -> u128 {
        self.0
    }
}

impl Uuid {
    /// The UUID whose 128-bit value is `v`.
    pub fn from_u128(v: u128) -> (u: Uuid)
        ensures
            u@ == v,
    {
        Uuid(v)
    }

    /// The canonical hyphenated text of the UUID.
    pub fn to_string(&self) -> (s: String)
        ensures
            s@ == spec_hyphenated(self@),
    {
        uuid_hyphenated(self.0)
    }

    /// The 128-bit value of this UUID.
    pub fn as_u128(&self) -> (v: u128)
        ensures
            v == self@,
    {
        self.0
    }

    /// The nil UUID, all of whose bits are zero.
    pub fn nil() -> (u: Uuid)
        ensures
            u@ == 0,
    {
        Uuid(0)
    }
}

/// The full UUID that a 32-bit short UUID stands for.
pub open spec fn spec_uuid_from_u32(short: u32) -> u128 {
    (short * short_unit() + BLUETOOTH_BASE_UUID) as u128
}

/// The 32-bit short form of a UUID, when its low 96 bits are those of the
/// Bluetooth Base UUID.
pub open spec fn spec_to_ble_u32(v: u128) -> Option<u32> {
    if v % (short_unit() as u128) == BLUETOOTH_BASE_UUID {
        Some((v / (short_unit() as u128)) as u32)
    } else {
        None
    }
}

/// The 16-bit short form of a UUID, when it has a 32-bit short form that
/// fits in 16 bits.
pub open spec fn spec_to_ble_u16(v: u128) -> Option<u16> {
    match spec_to_ble_u32(v) {
        Some(s) => if s < 0x10000 {
            Some(s as u16)
        } else {
            None
        },
        None => None,
    }
}

/// The canonical text of a UUID: 32 lower-case hexadecimal digits, most
/// significant first, grouped 8-4-4-4-12 by hyphens.
pub open spec fn spec_hyphenated(v: u128) -> Seq<char> {
    let h = hex_lower_fixed(v as nat, 32);
    h.subrange(0, 8) + seq!['-'] + h.subrange(8, 12) + seq!['-'] + h.subrange(12, 16) + seq!['-']
        + h.subrange(16, 20) + seq!['-'] + h.subrange(20, 32)
}

/// The short text of a UUID: `0x` and at least two hexadecimal digits for a
/// 16-bit short UUID, `0x` and at least four for a 32-bit one, and the
/// canonical text otherwise.
pub open spec fn spec_short_string(v: u128) -> Seq<char> {
    match spec_to_ble_u16(v) {
        Some(s) => seq!['0', 'x'] + hex_lower_padded(s as nat, 2),
        None => match spec_to_ble_u32(v) {
            Some(s) => seq!['0', 'x'] + hex_lower_padded(s as nat, 4),
            None => spec_hyphenated(v),
        },
    }
}

/// Formats a 128-bit value with `uuid::Uuid`'s `Display`, which writes the
/// hyphenated lower-case form (`67e55044-10b1-426f-9247-bb680e5fe0c8`); the
/// contract claims exactly that text.
#[verifier::external_body]
fn uuid_hyphenated(bits: u128) -> (s: String)
    ensures
        s@ == spec_hyphenated(bits),
{
    uuid::Uuid::from_u128(bits).to_string()
}

/// Convert a 32-bit BLE short UUID to a full 128-bit UUID by filling in the
/// standard Bluetooth Base UUID.
pub fn uuid_from_u32(short: u32) -> (u: Uuid)
    ensures
        u@ == spec_uuid_from_u32(short),
{
    let s: u128 = short as u128;
    let v: u128 = BLUETOOTH_BASE_UUID | (s << 96u128);
    assert(v == s * 0x1_0000_0000_0000_0000_0000_0000u128 + 0x00000000_0000_1000_8000_00805f9b34fbu128)
        by (bit_vector)
        requires
            v == 0x00000000_0000_1000_8000_00805f9b34fbu128 | (s << 96u128),
            s < 0x1_0000_0000u128,
    ;
    Uuid(v)
}

/// Convert a 16-bit BLE short UUID to a full 128-bit UUID by filling in the
/// standard Bluetooth Base UUID.
pub fn uuid_from_u16(short: u16) -> (u: Uuid)
    ensures
        u@ == spec_uuid_from_u32(short as u32),
{
    uuid_from_u32(short as u32)
}

/// BLE-specific operations on UUIDs.
pub trait BleUuid {
    /// If the UUID is a valid BLE short UUID then return its short form,
    /// otherwise return `None`.
    fn to_ble_u32(&self) -> Option<u32>;

    /// If the UUID is a valid 16-bit BLE short UUID then return its short
    /// form, otherwise return `None`.
    fn to_ble_u16(&self) -> Option<u16>;

    /// Convert the UUID to a string, using short format if applicable.
    fn to_short_string(&self) -> String;
}

impl BleUuid for Uuid {
    fn to_ble_u32(&self) -> (res: Option<u32>)
        ensures
            res == spec_to_ble_u32(self@),
    {
        let value: u128 = self.0;
        let low: u128 = value & BLUETOOTH_BASE_MASK;
        let high: u128 = value >> 96u128;
        assert(low == value % 0x1_0000_0000_0000_0000_0000_0000u128
            && high == value / 0x1_0000_0000_0000_0000_0000_0000u128
            && high < 0x1_0000_0000u128) by (bit_vector)
            requires
                low == value & 0x00000000_ffff_ffff_ffff_ffffffffffffu128,
                high == value >> 96u128,
        ;
        if low == BLUETOOTH_BASE_UUID {
            Some(high as u32)
        } else {
            None
        }
    }

    fn to_ble_u16(&self) -> (res: Option<u16>)
        ensures
            res == spec_to_ble_u16(self@),
    {
        let value: u128 = self.0;
        let masked: u128 = value & BLUETOOTH_BASE_MASK_16;
        let high: u128 = value >> 96u128;
        assert((masked == 0x00000000_0000_1000_8000_00805f9b34fbu128) == (value
            % 0x1_0000_0000_0000_0000_0000_0000u128 == 0x00000000_0000_1000_8000_00805f9b34fbu128
            && value / 0x1_0000_0000_0000_0000_0000_0000u128 < 0x10000u128) && high == value
            / 0x1_0000_0000_0000_0000_0000_0000u128) by (bit_vector)
            requires
                masked == value & 0xffff0000_ffff_ffff_ffff_ffffffffffffu128,
                high == value >> 96u128,
        ;
        if masked == BLUETOOTH_BASE_UUID {
            Some(high as u16)
        } else {
            None
        }
    }

    fn to_short_string(&self) -> (s: String)
        ensures
            s@ == spec_short_string(self@),
    {
        if let Some(uuid16) = self.to_ble_u16() {
            let mut s = String::new();
            string_push(&mut s, '0');
            string_push(&mut s, 'x');
            push_hex_lower_padded(&mut s, uuid16 as u32, 2);
            assert(s@ =~= seq!['0', 'x'] + hex_lower_padded(uuid16 as nat, 2));
            s
        } else if let Some(uuid32) = self.to_ble_u32() {
            let mut s = String::new();
            string_push(&mut s, '0');
            string_push(&mut s, 'x');
            push_hex_lower_padded(&mut s, uuid32, 4);
            assert(s@ =~= seq!['0', 'x'] + hex_lower_padded(uuid32 as nat, 4));
            s
        } else {
            uuid_hyphenated(self.0)
        }
    }
}

/// Expanding a 32-bit short UUID and taking the short form back gives the
/// short UUID again.
pub proof fn lemma_u32_round_trip(short: u32)
    ensures
        spec_to_ble_u32(spec_uuid_from_u32(short)) == Some(short),
{
    let v = spec_uuid_from_u32(short);
    let s = short as u128;
    assert(v == s * 0x1_0000_0000_0000_0000_0000_0000u128 + 0x00000000_0000_1000_8000_00805f9b34fbu128);
    assert(v % 0x1_0000_0000_0000_0000_0000_0000u128 == 0x00000000_0000_1000_8000_00805f9b34fbu128
        && v / 0x1_0000_0000_0000_0000_0000_0000u128 == s) by (bit_vector)
        requires
            v == s * 0x1_0000_0000_0000_0000_0000_0000u128 + 0x00000000_0000_1000_8000_00805f9b34fbu128,
            s < 0x1_0000_0000u128,
    ;
}

/// Expanding a 16-bit short UUID and taking the 16-bit short form back gives
/// the short UUID again.
pub proof fn lemma_u16_round_trip(short: u16)
    ensures
        spec_to_ble_u16(spec_uuid_from_u32(short as u32)) == Some(short),
{
    lemma_u32_round_trip(short as u32);
}

/// A UUID that has a 32-bit short form is the expansion of that short form.
pub proof fn lemma_u32_short_form_expands_back(v: u128)
    requires
        spec_to_ble_u32(v) is Some,
    ensures
        spec_uuid_from_u32(spec_to_ble_u32(v).unwrap()) == v,
{
    let q = v / 0x1_0000_0000_0000_0000_0000_0000u128;
    assert(q < 0x1_0000_0000u128 && v == q * 0x1_0000_0000_0000_0000_0000_0000u128 + v
        % 0x1_0000_0000_0000_0000_0000_0000u128) by (bit_vector)
        requires
            q == v / 0x1_0000_0000_0000_0000_0000_0000u128,
    ;
}

/// Every 16-bit short UUID is also a 32-bit short UUID with the same value.
pub proof fn lemma_u16_short_form_is_u32_short_form(v: u128)
    requires
        spec_to_ble_u16(v) is Some,
    ensures
        spec_to_ble_u32(v) == Some(spec_to_ble_u16(v).unwrap() as u32),
{
}

} // verus!
