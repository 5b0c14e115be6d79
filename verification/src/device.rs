//! The handle-based GATT model of a device discovered over HCI: attribute
//! UUIDs as they come on the wire, characteristics with their handles, and
//! the advertised facts about a device.

use std::collections::BTreeSet;
use vstd::prelude::*;
use vstd::string::StringExecFns;
use crate::api::CharPropFlags;
use crate::hci_adapter::AddressType;
use crate::bdaddr::BDAddr;
use crate::text::{byte_hex_upper, push_byte_hex, string_push};

verus! {

/// The UUID of an attribute, in its 16-bit or 128-bit wire form (the bytes
/// of a 128-bit UUID least significant first).
#[derive(Ord, PartialOrd, Eq, PartialEq, Clone, Debug)]
pub enum CharacteristicUUID {
    B16(u16),
    B128([u8; 16]),
}

/// The mathematical value of a [`CharacteristicUUID`].
pub enum SpecCharacteristicUUID {
    B16(u16),
    B128(Seq<u8>),
}

impl View for CharacteristicUUID {
    type V = SpecCharacteristicUUID;

    open spec fn view(&self) -> SpecCharacteristicUUID {
        match self {
            CharacteristicUUID::B16(u) => SpecCharacteristicUUID::B16(*u),
            CharacteristicUUID::B128(a) => SpecCharacteristicUUID::B128(a@),
        }
    }
}

/// The bytes `a[0..k]`, most significant (last) first, each as two
/// upper-case hexadecimal digits followed by a colon.
pub open spec fn spec_bytes_desc_colon(a: Seq<u8>, k: nat) -> Seq<char>
    decreases k,
{
    if k == 0 {
        Seq::empty()
    } else {
        byte_hex_upper(a[k - 1]) + seq![':'] + spec_bytes_desc_colon(a, (k - 1) as nat)
    }
}

/// How a UUID is shown: the bytes most significant first, two upper-case
/// hexadecimal digits each, separated by colons.
pub open spec fn spec_uuid_text(u: SpecCharacteristicUUID) -> Seq<char> {
    match u {
        SpecCharacteristicUUID::B16(v) => byte_hex_upper((v / 256) as u8) + seq![':'] + byte_hex_upper(
            (v % 256) as u8,
        ),
        SpecCharacteristicUUID::B128(a) => {
            // Every byte but the first is followed by a colon.
            spec_bytes_desc_colon(a.subrange(1, 16), 15) + byte_hex_upper(a[0])
        },
    }
}

impl CharacteristicUUID {
    /// The UUID as text, for example `2A:00`.
    pub fn to_string(&self) -> (s: String)
        ensures
            s@ == spec_uuid_text(self@),
    {
        let mut s = String::new();
        self.write_text(&mut s);
        assert(s@ =~= spec_uuid_text(self@));
        s
    }

    fn write_text(&self, s: &mut String)
        ensures
            final(s)@ == old(s)@ + spec_uuid_text(self@),
    {
        match self {
            CharacteristicUUID::B16(u) => {
                push_byte_hex(s, (*u / 256) as u8, true);
                string_push(s, ':');
                push_byte_hex(s, (*u % 256) as u8, true);
                assert(final(s)@ =~= old(s)@ + spec_uuid_text(self@));
            },
            CharacteristicUUID::B128(a) => {
                let ghost start = s@;
                let ghost tail = a@.subrange(1, 16);
                let mut i: usize = 15;
                while i > 0
                    invariant
                        i <= 15,
                        tail == a@.subrange(1, 16),
                        s@ + spec_bytes_desc_colon(tail, i as nat) == start + spec_bytes_desc_colon(
                            tail,
                            15,
                        ),
                    decreases i,
                {
                    let ghost before = s@;
                    push_byte_hex(s, a[i], true);
                    string_push(s, ':');
                    proof {
                        assert(tail[i - 1] == a@[i as int]);
                        assert(s@ =~= before + byte_hex_upper(tail[i - 1]) + seq![':']);
                        assert(spec_bytes_desc_colon(tail, i as nat) == byte_hex_upper(tail[i - 1])
                            + seq![':'] + spec_bytes_desc_colon(tail, (i - 1) as nat));
                        assert(s@ + spec_bytes_desc_colon(tail, (i - 1) as nat) =~= before
                            + spec_bytes_desc_colon(tail, i as nat));
                    }
                    i = i - 1;
                }
                push_byte_hex(s, a[0], true);
                assert(spec_bytes_desc_colon(tail, 0) =~= Seq::<char>::empty());
                assert(final(s)@ =~= old(s)@ + spec_uuid_text(self@));
            },
        }
    }
}

/// A characteristic found on a device: its declaration's handle, the handle
/// of its value, the last handle that belongs to it, its UUID and its
/// properties.
#[derive(Debug, Ord, PartialOrd, Eq, PartialEq, Clone)]
pub struct Characteristic {
    pub start_handle: u16,
    pub end_handle: u16,
    pub value_handle: u16,
    pub uuid: CharacteristicUUID,
    pub properties: CharPropFlags,
}

/// Whether the order `derive` gave characteristics behaves as vstd's model
/// of `Ord` asks, which the statements on sets of characteristics rest on.
pub open spec fn characteristics_ordered() -> bool {
    vstd::laws_cmp::obeys_cmp::<Characteristic>()
}

/// The integers that identify a characteristic, in the order its derived
/// `Ord` compares them: its three handles, the form of its UUID (0 for
/// 16 bits, 1 for 128 bits), a 16-bit UUID's value, the two halves of a
/// 128-bit UUID's bytes, and its properties.
pub type CharacteristicKey = (
    u16,
    u16,
    u16,
    u8,
    u16,
    (u8, u8, u8, u8, u8, u8, u8, u8),
    (u8, u8, u8, u8, u8, u8, u8, u8),
    u8,
);

/// The key of a characteristic.
pub open spec fn spec_characteristic_key(c: SpecCharacteristic) -> CharacteristicKey {
    match c.uuid {
        SpecCharacteristicUUID::B16(u) => (
            c.start_handle,
            c.end_handle,
            c.value_handle,
            0u8,
            u,
            (0u8, 0u8, 0u8, 0u8, 0u8, 0u8, 0u8, 0u8),
            (0u8, 0u8, 0u8, 0u8, 0u8, 0u8, 0u8, 0u8),
            c.properties,
        ),
        SpecCharacteristicUUID::B128(b) => (
            c.start_handle,
            c.end_handle,
            c.value_handle,
            1u8,
            0u16,
            (b[0], b[1], b[2], b[3], b[4], b[5], b[6], b[7]),
            (b[8], b[9], b[10], b[11], b[12], b[13], b[14], b[15]),
            c.properties,
        ),
    }
}

/// The keys of a set of characteristics.
pub open spec fn characteristic_keys(s: Set<Characteristic>) -> Set<CharacteristicKey> {
    s.map(|c: Characteristic| spec_characteristic_key(c@))
}

/// The key of a characteristic.
pub fn characteristic_key(c: &Characteristic) -> (k: CharacteristicKey)
    ensures
        k == spec_characteristic_key(c@),
{
    let p = c.properties.bits();
    match &c.uuid {
        CharacteristicUUID::B16(u) => (
            c.start_handle,
            c.end_handle,
            c.value_handle,
            0,
            *u,
            (0, 0, 0, 0, 0, 0, 0, 0),
            (0, 0, 0, 0, 0, 0, 0, 0),
            p,
        ),
        CharacteristicUUID::B128(b) => (
            c.start_handle,
            c.end_handle,
            c.value_handle,
            1,
            0,
            (b[0], b[1], b[2], b[3], b[4], b[5], b[6], b[7]),
            (b[8], b[9], b[10], b[11], b[12], b[13], b[14], b[15]),
            p,
        ),
    }
}

/// The keys of a set with one more characteristic are its keys and that
/// characteristic's key.
pub proof fn lemma_keys_insert(s: Set<Characteristic>, c: Characteristic)
    ensures
        characteristic_keys(s.insert(c)) == characteristic_keys(s).insert(spec_characteristic_key(c@)),
{
    let f = |x: Characteristic| spec_characteristic_key(x@);
    assert forall|y: CharacteristicKey| #[trigger] characteristic_keys(s.insert(c)).contains(y) <==> characteristic_keys(
        s,
    ).insert(spec_characteristic_key(c@)).contains(y) by {
        if characteristic_keys(s.insert(c)).contains(y) {
            let x = choose|x: Characteristic| s.insert(c).contains(x) && y == f(x);
            if x != c {
                assert(s.contains(x));
                assert(characteristic_keys(s).contains(f(x)));
            }
        }
        if characteristic_keys(s).contains(y) {
            let x = choose|x: Characteristic| s.contains(x) && y == f(x);
            assert(s.insert(c).contains(x));
            assert(characteristic_keys(s.insert(c)).contains(f(x)));
        }
        if y == spec_characteristic_key(c@) {
            assert(s.insert(c).contains(c));
            assert(characteristic_keys(s.insert(c)).contains(f(c)));
        }
    }
    assert(characteristic_keys(s.insert(c)) =~= characteristic_keys(s).insert(spec_characteristic_key(c@)));
}

/// The keys of a sequence of characteristics, in order.
pub open spec fn key_seq(cs: Seq<Characteristic>) -> Seq<CharacteristicKey> {
    cs.map_values(|c: Characteristic| spec_characteristic_key(c@))
}

/// Whether keys of characteristics are ordered as vstd's model of `Ord`
/// asks.
pub open spec fn keys_ordered() -> bool {
    vstd::laws_cmp::obeys_cmp::<CharacteristicKey>()
}

/// Keys of characteristics are ordered as vstd's model of `Ord` asks.
pub proof fn lemma_keys_ordered()
    ensures
        keys_ordered(),
{
    broadcast use vstd::laws_cmp::group_laws_cmp;
}

/// The mathematical value of a [`Characteristic`].
pub struct SpecCharacteristic {
    pub start_handle: u16,
    pub end_handle: u16,
    pub value_handle: u16,
    pub uuid: SpecCharacteristicUUID,
    pub properties: u8,
}

impl View for Characteristic {
    type V = SpecCharacteristic;

    open spec fn view(&self) -> SpecCharacteristic {
        SpecCharacteristic {
            start_handle: self.start_handle,
            end_handle: self.end_handle,
            value_handle: self.value_handle,
            uuid: self.uuid@,
            properties: self.properties@,
        }
    }
}

/// A 16-bit handle as `0x` and four upper-case hexadecimal digits.
pub open spec fn spec_handle_text(h: u16) -> Seq<char> {
    seq!['0', 'x'] + byte_hex_upper((h / 256) as u8) + byte_hex_upper((h % 256) as u8)
}

/// How a characteristic is shown: its handles and properties in hexadecimal
/// and its UUID.
pub open spec fn spec_characteristic_text(c: SpecCharacteristic) -> Seq<char> {
    "handle: "@ + spec_handle_text(c.start_handle) + ", char properties: 0x"@ + byte_hex_upper(
        c.properties,
    ) + ", char value handle: "@ + spec_handle_text(c.value_handle) + ", end handle: "@
        + spec_handle_text(c.end_handle) + ", uuid: "@ + spec_uuid_text(c.uuid)
}

fn push_handle(s: &mut String, h: u16)
    ensures
        final(s)@ == old(s)@ + spec_handle_text(h),
{
    string_push(s, '0');
    string_push(s, 'x');
    push_byte_hex(s, (h / 256) as u8, true);
    push_byte_hex(s, (h % 256) as u8, true);
    assert(final(s)@ =~= old(s)@ + spec_handle_text(h));
}

impl Characteristic {
    /// The characteristic as text, for example
    /// `handle: 0x0002, char properties: 0x02, char value handle: 0x0003,
    /// end handle: 0xFFFF, uuid: 2A:00`.
    pub fn to_string(&self) -> (s: String)
        ensures
            s@ == spec_characteristic_text(self@),
    {
        let mut s = String::new();
        s.append("handle: ");
        push_handle(&mut s, self.start_handle);
        s.append(", char properties: 0x");
        push_byte_hex(&mut s, self.properties.bits(), true);
        s.append(", char value handle: ");
        push_handle(&mut s, self.value_handle);
        s.append(", end handle: ");
        push_handle(&mut s, self.end_handle);
        s.append(", uuid: ");
        self.uuid.write_text(&mut s);
        assert(s@ =~= spec_characteristic_text(self@));
        s
    }
}

/// What is known of a device discovered by scanning: its address, what it
/// advertised, and the characteristics found on it.
#[derive(Debug, Clone)]
pub struct Device {
    pub address: BDAddr,
    pub address_type: AddressType,
    pub local_name: Option<String>,
    pub tx_power_level: Option<i8>,
    pub manufacturer_data: Option<Vec<u8>>,
    pub characteristics: BTreeSet<Characteristic>,
}

impl Device {
    /// A device with this address, of which nothing else is known yet.
    pub fn new(address: BDAddr, address_type: AddressType) -> (d: Device)
        ensures
            d.address == address,
            d.address_type == address_type,
            d.local_name is None,
            d.tx_power_level is None,
            d.manufacturer_data is None,
            d.characteristics@ == Set::<Characteristic>::empty(),
    {
        Device {
            address,
            address_type,
            local_name: None,
            tx_power_level: None,
            manufacturer_data: None,
            characteristics: BTreeSet::new(),
        }
    }
}

} // verus!
