//! A Bluetooth adapter driven over a raw HCI socket: the adapter's reported
//! type and state, the socket filter, the commands that start a scan, the
//! reassembly of the packets read from the socket, and the registry of the
//! devices heard while scanning.

use std::collections::BTreeSet;
use vstd::prelude::*;
use crate::bdaddr::BDAddr;
use crate::device::{
    characteristic_key, characteristic_keys, characteristics_ordered, key_seq, keys_ordered, lemma_keys_insert, lemma_keys_ordered,
    Characteristic, CharacteristicKey, CharacteristicUUID, Device,
};
use crate::hci::{adv_views, LEAdvertisingData, SpecAdvertisingData};
use crate::hci_packet::{
    message, spec_message, spec_message_panics, ACLData, LEAdvertisingInfo, LEConnInfo, Message,
    SpecLEAdvertisingInfo,
};
use crate::hci::{copy_range, ParseError};

verus! {

/// The type of a device address, as the HCI numbers it: 0 public, 1 random.
#[derive(Debug, Clone, Copy, Eq, PartialEq, Structural)]
pub enum AddressType {
    Random,
    Public,
}

impl Default for AddressType {
    fn default() -> (t: AddressType)
        ensures
            t == AddressType::Public,
    {
        AddressType::Public
    }
}

/// The number the HCI uses for an address type.
pub open spec fn spec_address_type_num(t: AddressType) -> u8 {
    match t {
        AddressType::Public => 0,
        AddressType::Random => 1,
    }
}

impl AddressType {
    /// The address type with this number: 0 public, 1 random, none else.
    pub fn from_u8(v: u8) -> (r: Option<AddressType>)
        ensures
            r == (if v == 0 {
                Some(AddressType::Public)
            } else if v == 1 {
                Some(AddressType::Random)
            } else {
                None::<AddressType>
            }),
    {
        match v {
            0 => Some(AddressType::Public),
            1 => Some(AddressType::Random),
            _ => None,
        }
    }

    /// The number of this address type.
    pub fn num(&self) -> (v: u8)
        ensures
            v == spec_address_type_num(*self),
    {
        match *self {
            AddressType::Public => 0,
            AddressType::Random => 1,
        }
    }
}

/// An address type's number reads back as that address type.
pub proof fn law_address_type_num_round_trip(t: AddressType)
    ensures
        (if spec_address_type_num(t) == 0 {
            AddressType::Public
        } else {
            AddressType::Random
        }) == t,
        spec_address_type_num(t) <= 1,
{
}

/// The type of an HCI controller: BR/EDR, AMP, or another type number.
#[derive(Debug, Copy, Clone, PartialEq, Eq, Structural)]
pub enum AdapterType {
    BrEdr,
    Amp,
    Unknown(u8),
}

/// The controller type with this number.
pub open spec fn spec_adapter_type(typ: u8) -> AdapterType {
    if typ == 0 {
        AdapterType::BrEdr
    } else if typ == 1 {
        AdapterType::Amp
    } else {
        AdapterType::Unknown(typ)
    }
}

/// The number of a controller type.
pub open spec fn spec_adapter_type_num(t: AdapterType) -> u8 {
    match t {
        AdapterType::BrEdr => 0,
        AdapterType::Amp => 1,
        AdapterType::Unknown(x) => x,
    }
}

impl AdapterType {
    /// The controller type with this number.
    pub fn parse(typ: u8) -> (t: AdapterType)
        ensures
            t == spec_adapter_type(typ),
    {
        match typ {
            0 => AdapterType::BrEdr,
            1 => AdapterType::Amp,
            x => AdapterType::Unknown(x),
        }
    }

    /// The number of this controller type.
    pub fn num(&self) -> (v: u8)
        ensures
            v == spec_adapter_type_num(*self),
    {
        match *self {
            AdapterType::BrEdr => 0,
            AdapterType::Amp => 1,
            AdapterType::Unknown(x) => x,
        }
    }
}

/// A controller type number reads back as itself; a controller type reads
/// back from its number unless it is an unknown type carrying the number of
/// a known one.
pub proof fn law_adapter_type_round_trip(typ: u8, t: AdapterType)
    ensures
        spec_adapter_type_num(spec_adapter_type(typ)) == typ,
        !(t matches AdapterType::Unknown(x) && x <= 1) ==> spec_adapter_type(spec_adapter_type_num(t)) == t,
{
}

/// A state flag of an HCI controller.
#[derive(Hash, Eq, PartialEq, Debug, Copy, Clone, Structural)]
pub enum AdapterState {
    Up,
    Init,
    Running,
    Raw,
    PScan,
    IScan,
    Inquiry,
    Auth,
    Encrypt,
}

/// The state flag of bit `i` of a controller's flags.
pub open spec fn spec_state_of_bit(i: int) -> AdapterState {
    if i == 0 {
        AdapterState::Up
    } else if i == 1 {
        AdapterState::Init
    } else if i == 2 {
        AdapterState::Running
    } else if i == 3 {
        AdapterState::Raw
    } else if i == 4 {
        AdapterState::PScan
    } else if i == 5 {
        AdapterState::IScan
    } else if i == 6 {
        AdapterState::Inquiry
    } else if i == 7 {
        AdapterState::Auth
    } else {
        AdapterState::Encrypt
    }
}

/// Whether bit `i` of `flags` is set.
pub open spec fn flag_set(flags: u32, i: u32) -> bool {
    (flags >> i) & 1u32 == 1u32
}

/// The state flags among the first `n` bits of `flags`, in bit order.
pub open spec fn spec_states_upto(flags: u32, n: nat) -> Seq<AdapterState>
    decreases n,
{
    if n == 0 {
        Seq::empty()
    } else {
        spec_states_upto(flags, (n - 1) as nat) + if flag_set(flags, (n - 1) as u32) {
            seq![spec_state_of_bit(n - 1)]
        } else {
            Seq::empty()
        }
    }
}

/// The state flags set in a controller's flags, in bit order.
pub open spec fn spec_adapter_states(flags: u32) -> Seq<AdapterState> {
    spec_states_upto(flags, 9)
}

impl AdapterState {
    /// The state flags set in a controller's flags word, in bit order, each
    /// once.
    pub fn parse(flags: u32) -> (states: Vec<AdapterState>)
        ensures
            states@ == spec_adapter_states(flags),
    {
        let mut states: Vec<AdapterState> = Vec::new();
        let mut i: u32 = 0;
        while i < 9
            invariant
                i <= 9,
                states@ == spec_states_upto(flags, i as nat),
            decreases 9 - i,
        {
            let set = flags & (1u32 << i) != 0;
            assert(set == flag_set(flags, i)) by (bit_vector)
                requires
                    i < 9,
                    set == (flags & (1u32 << i) != 0),
            ;
            if set {
                let s = if i == 0 {
                    AdapterState::Up
                } else if i == 1 {
                    AdapterState::Init
                } else if i == 2 {
                    AdapterState::Running
                } else if i == 3 {
                    AdapterState::Raw
                } else if i == 4 {
                    AdapterState::PScan
                } else if i == 5 {
                    AdapterState::IScan
                } else if i == 6 {
                    AdapterState::Inquiry
                } else if i == 7 {
                    AdapterState::Auth
                } else {
                    AdapterState::Encrypt
                };
                states.push(s);
            }
            proof {
                assert(states@ =~= spec_states_upto(flags, (i + 1) as nat));
            }
            i = i + 1;
        }
        states
    }
}

/// A state flag is among those read from the flags exactly when its bit is
/// set.
pub proof fn law_adapter_states_follow_bits(flags: u32, i: u32)
    requires
        i < 9,
    ensures
        spec_adapter_states(flags).contains(spec_state_of_bit(i as int)) <==> flag_set(flags, i),
{
    lemma_states_upto_contains(flags, 9, i);
}

/// The controller flags are the HCI device flag bits: HCI_UP is bit 0,
/// HCI_INIT bit 1, HCI_RUNNING bit 2, HCI_RAW bit 3, HCI_PSCAN (page scan)
/// bit 4, HCI_ISCAN (inquiry scan) bit 5, HCI_INQUIRY bit 6, HCI_AUTH bit 7
/// and HCI_ENCRYPT bit 8; each state is reported exactly when its bit is
/// set.
pub proof fn law_adapter_states_are_hci_flag_bits(flags: u32)
    ensures
        spec_adapter_states(flags).contains(AdapterState::Up) <==> flags & 0x001 != 0,
        spec_adapter_states(flags).contains(AdapterState::Init) <==> flags & 0x002 != 0,
        spec_adapter_states(flags).contains(AdapterState::Running) <==> flags & 0x004 != 0,
        spec_adapter_states(flags).contains(AdapterState::Raw) <==> flags & 0x008 != 0,
        spec_adapter_states(flags).contains(AdapterState::PScan) <==> flags & 0x010 != 0,
        spec_adapter_states(flags).contains(AdapterState::IScan) <==> flags & 0x020 != 0,
        spec_adapter_states(flags).contains(AdapterState::Inquiry) <==> flags & 0x040 != 0,
        spec_adapter_states(flags).contains(AdapterState::Auth) <==> flags & 0x080 != 0,
        spec_adapter_states(flags).contains(AdapterState::Encrypt) <==> flags & 0x100 != 0,
{
    law_adapter_states_follow_bits(flags, 0);
    law_adapter_states_follow_bits(flags, 1);
    law_adapter_states_follow_bits(flags, 2);
    law_adapter_states_follow_bits(flags, 3);
    law_adapter_states_follow_bits(flags, 4);
    law_adapter_states_follow_bits(flags, 5);
    law_adapter_states_follow_bits(flags, 6);
    law_adapter_states_follow_bits(flags, 7);
    law_adapter_states_follow_bits(flags, 8);
    assert({
        &&& (flag_set(flags, 0) <==> flags & 0x001 != 0)
        &&& (flag_set(flags, 1) <==> flags & 0x002 != 0)
        &&& (flag_set(flags, 2) <==> flags & 0x004 != 0)
        &&& (flag_set(flags, 3) <==> flags & 0x008 != 0)
        &&& (flag_set(flags, 4) <==> flags & 0x010 != 0)
        &&& (flag_set(flags, 5) <==> flags & 0x020 != 0)
        &&& (flag_set(flags, 6) <==> flags & 0x040 != 0)
        &&& (flag_set(flags, 7) <==> flags & 0x080 != 0)
        &&& (flag_set(flags, 8) <==> flags & 0x100 != 0)
    }) by (bit_vector);
}

proof fn lemma_states_upto_contains(flags: u32, n: nat, i: u32)
    requires
        i < 9,
        n <= 9,
    ensures
        spec_states_upto(flags, n).contains(spec_state_of_bit(i as int)) <==> (i < n && flag_set(flags, i)),
    decreases n,
{
    if n > 0 {
        lemma_states_upto_contains(flags, (n - 1) as nat, i);
        let prev = spec_states_upto(flags, (n - 1) as nat);
        let cur = spec_states_upto(flags, n);
        if flag_set(flags, (n - 1) as u32) {
            assert(cur == prev.push(spec_state_of_bit(n - 1)));
            if i == n - 1 {
                assert(cur[cur.len() - 1] == spec_state_of_bit(i as int));
            } else {
                assert(spec_state_of_bit(n - 1) != spec_state_of_bit(i as int));
                if cur.contains(spec_state_of_bit(i as int)) {
                    let k = choose|k: int| 0 <= k < cur.len() && cur[k] == spec_state_of_bit(i as int);
                    if k < prev.len() {
                        assert(prev[k] == cur[k]);
                    }
                }
                if prev.contains(spec_state_of_bit(i as int)) {
                    let k = choose|k: int| 0 <= k < prev.len() && prev[k] == spec_state_of_bit(i as int);
                    assert(cur[k] == prev[k]);
                }
            }
        } else {
            assert(cur =~= prev);
        }
    }
}

/// The counters of an HCI controller.
#[derive(Copy, Clone, Debug, PartialEq, Eq, Structural)]
pub struct HCIDevStats {
    pub err_rx: u32,
    pub err_tx: u32,
    pub cmd_tx: u32,
    pub evt_rx: u32,
    pub acl_tx: u32,
    pub acl_rx: u32,
    pub sco_tx: u32,
    pub sco_rx: u32,
    pub byte_rx: u32,
    pub byte_tx: u32,
}

/// Counters that are all zero.
pub open spec fn spec_zero_stats() -> HCIDevStats {
    HCIDevStats {
        err_rx: 0,
        err_tx: 0,
        cmd_tx: 0,
        evt_rx: 0,
        acl_tx: 0,
        acl_rx: 0,
        sco_tx: 0,
        sco_rx: 0,
        byte_rx: 0,
        byte_tx: 0,
    }
}

impl HCIDevStats {
    /// Counters that are all zero.
    pub fn default() -> (s: HCIDevStats)
        ensures
            s == spec_zero_stats(),
    {
        HCIDevStats {
            err_rx: 0,
            err_tx: 0,
            cmd_tx: 0,
            evt_rx: 0,
            acl_tx: 0,
            acl_rx: 0,
            sco_tx: 0,
            sco_rx: 0,
            byte_rx: 0,
            byte_tx: 0,
        }
    }
}

/// What the controller reports of itself: its number, its name (a
/// NUL-terminated C string of at most eight bytes), its address, its state
/// flags, its type and its buffer sizes.
#[derive(Copy, Clone, Debug)]
pub struct HCIDevInfo {
    pub dev_id: u16,
    pub name: [i8; 8],
    pub bdaddr: BDAddr,
    pub flags: u32,
    pub type_: u8,
    pub features: [u8; 8],
    pub pkt_type: u32,
    pub link_policy: u32,
    pub link_mode: u32,
    pub acl_mtu: u16,
    pub acl_pkts: u16,
    pub sco_mtu: u16,
    pub sco_pkts: u16,
    pub stat: HCIDevStats,
}

impl HCIDevInfo {
    /// A report with every field zero.
    pub fn default() -> (d: HCIDevInfo)
        ensures
            d.dev_id == 0,
            d.name@ == seq![0i8, 0, 0, 0, 0, 0, 0, 0],
            d.bdaddr@ == seq![0u8, 0, 0, 0, 0, 0],
            d.flags == 0,
            d.type_ == 0,
            d.features@ == seq![0u8, 0, 0, 0, 0, 0, 0, 0],
            d.pkt_type == 0 && d.link_policy == 0 && d.link_mode == 0,
            d.acl_mtu == 0 && d.acl_pkts == 0 && d.sco_mtu == 0 && d.sco_pkts == 0,
            d.stat == spec_zero_stats(),
    {
        let name: [i8; 8] = [0, 0, 0, 0, 0, 0, 0, 0];
        let features: [u8; 8] = [0, 0, 0, 0, 0, 0, 0, 0];
        let d = HCIDevInfo {
            dev_id: 0,
            name,
            bdaddr: BDAddr::from_array([0u8, 0, 0, 0, 0, 0]),
            flags: 0,
            type_: 0,
            features,
            pkt_type: 0,
            link_policy: 0,
            link_mode: 0,
            acl_mtu: 0,
            acl_pkts: 0,
            sco_mtu: 0,
            sco_pkts: 0,
            stat: HCIDevStats::default(),
        };
        assert(d.name@ =~= seq![0i8, 0, 0, 0, 0, 0, 0, 0]);
        assert(d.features@ =~= seq![0u8, 0, 0, 0, 0, 0, 0, 0]);
        assert(d.bdaddr@ =~= seq![0u8, 0, 0, 0, 0, 0]);
        d
    }
}

/// `cur` with bit `nr & 31` set, on the bits of a 32-bit word.
pub open spec fn spec_set_bit(nr: i32, cur: i32) -> u32 {
    (cur as u32) | (1u32 << ((nr & 31) as u32))
}

/// Sets bit `nr` (taken modulo 32) of `cur`.
pub fn hci_set_bit(nr: i32, cur: i32) -> (r: i32)
    ensures
        r as u32 == spec_set_bit(nr, cur),
{
    let masked: i32 = nr & 31;
    assert(0 <= masked < 32) by (bit_vector)
        requires
            masked == nr & 31,
    ;
    let bit: u32 = masked as u32;
    let word: u32 = #[verifier::truncate] (cur as u32);
    let v: u32 = word | (1u32 << bit);
    let r: i32 = #[verifier::truncate] (v as i32);
    assert(r as u32 == v) by (bit_vector)
        requires
            r == v as i32,
    ;
    r
}

/// The socket filter of an HCI socket: the packet types and events to let
/// through, and an opcode.
#[derive(Copy, Clone, Debug, PartialEq, Eq)]
pub struct HCIFilter {
    pub type_mask: u32,
    pub event_mask: [u32; 2],
    pub opcode: u16,
}

impl HCIFilter {
    /// A filter that lets nothing through.
    pub fn default() -> (f: HCIFilter)
        ensures
            f.type_mask == 0,
            f.event_mask@ == seq![0u32, 0u32],
            f.opcode == 0,
    {
        let f = HCIFilter { type_mask: 0, event_mask: [0u32; 2], opcode: 0 };
        assert(f.event_mask@ =~= seq![0u32, 0u32]);
        f
    }

    /// Lets packets of type `ptype` through; a type of 32 or more panics.
    pub fn set_ptype(&mut self, ptype: i32)
        requires
            ptype < 32,
        ensures
            final(self).type_mask == spec_set_bit(ptype & 31, old(self).type_mask as i32),
            final(self).event_mask == old(self).event_mask,
            final(self).opcode == old(self).opcode,
    {
        let nr: i32 = if ptype == 0xff {
            0
        } else {
            ptype & 31
        };
        let cur: i32 = #[verifier::truncate] (self.type_mask as i32);
        let r = hci_set_bit(nr, cur);
        self.type_mask = #[verifier::truncate] (r as u32);
        proof {
            let tm = old(self).type_mask;
            assert((tm as i32) as u32 == tm) by (bit_vector);
            assert((nr & 31) == (ptype & 31)) by (bit_vector)
                requires
                    nr == ptype & 31,
            ;
        }
    }

    /// Lets event `event` through; it must be one of the 64 events the two
    /// mask words hold.
    pub fn set_event(&mut self, event: i32)
        requires
            0 <= event < 64,
        ensures
            final(self).event_mask@ == old(self).event_mask@.update(
                event / 32,
                spec_set_bit(event & 63, old(self).event_mask@[event / 32] as i32),
            ),
            final(self).type_mask == old(self).type_mask,
            final(self).opcode == old(self).opcode,
    {
        let byte: usize = (event >> 5) as usize;
        assert(event >> 5 == event / 32) by (bit_vector)
            requires
                0 <= event < 64,
        ;
        let cur: i32 = #[verifier::truncate] (self.event_mask[byte] as i32);
        let r = hci_set_bit(event & 63, cur);
        self.event_mask[byte] = #[verifier::truncate] (r as u32);
        proof {
            let em = old(self).event_mask@[event / 32];
            assert((em as i32) as u32 == em) by (bit_vector);
            assert(self.event_mask@ =~= old(self).event_mask@.update(
                event / 32,
                spec_set_bit(event & 63, em as i32),
            ));
        }
    }
}

/// The bytes of a C string: those before the first zero byte.
pub open spec fn spec_c_prefix(s: Seq<u8>) -> Seq<u8>
    decreases s.len(),
{
    if s.len() == 0 || s[0] == 0 {
        Seq::empty()
    } else {
        seq![s[0]] + spec_c_prefix(s.drop_first())
    }
}

/// The bytes of a C string held in C characters.
pub open spec fn spec_c_bytes(name: Seq<i8>) -> Seq<u8> {
    spec_c_prefix(name.map_values(|c: i8| c as u8))
}

/// Decodes UTF-8 text with std's `str::from_utf8`, which accepts exactly
/// the valid UTF-8 byte sequences and gives their characters.
#[verifier::external_body]
fn utf8_text(b: &[u8]) -> (r: Option<String>)
    ensures
        r is Some <==> vstd::utf8::valid_utf8(b@),
        r matches Some(s) ==> s@ == vstd::utf8::decode_utf8(b@),
{
    std::str::from_utf8(b).ok().map(|s| s.to_string())
}

proof fn lemma_c_prefix_step(s: Seq<u8>, i: int)
    requires
        0 <= i < s.len(),
        forall|k: int| 0 <= k < i ==> s[k] != 0,
    ensures
        spec_c_prefix(s) == s.take(i) + spec_c_prefix(s.subrange(i, s.len() as int)),
    decreases i,
{
    if i > 0 {
        lemma_c_prefix_step(s.drop_first(), i - 1);
        assert(s.drop_first().take(i - 1) + spec_c_prefix(s.drop_first().subrange(i - 1, s.len() - 1))
            == spec_c_prefix(s.drop_first()));
        assert(s.drop_first().subrange(i - 1, s.len() - 1) =~= s.subrange(i, s.len() as int));
        assert(seq![s[0]] + s.drop_first().take(i - 1) =~= s.take(i));
    } else {
        assert(s.take(0) =~= Seq::<u8>::empty());
        assert(s.subrange(0, s.len() as int) =~= s);
    }
}

/// The name of a controller, from its C string; `None` when the bytes
/// before the first zero byte are not valid UTF-8.
fn c_name(name: &[i8; 8]) -> (r: Option<String>)
    requires
        exists|k: int| 0 <= k < 8 && name@[k] == 0,
    ensures
        r is Some <==> vstd::utf8::valid_utf8(spec_c_bytes(name@)),
        r matches Some(s) ==> s@ == vstd::utf8::decode_utf8(spec_c_bytes(name@)),
{
    let ghost full = name@.map_values(|c: i8| c as u8);
    let mut bytes: Vec<u8> = Vec::new();
    let mut i: usize = 0;
    while i < 8 && name[i] != 0
        invariant
            i <= 8,
            full == name@.map_values(|c: i8| c as u8),
            exists|k: int| 0 <= k < 8 && name@[k] == 0,
            bytes@ == full.take(i as int),
            forall|k: int| 0 <= k < i ==> name@[k] != 0,
        decreases 8 - i,
    {
        bytes.push(name[i] as u8);
        assert(full.take(i + 1) =~= full.take(i as int).push(name[i as int] as u8));
        i = i + 1;
    }
    proof {
        if i == 8 {
            let k = choose|k: int| 0 <= k < 8 && name@[k] == 0;
            assert(name@[k] != 0);
        }
        let c0: i8 = name@[i as int];
        assert(c0 == 0i8 ==> (c0 as u8) == 0u8) by (bit_vector);
        assert(full[i as int] == 0);
        assert forall|k: int| 0 <= k < i implies full[k] != 0 by {
            let c = name@[k];
            assert(c != 0i8 ==> (c as u8) != 0u8) by (bit_vector);
        }
        lemma_c_prefix_step(full, i as int);
        assert(spec_c_prefix(full.subrange(i as int, 8)) =~= Seq::<u8>::empty());
        assert(bytes@ =~= spec_c_bytes(name@));
    }
    utf8_text(bytes.as_slice())
}

/// A controller: its name, number, address, type and state flags.
#[derive(Debug, Clone)]
pub struct Adapter {
    pub name: String,
    pub dev_id: u16,
    pub addr: BDAddr,
    pub typ: AdapterType,
    pub states: Vec<AdapterState>,
}

impl Adapter {
    /// The controller a report describes. The type is in bits 4 and 5 of
    /// the report's type field. The name must be a NUL-terminated C string
    /// holding valid UTF-8; the number is left zero.
    pub fn from_device_info(di: &HCIDevInfo) -> (a: Adapter)
        requires
            exists|k: int| 0 <= k < 8 && di.name@[k] == 0,
            vstd::utf8::valid_utf8(spec_c_bytes(di.name@)),
        ensures
            a.name@ == vstd::utf8::decode_utf8(spec_c_bytes(di.name@)),
            a.dev_id == 0,
            a.addr == di.bdaddr,
            a.typ == spec_adapter_type(((di.type_ & 0x30) >> 4) as u8),
            a.states@ == spec_adapter_states(di.flags),
    {
        let name = c_name(&di.name).unwrap();
        Adapter {
            name,
            dev_id: 0,
            addr: di.bdaddr,
            typ: AdapterType::parse((di.type_ & 0x30) >> 4),
            states: AdapterState::parse(di.flags),
        }
    }

    /// Whether the controller is up.
    pub fn is_up(&self) -> (r: bool)
        ensures
            r == self.states@.contains(AdapterState::Up),
    {
        let mut i: usize = 0;
        while i < self.states.len()
            invariant
                i <= self.states@.len(),
                forall|k: int| 0 <= k < i ==> self.states@[k] != AdapterState::Up,
            decreases self.states@.len() - i,
        {
            if self.states[i] == AdapterState::Up {
                assert(self.states@[i as int] == AdapterState::Up);
                return true;
            }
            i = i + 1;
        }
        false
    }
}

/// HCI event codes the adapter's socket lets through.
pub const EVT_DISCONN_COMPLETE: u32 = 0x05;

pub const EVT_ENCRYPT_CHANGE: u32 = 0x08;

pub const EVT_CMD_COMPLETE: u32 = 0x0E;

pub const EVT_CMD_STATUS: u32 = 0x0F;

pub const EVT_LE_META_EVENT: u32 = 0x3E;

/// The little-endian bytes of a 32-bit word.
pub open spec fn le32_bytes(v: u32) -> Seq<u8> {
    seq![(v % 256) as u8, ((v / 256) % 256) as u8, ((v / 0x1_0000) % 256) as u8, (v / 0x100_0000) as u8]
}

fn push_u32_le(buf: &mut Vec<u8>, v: u32)
    ensures
        final(buf)@ == old(buf)@ + le32_bytes(v),
{
    buf.push((v % 256) as u8);
    buf.push(((v / 256) % 256) as u8);
    buf.push(((v / 0x1_0000) % 256) as u8);
    buf.push((v / 0x100_0000) as u8);
    assert(final(buf)@ =~= old(buf)@ + le32_bytes(v));
}

/// The socket filter of the adapter's HCI socket, as the socket option
/// takes it: command, event and ACL data packets; the Disconnection
/// Complete, Encryption Change, Command Complete, Command Status and LE
/// Meta events; any opcode. Four little-endian words.
pub fn socket_filter() -> (f: Vec<u8>)
    ensures
        f@ == le32_bytes(0x16) + le32_bytes(0xC120) + le32_bytes(0x4000_0000) + le32_bytes(0),
{
    let type_mask: u32 = (1u32 << 1) | (1u32 << 4) | (1u32 << 2);
    let event_mask1: u32 = (1u32 << EVT_DISCONN_COMPLETE) | (1u32 << EVT_ENCRYPT_CHANGE) | (1u32
        << EVT_CMD_COMPLETE) | (1u32 << EVT_CMD_STATUS);
    let event_mask2: u32 = 1u32 << (EVT_LE_META_EVENT - 32);
    assert(type_mask == 0x16) by (bit_vector)
        requires
            type_mask == (1u32 << 1) | (1u32 << 4) | (1u32 << 2),
    ;
    assert(event_mask1 == 0xC120) by (bit_vector)
        requires
            event_mask1 == (1u32 << 5u32) | (1u32 << 8u32) | (1u32 << 14u32) | (1u32 << 15u32),
    ;
    assert(event_mask2 == 0x4000_0000) by (bit_vector)
        requires
            event_mask2 == 1u32 << 30u32,
    ;
    let mut f: Vec<u8> = Vec::new();
    push_u32_le(&mut f, type_mask);
    push_u32_le(&mut f, event_mask1);
    push_u32_le(&mut f, event_mask2);
    push_u32_le(&mut f, 0);
    f
}

/// The parameters of the LE Set Scan Parameters command the adapter sends:
/// active scanning, interval and window of 0x10, public own address, no
/// filter policy.
pub fn scan_parameters() -> (data: Vec<u8>)
    ensures
        data@ == seq![1u8, 0x10, 0x00, 0x10, 0x00, 0, 0],
{
    let data: Vec<u8> = vec![1u8, 0x10, 0x00, 0x10, 0x00, 0, 0];
    assert(data@ =~= seq![1u8, 0x10, 0x00, 0x10, 0x00, 0, 0]);
    data
}

/// The parameters of the LE Set Scan Enable command: whether scanning is
/// on, and duplicates filtered.
pub fn scan_enable(enabled: bool) -> (data: Vec<u8>)
    ensures
        data@ == seq![if enabled { 1u8 } else { 0u8 }, 1u8],
{
    let data: Vec<u8> = vec![if enabled { 1u8 } else { 0u8 }, 1u8];
    assert(data@ =~= seq![if enabled { 1u8 } else { 0u8 }, 1u8]);
    data
}

/// What is known of a device heard while scanning.
#[derive(Debug)]
pub struct DeviceState {
    pub address: BDAddr,
    pub address_type: AddressType,
    pub local_name: Option<String>,
    pub tx_power_level: Option<i8>,
    pub manufacturer_data: Option<Vec<u8>>,
    pub discovery_count: u32,
    pub has_scan_response: bool,
    pub characteristics: BTreeSet<Characteristic>,
    /// The keys of the characteristics.
    pub characteristic_keys: BTreeSet<CharacteristicKey>,
}

/// The mathematical value of a [`DeviceState`].
pub struct SpecDeviceState {
    pub address: Seq<u8>,
    pub address_type: AddressType,
    pub local_name: Option<Seq<char>>,
    pub tx_power_level: Option<i8>,
    pub manufacturer_data: Option<Seq<u8>>,
    pub discovery_count: u32,
    pub has_scan_response: bool,
    pub characteristics: Set<CharacteristicKey>,
}

impl View for DeviceState {
    type V = SpecDeviceState;

    open spec fn view(&self) -> SpecDeviceState {
        SpecDeviceState {
            address: self.address@,
            address_type: self.address_type,
            local_name: match &self.local_name {
                Some(n) => Some(n@),
                None => None,
            },
            tx_power_level: self.tx_power_level,
            manufacturer_data: match &self.manufacturer_data {
                Some(m) => Some(m@),
                None => None,
            },
            discovery_count: self.discovery_count,
            has_scan_response: self.has_scan_response,
            characteristics: self.characteristic_keys@,
        }
    }
}

/// A device heard for the first time: its address and address type, and
/// nothing else.
pub open spec fn spec_new_device(address: Seq<u8>, address_type: AddressType) -> SpecDeviceState {
    SpecDeviceState {
        address,
        address_type,
        local_name: None,
        tx_power_level: None,
        manufacturer_data: None,
        discovery_count: 0,
        has_scan_response: false,
        characteristics: Set::empty(),
    }
}

/// What one advertising data element tells of a device: its local name, its
/// transmit power or its manufacturer data; other elements are not kept.
pub open spec fn spec_apply_element(d: SpecDeviceState, x: SpecAdvertisingData) -> SpecDeviceState {
    match x {
        SpecAdvertisingData::LocalName(n) => SpecDeviceState { local_name: Some(n), ..d },
        SpecAdvertisingData::TxPowerLevel(p) => SpecDeviceState { tx_power_level: Some(p), ..d },
        SpecAdvertisingData::ManufacturerSpecific(m) => SpecDeviceState { manufacturer_data: Some(m), ..d },
        _ => d,
    }
}

/// What advertising data tells of a device, element by element; a later
/// element wins over an earlier one of the same kind.
pub open spec fn spec_apply_data(d: SpecDeviceState, data: Seq<SpecAdvertisingData>) -> SpecDeviceState
    decreases data.len(),
{
    if data.len() == 0 {
        d
    } else {
        spec_apply_element(spec_apply_data(d, data.drop_last()), data.last())
    }
}

/// The manufacturer data a device holds after advertising data is the
/// payload of the last manufacturer-specific element of that data,
/// whatever the device held before.
pub proof fn law_last_manufacturer_data_is_kept(d: SpecDeviceState, data: Seq<SpecAdvertisingData>, i: int)
    requires
        0 <= i < data.len(),
        data[i] is ManufacturerSpecific,
        forall|j: int| i < j < data.len() ==> !(#[trigger] data[j] is ManufacturerSpecific),
    ensures
        spec_apply_data(d, data).manufacturer_data == Some(data[i]->ManufacturerSpecific_0),
    decreases data.len(),
{
    if i < data.len() - 1 {
        law_last_manufacturer_data_is_kept(d, data.drop_last(), i);
        assert(!(data[data.len() - 1] is ManufacturerSpecific));
    }
}

/// Advertising data without a manufacturer-specific element leaves the
/// device's manufacturer data as it was.
pub proof fn law_manufacturer_data_kept_without_new(d: SpecDeviceState, data: Seq<SpecAdvertisingData>)
    requires
        forall|j: int| 0 <= j < data.len() ==> !(#[trigger] data[j] is ManufacturerSpecific),
    ensures
        spec_apply_data(d, data).manufacturer_data == d.manufacturer_data,
    decreases data.len(),
{
    if data.len() > 0 {
        law_manufacturer_data_kept_without_new(d, data.drop_last());
        assert(!(data[data.len() - 1] is ManufacturerSpecific));
    }
}

/// The local name a device holds after advertising data is the name of the
/// last name element of that data, whatever the device held before.
pub proof fn law_last_local_name_is_kept(d: SpecDeviceState, data: Seq<SpecAdvertisingData>, i: int)
    requires
        0 <= i < data.len(),
        data[i] is LocalName,
        forall|j: int| i < j < data.len() ==> !(#[trigger] data[j] is LocalName),
    ensures
        spec_apply_data(d, data).local_name == Some(data[i]->LocalName_0),
    decreases data.len(),
{
    if i < data.len() - 1 {
        law_last_local_name_is_kept(d, data.drop_last(), i);
        assert(!(data[data.len() - 1] is LocalName));
    }
}

/// The transmit power a device holds after advertising data is that of the
/// last transmit power element of that data, whatever the device held
/// before.
pub proof fn law_last_tx_power_is_kept(d: SpecDeviceState, data: Seq<SpecAdvertisingData>, i: int)
    requires
        0 <= i < data.len(),
        data[i] is TxPowerLevel,
        forall|j: int| i < j < data.len() ==> !(#[trigger] data[j] is TxPowerLevel),
    ensures
        spec_apply_data(d, data).tx_power_level == Some(data[i]->TxPowerLevel_0),
    decreases data.len(),
{
    if i < data.len() - 1 {
        law_last_tx_power_is_kept(d, data.drop_last(), i);
        assert(!(data[data.len() - 1] is TxPowerLevel));
    }
}

/// Advertising data changes only a device's name, transmit power and
/// manufacturer data: its address, address type, count, scan response mark
/// and characteristics stay.
pub proof fn law_advertising_data_changes_only_advertised_facts(d: SpecDeviceState, data: Seq<SpecAdvertisingData>)
    ensures
        spec_apply_data(d, data) == (SpecDeviceState {
            local_name: spec_apply_data(d, data).local_name,
            tx_power_level: spec_apply_data(d, data).tx_power_level,
            manufacturer_data: spec_apply_data(d, data).manufacturer_data,
            ..d
        }),
    decreases data.len(),
{
    if data.len() > 0 {
        law_advertising_data_changes_only_advertised_facts(d, data.drop_last());
    }
}

/// After an advertising report whose data holds manufacturer data, the
/// reported device holds the last manufacturer data of that report: a later
/// report overrides an earlier one.
pub proof fn law_report_overrides_manufacturer_data(
    reg: Seq<SpecDeviceState>,
    info: SpecLEAdvertisingInfo,
    i: int,
)
    requires
        registry_wf(reg),
        0 <= i < info.data.len(),
        info.data[i] is ManufacturerSpecific,
        forall|j: int| i < j < info.data.len() ==> !(#[trigger] info.data[j] is ManufacturerSpecific),
    ensures
        exists|k: int| 0 <= k < spec_after_report(reg, info).len() && (#[trigger] spec_after_report(reg, info)[k]).address == info.bdaddr,
        forall|k: int|
            0 <= k < spec_after_report(reg, info).len() && (#[trigger] spec_after_report(reg, info)[k]).address
                == info.bdaddr ==> spec_after_report(reg, info)[k].manufacturer_data == Some(
                info.data[i]->ManufacturerSpecific_0,
            ),
{
    let base = spec_reported_device(reg, info);
    let counted = SpecDeviceState {
        discovery_count: (base.discovery_count + 1) as u32,
        has_scan_response: if info.evt_type == 4 {
            true
        } else {
            base.has_scan_response
        },
        ..base
    };
    law_last_manufacturer_data_is_kept(counted, info.data, i);
    lemma_apply_data_keeps_address(counted, info.data);
    let r = spec_after_report(reg, info);
    match device_pos(reg, info.bdaddr) {
        Some(p) => {
            assert(r[p].address == info.bdaddr);
            assert forall|k: int| 0 <= k < r.len() && (#[trigger] r[k]).address == info.bdaddr implies k == p by {
                if k != p {
                    assert(r[k] == reg[k]);
                    if k < p {
                        assert(reg[k].address != reg[p].address);
                    } else {
                        assert(reg[p].address != reg[k].address);
                    }
                }
            }
        },
        None => {
            assert(r[reg.len() as int].address == info.bdaddr);
            assert forall|k: int| 0 <= k < r.len() && (#[trigger] r[k]).address == info.bdaddr implies k
                == reg.len() by {
                if k < reg.len() {
                    assert(r[k] == reg[k]);
                }
            }
        },
    }
}

proof fn lemma_apply_data_keeps_address(d: SpecDeviceState, data: Seq<SpecAdvertisingData>)
    ensures
        spec_apply_data(d, data).address == d.address,
    decreases data.len(),
{
    if data.len() > 0 {
        lemma_apply_data_keeps_address(d, data.drop_last());
    }
}

/// The position of the device with this address in the registry, if any.
pub open spec fn device_pos(reg: Seq<SpecDeviceState>, address: Seq<u8>) -> Option<int> {
    if exists|i: int| 0 <= i < reg.len() && reg[i].address == address {
        Some(choose|i: int| 0 <= i < reg.len() && reg[i].address == address)
    } else {
        None
    }
}

/// No two devices of the registry have the same address.
pub open spec fn registry_wf(reg: Seq<SpecDeviceState>) -> bool {
    forall|i: int, j: int| 0 <= i < j < reg.len() ==> reg[i].address != reg[j].address
}

/// The device an advertising report is about, before the report is
/// applied: the known one, or a new one whose address type is random when
/// the report says 1 and public otherwise.
pub open spec fn spec_reported_device(reg: Seq<SpecDeviceState>, info: SpecLEAdvertisingInfo) -> SpecDeviceState {
    match device_pos(reg, info.bdaddr) {
        Some(k) => reg[k],
        None => spec_new_device(
            info.bdaddr,
            if info.bdaddr_type == 1 {
                AddressType::Random
            } else {
                AddressType::Public
            },
        ),
    }
}

/// The registry after an advertising report: the device is counted once
/// more, marked as having answered a scan when the report is a scan
/// response (event type 4), and takes what the data tells.
pub open spec fn spec_after_report(reg: Seq<SpecDeviceState>, info: SpecLEAdvertisingInfo) -> Seq<SpecDeviceState> {
    let base = spec_reported_device(reg, info);
    let counted = SpecDeviceState {
        discovery_count: (base.discovery_count + 1) as u32,
        has_scan_response: if info.evt_type == 4 {
            true
        } else {
            base.has_scan_response
        },
        ..base
    };
    let d = spec_apply_data(counted, info.data);
    match device_pos(reg, info.bdaddr) {
        Some(k) => reg.update(k, d),
        None => reg.push(d),
    }
}

/// Whether a device shows what is known of a device heard: its address, its
/// address type, its local name, its transmit power, its manufacturer data
/// and its characteristics.
pub open spec fn shows(d: Device, s: SpecDeviceState) -> bool {
    &&& d.address@ == s.address
    &&& d.address_type == s.address_type
    &&& match d.local_name {
        Some(n) => s.local_name == Some(n@),
        None => s.local_name is None,
    }
    &&& d.tx_power_level == s.tx_power_level
    &&& match d.manufacturer_data {
        Some(m) => s.manufacturer_data == Some(m@),
        None => s.manufacturer_data is None,
    }
    &&& characteristics_ordered() ==> characteristic_keys(d.characteristics@) == s.characteristics
}

/// The devices heard while scanning, by address.
pub struct DiscoveredDevices {
    devices: Vec<DeviceState>,
}

impl View for DiscoveredDevices {
    type V = Seq<SpecDeviceState>;

    closed spec fn view(&self) -> Seq<SpecDeviceState> {
        self.devices@.map_values(|d: DeviceState| d@)
    }
}

impl DeviceState {
    /// The characteristics and their keys agree.
    pub open spec fn keys_agree(&self) -> bool {
        characteristics_ordered() ==> self.characteristic_keys@ == characteristic_keys(self.characteristics@)
    }

    /// Applies one advertising data element.
    fn apply(&mut self, x: LEAdvertisingData)
        ensures
            final(self)@ == spec_apply_element(old(self)@, x@),
            final(self).characteristics == old(self).characteristics,
            final(self).characteristic_keys == old(self).characteristic_keys,
    {
        match x {
            LEAdvertisingData::LocalName(n) => {
                self.local_name = Some(n);
            },
            LEAdvertisingData::TxPowerLevel(p) => {
                self.tx_power_level = Some(p);
            },
            LEAdvertisingData::ManufacturerSpecific(m) => {
                self.manufacturer_data = Some(m);
            },
            _ => {},
        }
    }

    /// The device as the rest of the library sees it.
    pub fn to_device(&self) -> (d: Device)
        ensures
            d.address == self.address,
            d.address_type == self.address_type,
            match (d.local_name, self.local_name) {
                (Some(a), Some(b)) => a@ == b@,
                (None, None) => true,
                _ => false,
            },
            d.tx_power_level == self.tx_power_level,
            match (d.manufacturer_data, self.manufacturer_data) {
                (Some(a), Some(b)) => a@ == b@,
                (None, None) => true,
                _ => false,
            },
            d.characteristics@ == self.characteristics@,
    {
        let local_name = match &self.local_name {
            Some(n) => Some(n.clone()),
            None => None,
        };
        let manufacturer_data = match &self.manufacturer_data {
            Some(m) => Some(m.clone()),
            None => None,
        };
        Device {
            address: self.address,
            address_type: self.address_type,
            local_name,
            tx_power_level: self.tx_power_level,
            manufacturer_data,
            characteristics: self.characteristics.clone(),
        }
    }
}

impl DiscoveredDevices {
    /// No device heard yet.
    pub fn new() -> (r: DiscoveredDevices)
        ensures
            r@ == Seq::<SpecDeviceState>::empty(),
            registry_wf(r@),
            r.wf(),
    {
        let r = DiscoveredDevices { devices: Vec::new() };
        assert(r@ =~= Seq::<SpecDeviceState>::empty());
        r
    }

    /// No two devices have the same address, and each device's
    /// characteristics agree with their keys.
    pub closed spec fn wf(&self) -> bool {
        &&& registry_wf(self@)
        &&& forall|i: int| 0 <= i < self.devices@.len() ==> (#[trigger] self.devices@[i]).keys_agree()
    }

    fn find(&self, address: &BDAddr) -> (r: Option<usize>)
        requires
            self.wf(),
        ensures
            match r {
                Some(i) => device_pos(self@, address@) == Some(i as int) && i < self@.len(),
                None => device_pos(self@, address@) is None,
            },
    {
        let ghost v = self@;
        let mut i: usize = 0;
        while i < self.devices.len()
            invariant
                i <= self.devices@.len(),
                v == self@,
                registry_wf(v),
                forall|k: int| 0 <= k < i ==> v[k].address != address@,
            decreases self.devices@.len() - i,
        {
            if self.devices[i].address == *address {
                proof {
                    assert(v[i as int].address == address@);
                    let c = choose|k: int| 0 <= k < v.len() && v[k].address == address@;
                    if c < i {
                        assert(v[c].address != address@);
                    } else if c > i {
                        assert(v[i as int].address != v[c].address);
                    }
                }
                return Some(i);
            }
            i = i + 1;
        }
        proof {
            if exists|k: int| 0 <= k < v.len() && v[k].address == address@ {
                let k = choose|k: int| 0 <= k < v.len() && v[k].address == address@;
                assert(v[k].address != address@);
            }
        }
        None
    }

    /// Takes an advertising report into account: see [`spec_after_report`].
    /// The device's count must not be at its maximum.
    pub fn handle_advertising_report(&mut self, info: LEAdvertisingInfo)
        requires
            old(self).wf(),
            spec_reported_device(old(self)@, info@).discovery_count < u32::MAX,
        ensures
            final(self).wf(),
            final(self)@ == spec_after_report(old(self)@, info@),
    {
        let ghost old_view = self@;
        let ghost ds0 = self.devices@;
        let ghost iv = info@;
        let found = self.find(&info.bdaddr);
        let mut d = match found {
            Some(i) => self.devices.remove(i),
            None => DeviceState {
                address: info.bdaddr,
                address_type: if info.bdaddr_type == 1 {
                    AddressType::Random
                } else {
                    AddressType::Public
                },
                local_name: None,
                tx_power_level: None,
                manufacturer_data: None,
                discovery_count: 0,
                has_scan_response: false,
                characteristics: BTreeSet::new(),
                characteristic_keys: BTreeSet::new(),
            },
        };
        proof {
            if let Some(i) = found {
                assert(d@ == old_view[i as int]);
                assert(d == ds0[i as int]);
                assert(d.keys_agree());
            } else {
                assert(characteristic_keys(d.characteristics@) =~= Set::<CharacteristicKey>::empty());
            }
            assert(d@ == spec_reported_device(old_view, iv));
        }
        d.discovery_count = d.discovery_count + 1;
        if info.evt_type == 4 {
            d.has_scan_response = true;
        }
        let ghost counted = d@;
        let mut data = info.data;
        let ghost all = adv_views(data@);
        let n0: usize = data.len();
        let mut k: usize = 0;
        while data.len() > 0
            invariant
                k <= all.len(),
                all.len() == n0,
                adv_views(data@) == all.subrange(k as int, all.len() as int),
                d@ == spec_apply_data(counted, all.take(k as int)),
                d.address@ == iv.bdaddr,
                d.keys_agree(),
            decreases data@.len(),
        {
            let ghost before = data@;
            let x = data.remove(0);
            proof {
                assert(x@ == adv_views(before)[0]);
                assert(adv_views(data@) =~= adv_views(before).drop_first());
                assert(all.take(k + 1).drop_last() =~= all.take(k as int));
                assert(all.take(k + 1).last() == all[k as int]);
            }
            d.apply(x);
            k = k + 1;
        }
        proof {
            assert(all.take(k as int) =~= all);
            assert(all == iv.data);
        }
        match found {
            Some(i) => {
                self.devices.insert(i, d);
                proof {
                    assert(self@ =~= old_view.update(i as int, spec_apply_data(counted, iv.data)));
                }
            },
            None => {
                self.devices.push(d);
                proof {
                    assert(self@ =~= old_view.push(spec_apply_data(counted, iv.data)));
                }
            },
        }
        proof {
            assert forall|j: int| 0 <= j < self.devices@.len() implies (#[trigger] self.devices@[j]).keys_agree() by {
                if let Some(i) = found {
                    if j != i {
                        assert(self.devices@[j] == ds0[j]);
                    }
                } else if j < ds0.len() {
                    assert(self.devices@[j] == ds0[j]);
                }
            }
            let nv = spec_after_report(old_view, iv);
            assert(self@ == nv);
            assert forall|a: int, b: int| 0 <= a < b < nv.len() implies nv[a].address != nv[b].address by {
                if let Some(i) = found {
                    assert(old_view[a].address != old_view[b].address);
                } else {
                    if b < old_view.len() {
                        assert(old_view[a].address != old_view[b].address);
                    } else {
                        assert(old_view[a].address != iv.bdaddr);
                    }
                }
            }
        }
    }

    /// Takes a packet read from the adapter into account: advertising
    /// reports update the registry; a connection is given back for the
    /// caller to open its data stream; other packets change nothing.
    pub fn handle(&mut self, message: Message) -> (conn: Option<LEConnInfo>)
        requires
            old(self).wf(),
            message matches Message::LEAdvertisingReport(info) ==> spec_reported_device(old(self)@, info@).discovery_count
                < u32::MAX,
        ensures
            final(self).wf(),
            match message {
                Message::LEAdvertisingReport(info) => final(self)@ == spec_after_report(old(self)@, info@)
                    && conn is None,
                Message::LEConnComplete(info) => final(self)@ == old(self)@ && conn == Some(info),
                _ => final(self)@ == old(self)@ && conn is None,
            },
    {
        match message {
            Message::LEAdvertisingReport(info) => {
                self.handle_advertising_report(info);
                None
            },
            Message::LEConnComplete(info) => Some(info),
            _ => None,
        }
    }

    /// The devices heard, as the rest of the library sees them.
    pub fn discovered(&self) -> (v: Vec<Device>)
        requires
            self.wf(),
        ensures
            v@.len() == self@.len(),
            forall|i: int| 0 <= i < v@.len() ==> shows(#[trigger] v@[i], self@[i]),
    {
        let mut v: Vec<Device> = Vec::new();
        let mut i: usize = 0;
        while i < self.devices.len()
            invariant
                self.wf(),
                i <= self.devices@.len(),
                v@.len() == i,
                forall|k: int| 0 <= k < i ==> shows(#[trigger] v@[k], self@[k]),
            decreases self.devices@.len() - i,
        {
            v.push(self.devices[i].to_device());
            i = i + 1;
        }
        v
    }

    /// The device with this address, if it was heard.
    pub fn device(&self, address: BDAddr) -> (d: Option<Device>)
        requires
            self.wf(),
        ensures
            match device_pos(self@, address@) {
                Some(i) => d matches Some(x) && shows(x, self@[i]),
                None => d is None,
            },
    {
        match self.find(&address) {
            Some(i) => Some(self.devices[i].to_device()),
            None => None,
        }
    }

    /// Characteristics found on a device, answering a discovery that asked
    /// for the handles up to `end`: they join the device's characteristics,
    /// and discovery goes on from the handle after the last one's
    /// declaration while that is below `end`. Characteristics of a device
    /// not heard are dropped.
    pub fn characteristics_found(&mut self, address: BDAddr, chars: Vec<Characteristic>, end: u16) -> (next: Option<u16>)
        requires
            old(self).wf(),
            device_pos(old(self)@, address@) is Some && chars@.len() > 0 ==> chars@.last().start_handle < u16::MAX,
        ensures
            final(self).wf(),
            final(self)@.len() == old(self)@.len(),
            match device_pos(old(self)@, address@) {
                None => final(self)@ == old(self)@,
                Some(i) => {
                    &&& forall|k: int| 0 <= k < old(self)@.len() && k != i ==> final(self)@[k] == old(self)@[k]
                    &&& final(self)@[i] == (SpecDeviceState {
                        characteristics: old(self)@[i].characteristics + key_seq(chars@).to_set(),
                        ..old(self)@[i]
                    })
                },
            },
            next == (if device_pos(old(self)@, address@) is Some && chars@.len() > 0 && chars@.last().start_handle + 1 < end {
                Some((chars@.last().start_handle + 1) as u16)
            } else {
                None::<u16>
            }),
    {
        let found = self.find(&address);
        let i = match found {
            Some(i) => i,
            None => {
                return None;
            },
        };
        let ghost v0 = self@;
        let ghost ds0 = self.devices@;
        let mut d = self.devices.remove(i);
        let ghost dv = d@;
        let ghost orig = chars@;
        let ghost keys = key_seq(orig);
        proof {
            assert(d == ds0[i as int]);
            lemma_keys_ordered();
        }
        let n: usize = chars.len();
        let last_start: Option<u16> = if n > 0 {
            Some(chars[n - 1].start_handle)
        } else {
            None
        };
        let mut chars = chars;
        let ghost mut k: int = 0;
        while chars.len() > 0
            invariant
                0 <= k <= orig.len(),
                keys == key_seq(orig),
                chars@ == orig.subrange(k, orig.len() as int),
                d@ == (SpecDeviceState { characteristics: d@.characteristics, ..dv }),
                d@.characteristics == dv.characteristics + keys.take(k).to_set(),
                d.keys_agree(),
                keys_ordered(),
            decreases chars@.len(),
        {
            let ghost before = d.characteristics@;
            let c = chars.remove(0);
            assert(c == orig[k]);
            let key = characteristic_key(&c);
            d.characteristic_keys.insert(key);
            d.characteristics.insert(c);
            proof {
                assert(keys[k] == key);
                assert(keys.take(k + 1) =~= keys.take(k).push(keys[k]));
                keys.take(k).lemma_push_to_set_commute(keys[k]);
                assert(d@.characteristics =~= dv.characteristics + keys.take(k + 1).to_set());
                if characteristics_ordered() {
                    lemma_keys_insert(before, c);
                }
                k = k + 1;
            }
        }
        proof {
            assert(keys.take(k) =~= keys);
        }
        self.devices.insert(i, d);
        proof {
            assert(self@ =~= v0.update(i as int, d@));
            assert forall|j: int| 0 <= j < self.devices@.len() implies (#[trigger] self.devices@[j]).keys_agree() by {
                if j != i {
                    assert(self.devices@[j] == ds0[j]);
                }
            }
        }
        match last_start {
            Some(s) => {
                let next: u16 = s + 1;
                if next < end {
                    Some(next)
                } else {
                    None
                }
            },
            None => None,
        }
    }
}

/// Adds bytes read from the adapter's socket to the bytes waiting, and
/// reads a packet from them. A packet read leaves the bytes after it
/// waiting; a packet cut short leaves everything waiting for more; bytes
/// that are no packet are dropped.
pub fn reassemble(cur: &mut Vec<u8>, incoming: &[u8]) -> (m: Option<Message>)
    requires
        !spec_message_panics(old(cur)@ + incoming@),
    ensures
        ({
            let buf = old(cur)@ + incoming@;
            match spec_message(buf) {
                Ok((n, v)) => m matches Some(x) && x@ == v && final(cur)@ == buf.subrange(n, buf.len() as int),
                Err(ParseError::Incomplete(_)) => m is None && final(cur)@ == buf,
                Err(ParseError::Error) => m is None && final(cur)@ == Seq::<u8>::empty(),
            }
        }),
{
    let mut k: usize = 0;
    let ghost start = cur@;
    while k < incoming.len()
        invariant
            k <= incoming@.len(),
            cur@ == start + incoming@.take(k as int),
        decreases incoming@.len() - k,
    {
        cur.push(incoming[k]);
        k = k + 1;
        assert(cur@ =~= start + incoming@.take(k as int));
    }
    assert(incoming@.take(k as int) =~= incoming@);
    let (res, left) = match message(cur.as_slice()) {
        Ok((rest, m)) => (Some(m), Some(copy_range(rest, 0, rest.len()))),
        Err(ParseError::Incomplete(_)) => (None, None),
        Err(ParseError::Error) => (None, Some(Vec::new())),
    };
    if let Some(l) = left {
        *cur = l;
    }
    res
}

/// ATT opcodes the adapter uses on a data stream.
pub const ATT_OP_WRITE_REQ: u8 = 0x12;

pub const ATT_OP_WRITE_RESP: u8 = 0x13;

pub const ATT_OP_WRITE_CMD: u8 = 0x52;

/// The L2CAP channel of the attribute protocol.
pub const ATT_CID: u16 = 0x0004;

/// The UUID of characteristic declarations.
pub const GATT_CHARAC_UUID: u16 = 0x2803;

/// The request that discovers the characteristics declared between two
/// handles: a Read By Type Request for characteristic declarations.
pub fn discover_chars_request(start: u16, end: u16) -> (buf: Vec<u8>)
    ensures
        buf@ == seq![
            0x08u8,
            (start % 256) as u8,
            (start / 256) as u8,
            (end % 256) as u8,
            (end / 256) as u8,
            0x03u8,
            0x28u8,
        ],
{
    let buf: Vec<u8> = vec![
        0x08u8,
        (start % 256) as u8,
        (start / 256) as u8,
        (end % 256) as u8,
        (end / 256) as u8,
        (GATT_CHARAC_UUID % 256) as u8,
        (GATT_CHARAC_UUID / 256) as u8,
    ];
    assert(buf@ =~= seq![
        0x08u8,
        (start % 256) as u8,
        (start / 256) as u8,
        (end % 256) as u8,
        (end / 256) as u8,
        0x03u8,
        0x28u8,
    ]);
    buf
}

fn att_write(opcode: u8, value_handle: u16, data: &[u8]) -> (buf: Vec<u8>)
    ensures
        buf@ == seq![opcode, (value_handle % 256) as u8, (value_handle / 256) as u8] + data@,
{
    let mut buf: Vec<u8> = Vec::new();
    buf.push(opcode);
    buf.push((value_handle % 256) as u8);
    buf.push((value_handle / 256) as u8);
    let ghost head = buf@;
    let mut k: usize = 0;
    while k < data.len()
        invariant
            k <= data@.len(),
            buf@ == head + data@.take(k as int),
        decreases data@.len() - k,
    {
        buf.push(data[k]);
        k = k + 1;
        assert(buf@ =~= head + data@.take(k as int));
    }
    assert(data@.take(k as int) =~= data@);
    buf
}

/// A Write Command of a characteristic's value: the opcode, the value
/// handle least significant byte first, the data.
pub fn write_command(value_handle: u16, data: &[u8]) -> (buf: Vec<u8>)
    ensures
        buf@ == seq![ATT_OP_WRITE_CMD, (value_handle % 256) as u8, (value_handle / 256) as u8] + data@,
{
    att_write(ATT_OP_WRITE_CMD, value_handle, data)
}

/// A Write Request of a characteristic's value.
pub fn write_request(value_handle: u16, data: &[u8]) -> (buf: Vec<u8>)
    ensures
        buf@ == seq![ATT_OP_WRITE_REQ, (value_handle % 256) as u8, (value_handle / 256) as u8] + data@,
{
    att_write(ATT_OP_WRITE_REQ, value_handle, data)
}

/// The attribute protocol bytes of an ACL data packet, when it is on the
/// attribute protocol's channel.
pub fn att_payload(packet: ACLData) -> (r: Option<Vec<u8>>)
    ensures
        packet.cid == ATT_CID ==> (r matches Some(d) && d@ == packet.data@),
        packet.cid != ATT_CID ==> r is None,
{
    if packet.cid == ATT_CID {
        Some(packet.data)
    } else {
        None
    }
}

/// Whether bytes read from a data stream answer the bytes just written: the
/// socket echoes what was written, so an answer is anything else.
pub fn is_answer(received: &[u8], written: &[u8]) -> (r: bool)
    ensures
        r == (received@ != written@),
{
    if received.len() != written.len() {
        return true;
    }
    let mut k: usize = 0;
    while k < received.len()
        invariant
            k <= received@.len(),
            received@.len() == written@.len(),
            forall|j: int| 0 <= j < k ==> received@[j] == written@[j],
        decreases received@.len() - k,
    {
        if received[k] != written[k] {
            return true;
        }
        k = k + 1;
    }
    assert(received@ =~= written@);
    false
}

/// Whether the answer to a Write Command is the Write Response it should be.
pub fn is_write_response(answer: &[u8]) -> (r: bool)
    ensures
        r == (answer@ == seq![ATT_OP_WRITE_RESP]),
{
    let r = answer.len() == 1 && answer[0] == ATT_OP_WRITE_RESP;
    proof {
        if r {
            assert(answer@ =~= seq![ATT_OP_WRITE_RESP]);
        }
    }
    r
}

/// The answer to attribute protocol data that arrives unasked: an Exchange
/// MTU Request is refused with an Error Response (request not supported);
/// anything else is not answered.
pub fn unasked_data_reply(value: &[u8]) -> (r: Option<Vec<u8>>)
    ensures
        value@.len() == 3 && value@[0] == 0x02 ==> (r matches Some(v) && v@ == seq![0x01u8, 0x02, 0x00, 0x00, 0x06]),
        !(value@.len() == 3 && value@[0] == 0x02) ==> r is None,
{
    if value.len() == 3 && value[0] == 0x02 {
        let v: Vec<u8> = vec![0x01u8, 0x02, 0x00, 0x00, 0x06];
        assert(v@ =~= seq![0x01u8, 0x02, 0x00, 0x00, 0x06]);
        Some(v)
    } else {
        None
    }
}

/// The UUID of the first characteristic, in order, whose value has the
/// handle; `None` when no characteristic has it.
pub fn get_uuid_by_handle(characteristics: &[Characteristic], handle: u16) -> (r: Option<CharacteristicUUID>)
    ensures
        match r {
            Some(u) => exists|i: int|
                0 <= i < characteristics@.len() && characteristics@[i].value_handle == handle && u@
                    == characteristics@[i].uuid@ && forall|j: int|
                    0 <= j < i ==> (#[trigger] characteristics@[j]).value_handle != handle,
            None => forall|i: int|
                0 <= i < characteristics@.len() ==> (#[trigger] characteristics@[i]).value_handle != handle,
        },
{
    let mut i: usize = 0;
    while i < characteristics.len()
        invariant
            0 <= i <= characteristics@.len(),
            forall|j: int| 0 <= j < i ==> (#[trigger] characteristics@[j]).value_handle != handle,
        decreases characteristics@.len() - i,
    {
        if characteristics[i].value_handle == handle {
            let u = match &characteristics[i].uuid {
                CharacteristicUUID::B16(v) => CharacteristicUUID::B16(*v),
                CharacteristicUUID::B128(a) => CharacteristicUUID::B128(*a),
            };
            return Some(u);
        }
        i = i + 1;
    }
    None
}

} // verus!
