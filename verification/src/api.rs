//! The data types of the library's API and the rules that every back end
//! shares: address types, characteristic property flags, and the selection
//! and merging of retrieved peripherals.

use vstd::prelude::*;
use vstd::laws_eq::obeys_concrete_eq;
use vstd::std_specs::cmp::PartialEqSpec;
use std::collections::{BTreeSet, HashMap};
use crate::bdaddr::BDAddr;
use crate::bleuuid::Uuid;
use crate::text::str_eq;

verus! {

/// The default MTU size for a peripheral.
pub const DEFAULT_MTU_SIZE: u16 = 23;

/// The errors the library's operations report.
#[derive(Debug, Clone, PartialEq, Eq)]
pub enum Error {
    /// Permission denied.
    PermissionDenied,
    /// Device not found.
    DeviceNotFound,
    /// Not connected.
    NotConnected,
    /// The operation, named by the text, is not supported.
    NotSupported(String),
    /// The operation did not complete within the given number of milliseconds.
    TimedOut(u64),
    /// The platform reported an error, described by the text.
    RuntimeError(String),
    /// Any other error, described by the text.
    Other(String),
}

/// The type of a Bluetooth device address.
#[derive(Debug, Clone, Copy, Eq, PartialEq, Structural, Default, Hash)]
pub enum AddressType {
    Random,
    #[default]
    Public,
}

/// The number that stands for each address type.
pub open spec fn spec_address_type_num(t: AddressType) -> u8 {
    match t {
        AddressType::Public => 1,
        AddressType::Random => 2,
    }
}

/// The address type that a number stands for, if any.
pub open spec fn spec_address_type_from_num(v: u8) -> Option<AddressType> {
    if v == 1 {
        Some(AddressType::Public)
    } else if v == 2 {
        Some(AddressType::Random)
    } else {
        None
    }
}

impl AddressType {
    /// Reads `"public"` or `"random"`; any other text gives `None`.
    #[allow(clippy::should_implement_trait)]
    pub fn from_str(v: &str) -> (res: Option<AddressType>)
        ensures
            res == (if v@ == "public"@ {
                Some(AddressType::Public)
            } else if v@ == "random"@ {
                Some(AddressType::Random)
            } else {
                None::<AddressType>
            }),
    {
        if str_eq(v, "public") {
            Some(AddressType::Public)
        } else if str_eq(v, "random") {
            Some(AddressType::Random)
        } else {
            None
        }
    }

    /// The address type that the number stands for: 1 for public, 2 for
    /// random.
    pub fn from_u8(v: u8) -> (res: Option<AddressType>)
        ensures
            res == spec_address_type_from_num(v),
    {
        match v {
            1 => Some(AddressType::Public),
            2 => Some(AddressType::Random),
            _ => None,
        }
    }

    /// The number that stands for this address type.
    pub fn num(&self) -> (n: u8)
        ensures
            n == spec_address_type_num(*self),
    {
        match *self {
            AddressType::Public => 1,
            AddressType::Random => 2,
        }
    }
}

/// An address type's number reads back as the same address type, and a
/// number that reads as an address type is that type's number.
pub proof fn lemma_address_type_num_round_trip(t: AddressType, v: u8)
    ensures
        spec_address_type_from_num(spec_address_type_num(t)) == Some(t),
        spec_address_type_from_num(v) matches Some(u) ==> spec_address_type_num(u) == v,
{
}

/// A set of properties that indicate what operations are supported by a
/// Characteristic.
#[derive(Default, Debug, PartialEq, Eq, Structural, Ord, PartialOrd, Clone, Copy, Hash)]
pub struct CharPropFlags {
    bits: u8,
}

impl View for CharPropFlags {
    type V = u8;

    closed spec fn view(&self) -> u8 {
        self.bits
    }
}

/// Characteristic property bits, as the Bluetooth Core Specification
/// numbers them.
pub const BROADCAST: u8 = 0x01;

pub const READ: u8 = 0x02;

pub const WRITE_WITHOUT_RESPONSE: u8 = 0x04;

pub const WRITE: u8 = 0x08;

pub const NOTIFY: u8 = 0x10;

pub const INDICATE: u8 = 0x20;

pub const AUTHENTICATED_SIGNED_WRITES: u8 = 0x40;

pub const EXTENDED_PROPERTIES: u8 = 0x80;

/// The property bits that BlueZ's textual flag names stand for; the names of
/// extended properties this library does not track stand for no bit.
pub open spec fn spec_bluez_flag(s: Seq<char>) -> Option<u8> {
    if s == "broadcast"@ {
        Some(BROADCAST)
    } else if s == "read"@ {
        Some(READ)
    } else if s == "write-without-response"@ {
        Some(WRITE_WITHOUT_RESPONSE)
    } else if s == "write"@ {
        Some(WRITE)
    } else if s == "notify"@ {
        Some(NOTIFY)
    } else if s == "indicate"@ {
        Some(INDICATE)
    } else if s == "authenticated-signed-writes"@ {
        Some(AUTHENTICATED_SIGNED_WRITES)
    } else if s == "extended-properties"@ {
        Some(EXTENDED_PROPERTIES)
    } else if s == "reliable-write"@ || s == "writable-auxiliaries"@ || s == "encrypt-read"@ || s
        == "encrypt-write"@ || s == "encrypt-authenticated-read"@ || s
        == "encrypt-authenticated-write"@ || s == "authorize"@ {
        Some(0)
    } else {
        None
    }
}

/// An error from reading a BlueZ characteristic flag name.
#[derive(Debug, Clone, PartialEq)]
pub enum ParseCharPropFlagsError {
    /// BlueZ characteristic flag is unknown.
    UnknownFlag(String),
}

/// The characteristic property bits that CoreBluetooth property bits carry
/// over: every standard property but the extended-properties bit.
pub open spec fn spec_from_core_bluetooth(cb: u64) -> u8 {
    (cb % 0x80) as u8
}

impl CharPropFlags {
    /// The empty set of properties.
    pub fn empty() -> (f: CharPropFlags)
        ensures
            f@ == 0,
    {
        CharPropFlags { bits: 0 }
    }

    /// The set of properties whose bits are set in `bits`.
    pub fn from_bits_truncate(bits: u8) -> (f: CharPropFlags)
        ensures
            f@ == bits,
    {
        CharPropFlags { bits }
    }

    /// The bits of this set of properties.
    pub fn bits(&self) -> (b: u8)
        ensures
            b == self@,
    {
        self.bits
    }

    /// Whether every property of `other` is in this set.
    pub fn contains(&self, other: CharPropFlags) -> (r: bool)
        ensures
            r == (self@ & other@ == other@),
    {
        self.bits & other.bits == other.bits
    }

    /// The properties of both sets.
    pub fn union(self, other: CharPropFlags) -> (f: CharPropFlags)
        ensures
            f@ == self@ | other@,
    {
        CharPropFlags { bits: self.bits | other.bits }
    }

    /// Adds the properties of `other` to this set.
    pub fn insert(&mut self, other: CharPropFlags)
        ensures
            final(self)@ == old(self)@ | other@,
    {
        self.bits = self.bits | other.bits;
    }

    /// Reads one BlueZ characteristic flag name.
    pub fn from_str(s: &str) -> (res: Result<CharPropFlags, ParseCharPropFlagsError>)
        ensures
            match spec_bluez_flag(s@) {
                Some(b) => res matches Ok(f) && f@ == b,
                None => res matches Err(ParseCharPropFlagsError::UnknownFlag(name)) && name@ == s@,
            },
    {
        let bits: u8 = if str_eq(s, "broadcast") {
            BROADCAST
        } else if str_eq(s, "read") {
            READ
        } else if str_eq(s, "write-without-response") {
            WRITE_WITHOUT_RESPONSE
        } else if str_eq(s, "write") {
            WRITE
        } else if str_eq(s, "notify") {
            NOTIFY
        } else if str_eq(s, "indicate") {
            INDICATE
        } else if str_eq(s, "authenticated-signed-writes") {
            AUTHENTICATED_SIGNED_WRITES
        } else if str_eq(s, "extended-properties") {
            EXTENDED_PROPERTIES
        } else if str_eq(s, "reliable-write") || str_eq(s, "writable-auxiliaries") || str_eq(
            s,
            "encrypt-read",
        ) || str_eq(s, "encrypt-write") || str_eq(s, "encrypt-authenticated-read") || str_eq(
            s,
            "encrypt-authenticated-write",
        ) || str_eq(s, "authorize") {
            0
        } else {
            return Err(ParseCharPropFlagsError::UnknownFlag(String::from_str(s)));
        };
        Ok(CharPropFlags { bits })
    }

    /// The properties that CoreBluetooth characteristic property bits stand
    /// for: broadcast, read, write without response, write, notify, indicate
    /// and authenticated signed writes carry over; no other bit does.
    pub fn from_core_bluetooth(cb: u64) -> (f: CharPropFlags)
        ensures
            f@ == spec_from_core_bluetooth(cb),
    {
        CharPropFlags { bits: (cb % 0x80) as u8 }
    }

    /// The properties that BlueZ characteristic flag bits stand for: the
    /// eight flags of the low byte (broadcast, read, write without response,
    /// write, notify, indicate, signed write, extended properties) carry over
    /// as the properties of the same bit; the higher flags (reliable write,
    /// writable auxiliaries, the encryption and authorization flags) do not.
    pub fn from_bluez(flags: u16) -> (f: CharPropFlags)
        ensures
            f@ == flags % 0x100,
    {
        CharPropFlags { bits: (flags % 0x100) as u8 }
    }
}

/// The type of write operation to use.
#[derive(Clone, Copy, Debug, Eq, PartialEq, Structural)]
pub enum WriteType {
    /// A write operation where the device is expected to respond with a
    /// confirmation or error. Also known as a request.
    WithResponse,
    /// A write-without-response, also known as a command.
    WithoutResponse,
}

/// The state of the Central.
#[derive(Clone, Copy, Debug, Eq, PartialEq, Structural)]
pub enum CentralState {
    Unknown,
    PoweredOn,
    PoweredOff,
}

/// Current BLE connection parameters as reported by the OS.
#[derive(Debug, Clone, Copy, PartialEq, Eq, Structural)]
pub struct ConnectionParameters {
    /// Connection interval in microseconds (typically 7_500..4_000_000).
    pub interval_us: u32,
    /// Slave latency in number of connection events (0..499).
    pub latency: u16,
    /// Supervision timeout in microseconds (100_000..32_000_000).
    pub supervision_timeout_us: u32,
}

/// Preferred connection parameter presets for requesting updates.
#[derive(Debug, Clone, Copy, PartialEq, Eq, Structural)]
pub enum ConnectionParameterPreset {
    /// Balanced between throughput and power (default).
    Balanced,
    /// Low latency, high throughput. Use temporarily for bulk transfers.
    ThroughputOptimized,
    /// Reduced power consumption, higher latency.
    PowerOptimized,
}

/// A notification sent from a peripheral due to a change in a value.
#[derive(Clone, Debug, Eq, PartialEq)]
pub struct ValueNotification {
    /// UUID of the characteristic that fired the notification.
    pub uuid: Uuid,
    /// UUID of the service that contains the characteristic.
    pub service_uuid: Uuid,
    /// The new value of the characteristic.
    pub value: Vec<u8>,
}

/// A GATT descriptor.
#[derive(Debug, Ord, PartialOrd, Eq, PartialEq, Structural, Clone, Copy, Hash)]
pub struct Descriptor {
    /// The UUID for this descriptor. This uniquely identifies its behavior.
    pub uuid: Uuid,
    /// The UUID of the service this descriptor belongs to.
    pub service_uuid: Uuid,
    /// The UUID of the characteristic this descriptor belongs to.
    pub characteristic_uuid: Uuid,
}

/// A Bluetooth characteristic: identified by a UUID, and interacted with as
/// its properties allow.
#[derive(Debug, Ord, PartialOrd, Eq, PartialEq, Clone)]
pub struct Characteristic {
    /// The UUID for this characteristic. This uniquely identifies its behavior.
    pub uuid: Uuid,
    /// The UUID of the service this characteristic belongs to.
    pub service_uuid: Uuid,
    /// The set of properties for this characteristic.
    pub properties: CharPropFlags,
    /// The descriptors of this characteristic.
    pub descriptors: BTreeSet<Descriptor>,
}

/// A GATT service: a group of characteristics.
#[derive(Debug, Ord, PartialOrd, Eq, PartialEq, Clone)]
pub struct Service {
    /// The UUID for this service.
    pub uuid: Uuid,
    /// Whether this is a primary service.
    pub primary: bool,
    /// The characteristics of this service.
    pub characteristics: BTreeSet<Characteristic>,
}

/// The properties of a peripheral, as determined by the advertising
/// reports received for it.
#[derive(Debug, Default, Clone)]
pub struct PeripheralProperties {
    /// The address of this peripheral.
    pub address: BDAddr,
    /// The type of address (either random or public).
    pub address_type: Option<AddressType>,
    /// The GAP local name.
    pub local_name: Option<String>,
    /// The advertisement name. May be different than local_name.
    pub advertisement_name: Option<String>,
    /// The GAP appearance reported by this peripheral.
    pub appearance: Option<u16>,
    /// The transmission power level for the device.
    pub tx_power_level: Option<i16>,
    /// The most recent Received Signal Strength Indicator for the device.
    pub rssi: Option<i16>,
    /// Advertisement data specific to the device manufacturer, by
    /// manufacturer ID.
    pub manufacturer_data: HashMap<u16, Vec<u8>>,
    /// Advertisement data specific to a service: one entry per service UUID.
    pub service_data: Vec<(Uuid, Vec<u8>)>,
    /// Advertised services for this device.
    pub services: Vec<Uuid>,
    /// The device class.
    pub class: Option<u32>,
}

/// The filter used when scanning for BLE devices: if it holds at least one
/// service UUID, only devices supporting one of them will be available.
#[derive(Clone, Debug, Default, Eq, PartialEq)]
pub struct ScanFilter {
    pub services: Vec<Uuid>,
}

/// The identifier of a peripheral, as the CoreBluetooth back end assigns it.
#[derive(Clone, Copy, Debug, Eq, PartialEq, Structural, Hash, Ord, PartialOrd)]
pub struct PeripheralId(pub Uuid);

/// What a central tells its listeners.
#[derive(Debug, Clone, PartialEq)]
pub enum CentralEvent {
    DeviceDiscovered(PeripheralId),
    DeviceUpdated(PeripheralId),
    DeviceConnected(PeripheralId),
    DeviceDisconnected(PeripheralId),
    /// Only emitted on the CoreBluetooth back end.
    DeviceServicesModified(PeripheralId),
    /// A manufacturer data advertisement was received from a device; the map
    /// holds all the manufacturer data known of it.
    ManufacturerDataAdvertisement { id: PeripheralId, manufacturer_data: HashMap<u16, Vec<u8>> },
    /// A service data advertisement was received from a device: one entry per
    /// service UUID.
    ServiceDataAdvertisement { id: PeripheralId, service_data: Vec<(Uuid, Vec<u8>)> },
    /// The advertised services of a device have been updated.
    ServicesAdvertisement { id: PeripheralId, services: Vec<Uuid> },
    /// A signal strength update was received for a device.
    RssiUpdate { id: PeripheralId, rssi: i16 },
    StateUpdate(CentralState),
}

/// Selects peripherals for retrieval. `None` leaves a selector unspecified;
/// an explicitly empty selector matches nothing. Values within a selector
/// are OR'ed, while the identifier and service selectors are combined as a
/// union.
#[derive(Clone, Debug, Eq, PartialEq, Default)]
pub struct RetrievePeripheralsOptions {
    /// Known peripheral identifiers to retrieve.
    pub identifiers: Option<Vec<PeripheralId>>,
    /// Service UUIDs used to retrieve connected peripherals.
    pub services: Option<Vec<Uuid>>,
}

/// Whether some requested service is among the candidate's services.
pub open spec fn spec_matches_service(candidate: Seq<Uuid>, requested: Seq<Uuid>) -> bool {
    exists|i: int| 0 <= i < requested.len() && candidate.contains(#[trigger] requested[i])
}

/// Whether a candidate matches either supplied selector, or both are left
/// unspecified.
pub open spec fn spec_matches_selectors(
    id: PeripheralId,
    services: Seq<Uuid>,
    identifiers: Option<Seq<PeripheralId>>,
    requested_services: Option<Seq<Uuid>>,
) -> bool {
    if identifiers is None && requested_services is None {
        true
    } else {
        (identifiers matches Some(ids) && ids.contains(id)) || (requested_services matches Some(
            r,
        ) && spec_matches_service(services, r))
    }
}

/// The items whose key did not occur earlier, in their order.
pub open spec fn spec_first_by_key<P, K>(items: Seq<P>, keys: Seq<K>) -> Seq<P>
    decreases items.len(),
{
    if items.len() == 0 || keys.len() != items.len() {
        Seq::empty()
    } else {
        let prev = spec_first_by_key(items.drop_last(), keys.drop_last());
        if keys.drop_last().contains(keys.last()) {
            prev
        } else {
            prev.push(items.last())
        }
    }
}

/// The keys whose value did not occur earlier, in their order.
pub open spec fn spec_distinct<K>(keys: Seq<K>) -> Seq<K> {
    spec_first_by_key(keys, keys)
}

/// Returns whether a candidate identifier is included in an identifier
/// selector.
pub fn matches_identifier<T: PartialEq>(candidate: &T, requested: &[T]) -> (r: bool)
    ensures
        T::obeys_eq_spec() ==> (r <==> exists|k: int|
            0 <= k < requested@.len() && (#[trigger] requested@[k]).eq_spec(candidate)),
        obeys_concrete_eq::<T>() ==> r == requested@.contains(*candidate),
{
    let mut i: usize = 0;
    while i < requested.len()
        invariant
            i <= requested@.len(),
            T::obeys_eq_spec() ==> forall|k: int| 0 <= k < i ==> !(#[trigger] requested@[k]).eq_spec(candidate),
            obeys_concrete_eq::<T>() ==> forall|k: int| 0 <= k < i ==> requested@[k] != *candidate,
        decreases requested@.len() - i,
    {
        let hit = requested[i] == *candidate;
        proof {
            reveal(obeys_concrete_eq);
        }
        if hit {
            proof {
                if obeys_concrete_eq::<T>() {
                    assert(requested@[i as int] == *candidate);
                }
            }
            return true;
        }
        i = i + 1;
    }
    false
}

/// Whether an identifier is among the requested ones.
fn contains_id(requested: &[PeripheralId], candidate: &PeripheralId) -> (r: bool)
    ensures
        r == requested@.contains(*candidate),
{
    let mut i: usize = 0;
    while i < requested.len()
        invariant
            i <= requested@.len(),
            forall|k: int| 0 <= k < i ==> requested@[k] != *candidate,
        decreases requested@.len() - i,
    {
        if requested[i] == *candidate {
            assert(requested@[i as int] == *candidate);
            return true;
        }
        i = i + 1;
    }
    false
}

/// Returns whether a candidate service set contains one of the requested
/// services.
pub fn matches_service(candidate_services: &[Uuid], requested: &[Uuid]) -> (r: bool)
    ensures
        r == spec_matches_service(candidate_services@, requested@),
{
    let mut i: usize = 0;
    while i < requested.len()
        invariant
            i <= requested@.len(),
            forall|k: int| 0 <= k < i ==> !candidate_services@.contains(#[trigger] requested@[k]),
        decreases requested@.len() - i,
    {
        let want: Uuid = requested[i];
        let mut j: usize = 0;
        while j < candidate_services.len()
            invariant
                i < requested@.len(),
                j <= candidate_services@.len(),
                want == requested@[i as int],
                forall|k: int| 0 <= k < j ==> candidate_services@[k] != want,
            decreases candidate_services@.len() - j,
        {
            if candidate_services[j] == want {
                proof {
                    assert(candidate_services@[j as int] == requested@[i as int]);
                    assert(candidate_services@.contains(requested@[i as int]));
                }
                return true;
            }
            j = j + 1;
        }
        i = i + 1;
    }
    false
}

/// Returns whether a candidate matches either supplied selector; a selector
/// is supplied even when empty, and then matches nothing.
pub fn matches_retrieval_selectors(
    candidate_id: &PeripheralId,
    candidate_services: &[Uuid],
    options: &RetrievePeripheralsOptions,
) -> (r: bool)
    ensures
        r == spec_matches_selectors(
            *candidate_id,
            candidate_services@,
            match &options.identifiers {
                Some(v) => Some(v@),
                None => None,
            },
            match &options.services {
                Some(v) => Some(v@),
                None => None,
            },
        ),
{
    let id_match = match &options.identifiers {
        Some(requested) => contains_id(requested.as_slice(), candidate_id),
        None => false,
    };
    let service_match = match &options.services {
        Some(requested) => matches_service(candidate_services, requested.as_slice()),
        None => false,
    };
    if options.identifiers.is_none() && options.services.is_none() {
        true
    } else {
        id_match || service_match
    }
}

/// What merging `ps` may give with the identifier closure `id`: for some
/// identifiers that `id` can give the peripherals, the first peripheral of
/// each identifier, in order (when the identifiers' `==` is equality).
pub open spec fn merge_outcome<P, K: PartialEq, F: Fn(&P) -> K>(ps: Seq<P>, id: F, res: Seq<P>) -> bool {
    exists|keys: Seq<K>|
        {
            &&& keys.len() == ps.len()
            &&& forall|i: int| 0 <= i < keys.len() ==> call_ensures(id, (&ps[i],), #[trigger] keys[i])
            &&& obeys_concrete_eq::<K>() ==> res == spec_first_by_key(ps, keys)
        }
}

/// Merges retrieved peripherals while preserving the first occurrence of
/// each identifier; `id` gives each peripheral's identifier.
pub fn merge_retrieved_peripherals<P, K: PartialEq, F: Fn(&P) -> K>(peripherals: Vec<P>, id: F) -> (res:
    Vec<P>)
    requires
        forall|i: int| 0 <= i < peripherals@.len() ==> call_requires(id, (&peripherals@[i],)),
    ensures
        merge_outcome(peripherals@, id, res@),
{
    let ghost input = peripherals@;
    let mut rest = peripherals;
    let mut res: Vec<P> = Vec::new();
    let mut seen: Vec<K> = Vec::new();
    let ghost mut keys: Seq<K> = Seq::empty();
    let ghost mut taken: nat = 0;
    while rest.len() > 0
        invariant
            taken + rest@.len() == input.len(),
            rest@ == input.subrange(taken as int, input.len() as int),
            keys.len() == taken,
            forall|i: int| 0 <= i < input.len() ==> call_requires(id, (&input[i],)),
            forall|i: int| 0 <= i < taken ==> call_ensures(id, (&input[i],), #[trigger] keys[i]),
            obeys_concrete_eq::<K>() ==> res@ == spec_first_by_key(input.take(taken as int), keys),
            obeys_concrete_eq::<K>() ==> forall|k: K| seen@.contains(k) <==> keys.contains(k),
        decreases rest@.len(),
    {
        let ghost keys_before = keys;
        let ghost seen_at_start = seen@;
        let p = rest.remove(0);
        assert(p == input[taken as int]);
        let k = id(&p);
        let mut found = false;
        let mut j: usize = 0;
        while j < seen.len()
            invariant
                j <= seen@.len(),
                obeys_concrete_eq::<K>() ==> (found <==> exists|m: int| 0 <= m < j && seen@[m] == k),
            decreases seen@.len() - j,
        {
            let same = seen[j] == k;
            proof {
                reveal(obeys_concrete_eq);
            }
            if same {
                found = true;
            }
            j = j + 1;
        }
        proof {
            let old_keys = keys;
            keys = keys.push(k);
            assert(keys.drop_last() =~= old_keys);
            assert(input.take((taken + 1) as int).drop_last() =~= input.take(taken as int));
            if obeys_concrete_eq::<K>() {
                if found {
                    let m = choose|m: int| 0 <= m < seen@.len() && seen@[m] == k;
                    assert(seen@.contains(seen@[m]));
                } else {
                    assert(!seen@.contains(k));
                }
            }
            taken = taken + 1;
        }
        let ghost seen_before = seen@;
        if !found {
            seen.push(k);
            res.push(p);
        }
        proof {
            if obeys_concrete_eq::<K>() {
                let kk = keys.last();
                assert forall|x: K| seen@.contains(x) <==> keys.contains(x) by {
                    if seen@.contains(x) {
                        let m = choose|m: int| 0 <= m < seen@.len() && seen@[m] == x;
                        if m < seen_before.len() {
                            assert(seen_before.contains(x));
                            assert(seen_at_start.contains(x) <==> keys_before.contains(x));
                            assert(keys.drop_last() == keys_before);
                            let w = choose|w: int| 0 <= w < keys.drop_last().len() && keys.drop_last()[w] == x;
                            assert(keys[w] == x);
                        } else {
                            assert(keys[keys.len() - 1] == x);
                        }
                    }
                    if keys.contains(x) {
                        let w = choose|w: int| 0 <= w < keys.len() && keys[w] == x;
                        if w < keys.len() - 1 {
                            assert(keys.drop_last()[w] == x);
                            assert(keys.drop_last() == keys_before);
                            assert(keys_before.contains(x));
                            assert(seen_at_start.contains(x) <==> keys_before.contains(x));
                            assert(seen_before.contains(x));
                            let m = choose|m: int| 0 <= m < seen_before.len() && seen_before[m] == x;
                            assert(seen@[m] == x);
                        } else if found {
                            assert(seen_before.contains(kk));
                        } else {
                            assert(seen@[seen@.len() - 1] == x);
                        }
                    }
                }
            }
        }
    }
    proof {
        assert(input.take(input.len() as int) =~= input);
    }
    res
}

/// The error that a back end without a retrieval source answers with.
pub fn unsupported_retrieve_peripherals<P>() -> (res: Result<Vec<P>, Error>)
    ensures
        res matches Err(Error::NotSupported(op)) && op@ == "retrieve_peripherals"@,
{
    Err(Error::NotSupported(String::from_str("retrieve_peripherals")))
}

/// Keeping the first occurrence of each key leaves every key once, and no
/// key that was not there.
pub proof fn lemma_distinct_keys<K>(keys: Seq<K>)
    ensures
        spec_distinct(keys).no_duplicates(),
        forall|k: K| keys.contains(k) <==> spec_distinct(keys).contains(k),
    decreases keys.len(),
{
    if keys.len() > 0 {
        let d = keys.drop_last();
        let last = keys.last();
        lemma_distinct_keys(d);
        let prev = spec_distinct(d);
        assert(spec_distinct(keys) == (if d.contains(last) {
            prev
        } else {
            prev.push(last)
        }));
        assert forall|k: K| keys.contains(k) <==> (d.contains(k) || k == last) by {
            if keys.contains(k) {
                let i = choose|i: int| 0 <= i < keys.len() && keys[i] == k;
                if i < keys.len() - 1 {
                    assert(d[i] == k);
                }
            }
            if d.contains(k) {
                let i = choose|i: int| 0 <= i < d.len() && d[i] == k;
                assert(keys[i] == k);
            }
            if k == last {
                assert(keys[keys.len() - 1] == k);
            }
        }
        if !d.contains(last) {
            let r = prev.push(last);
            assert forall|k: K| r.contains(k) <==> (prev.contains(k) || k == last) by {
                if r.contains(k) {
                    let i = choose|i: int| 0 <= i < r.len() && r[i] == k;
                    if i < prev.len() {
                        assert(prev[i] == k);
                    }
                }
                if prev.contains(k) {
                    let i = choose|i: int| 0 <= i < prev.len() && prev[i] == k;
                    assert(r[i] == k);
                }
                if k == last {
                    assert(r[prev.len() as int] == k);
                }
            }
            assert forall|i: int, j: int| 0 <= i < r.len() && 0 <= j < r.len() && i != j implies r[i]
                != r[j] by {
                if i < prev.len() && j < prev.len() {
                    assert(r[i] == prev[i] && r[j] == prev[j]);
                } else if i < prev.len() {
                    assert(prev.contains(r[i]));
                } else if j < prev.len() {
                    assert(prev.contains(r[j]));
                }
            }
        }
    }
}

/// What keeping the first item of each key keeps: items whose keys are
/// pairwise different, each one with a key of the input.
proof fn lemma_first_by_key_keys<P, K>(items: Seq<P>, key: spec_fn(P) -> K)
    ensures
        ({
            let once = spec_first_by_key(items, items.map_values(key));
            &&& forall|a: int, b: int| 0 <= a < b < once.len() ==> key(#[trigger] once[a]) != key(#[trigger] once[b])
            &&& forall|a: int| 0 <= a < once.len() ==> items.map_values(key).contains(key(#[trigger] once[a]))
        }),
    decreases items.len(),
{
    if items.len() > 0 {
        let d = items.drop_last();
        let ks = items.map_values(key);
        assert(ks.drop_last() =~= d.map_values(key));
        lemma_first_by_key_keys(d, key);
        let prev = spec_first_by_key(d, d.map_values(key));
        let once = spec_first_by_key(items, ks);
        assert forall|a: int| 0 <= a < prev.len() implies ks.contains(key(#[trigger] prev[a])) by {
            let w = choose|w: int| 0 <= w < d.map_values(key).len() && d.map_values(key)[w] == key(prev[a]);
            assert(ks[w] == key(prev[a]));
        }
        if !ks.drop_last().contains(ks.last()) {
            assert(once == prev.push(items.last()));
            assert(ks[ks.len() - 1] == key(items.last()));
            assert forall|a: int| 0 <= a < prev.len() implies key(#[trigger] prev[a]) != key(items.last()) by {
                assert(d.map_values(key).contains(key(prev[a])));
            }
        }
    }
}

/// Keeping the first item of each key changes nothing when the keys are
/// already pairwise different.
proof fn lemma_first_by_key_of_distinct<P, K>(items: Seq<P>, key: spec_fn(P) -> K)
    requires
        forall|a: int, b: int| 0 <= a < b < items.len() ==> key(#[trigger] items[a]) != key(#[trigger] items[b]),
    ensures
        spec_first_by_key(items, items.map_values(key)) == items,
    decreases items.len(),
{
    if items.len() > 0 {
        let d = items.drop_last();
        let ks = items.map_values(key);
        assert(ks.drop_last() =~= d.map_values(key));
        lemma_first_by_key_of_distinct(d, key);
        if ks.drop_last().contains(ks.last()) {
            let w = choose|w: int| 0 <= w < ks.drop_last().len() && ks.drop_last()[w] == ks.last();
            assert(key(items[w]) == key(items[items.len() - 1]));
        }
        assert(d.push(items.last()) =~= items);
    }
}

/// Merging retrieved peripherals is idempotent: when each peripheral's
/// identifier is a function of the peripheral, merging the merged list again
/// keeps it as it is.
pub proof fn law_merge_idempotent<P, K>(items: Seq<P>, key: spec_fn(P) -> K)
    ensures
        ({
            let once = spec_first_by_key(items, items.map_values(key));
            spec_first_by_key(once, once.map_values(key)) == once
        }),
{
    lemma_first_by_key_keys(items, key);
    lemma_first_by_key_of_distinct(spec_first_by_key(items, items.map_values(key)), key);
}

/// Merging with an identifier closure that gives each peripheral the
/// identifier `key` gives it (and whose identifiers' `==` is equality) keeps
/// the first peripheral of each identifier, in order; merging the merged list
/// again keeps it as it is.
pub proof fn law_merge_twice<P, K: PartialEq, F: Fn(&P) -> K>(
    ps: Seq<P>,
    once: Seq<P>,
    twice: Seq<P>,
    id: F,
    key: spec_fn(P) -> K,
)
    requires
        forall|p: P, k: K| #[trigger] call_ensures(id, (&p,), k) ==> k == key(p),
        obeys_concrete_eq::<K>(),
        merge_outcome(ps, id, once),
        merge_outcome(once, id, twice),
    ensures
        once == spec_first_by_key(ps, ps.map_values(key)),
        twice == once,
{
    let k1 = choose|keys: Seq<K>|
        {
            &&& keys.len() == ps.len()
            &&& forall|i: int| 0 <= i < keys.len() ==> call_ensures(id, (&ps[i],), #[trigger] keys[i])
            &&& obeys_concrete_eq::<K>() ==> once == spec_first_by_key(ps, keys)
        };
    assert forall|i: int| 0 <= i < k1.len() implies #[trigger] k1[i] == ps.map_values(key)[i] by {
        assert(call_ensures(id, (&ps[i],), k1[i]));
    }
    assert(k1 =~= ps.map_values(key));
    let k2 = choose|keys: Seq<K>|
        {
            &&& keys.len() == once.len()
            &&& forall|i: int| 0 <= i < keys.len() ==> call_ensures(id, (&once[i],), #[trigger] keys[i])
            &&& obeys_concrete_eq::<K>() ==> twice == spec_first_by_key(once, keys)
        };
    assert forall|i: int| 0 <= i < k2.len() implies #[trigger] k2[i] == once.map_values(key)[i] by {
        assert(call_ensures(id, (&once[i],), k2[i]));
    }
    assert(k2 =~= once.map_values(key));
    law_merge_idempotent(ps, key);
}

} // verus!
