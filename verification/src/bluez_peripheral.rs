//! The rules of the BlueZ back end: how the device properties that changed
//! update what is known of a peripheral and how far its connection has
//! come, how the handle ranges of its characteristics follow from the GATT
//! attributes found under its object, how characteristic flag names
//! combine, where a characteristic's details are found among the discovered
//! services, and what the listeners are told of a device event.

use vstd::prelude::*;
use std::collections::HashMap;
use vstd::string::StringExecFns;
use crate::api::{spec_bluez_flag, AddressType, CharPropFlags, Error, ParseCharPropFlagsError};
use crate::bleuuid::{spec_hyphenated, Uuid};
use crate::bdaddr::BDAddr;
use crate::device::{Characteristic, CharacteristicUUID, SpecCharacteristic, SpecCharacteristicUUID};

verus! {

broadcast use vstd::std_specs::hash::group_hash_axioms;

/// How far the connection to a peripheral has come, in the order of its
/// progress.
#[derive(Clone, Copy, Debug, PartialEq, Eq, Structural)]
pub enum ConnectionState {
    NotConnected,
    Connected,
    ServicesResolved,
}

/// The rank of a connection state in the order of progress.
pub open spec fn progress(s: ConnectionState) -> int {
    match s {
        ConnectionState::NotConnected => 0,
        ConnectionState::Connected => 1,
        ConnectionState::ServicesResolved => 2,
    }
}

/// What is known of a peripheral.
#[derive(Debug, Clone)]
pub struct DeviceProperties {
    pub address: BDAddr,
    pub address_type: AddressType,
    pub local_name: Option<String>,
    pub tx_power_level: Option<i8>,
    /// Advertisement data specific to the device manufacturer, by
    /// manufacturer ID.
    pub manufacturer_data: HashMap<u16, Vec<u8>>,
    /// How many property updates were received.
    pub discovery_count: u32,
}

/// The device properties that BlueZ reports as changed. A manufacturer data
/// entry holds `None` where its value was not a byte array.
#[derive(Debug, Clone)]
pub struct ChangedProperties {
    pub connected: Option<bool>,
    pub name: Option<String>,
    pub services_resolved: Option<bool>,
    pub manufacturer_data: Option<Vec<(u16, Option<Vec<u8>>)>>,
    pub address_type: Option<String>,
    pub rssi: Option<i16>,
}

/// What the peripheral tells the adapter's listeners.
#[derive(Debug, Clone, Copy, PartialEq, Eq)]
pub enum DeviceEvent {
    DeviceConnected(BDAddr),
    DeviceDisconnected(BDAddr),
    DeviceUpdated(BDAddr),
}

/// What the peripheral does after its properties changed.
#[derive(Debug, Clone, Copy, PartialEq, Eq)]
pub enum PeripheralUpdate {
    /// Tell the adapter's listeners.
    Emit(DeviceEvent),
    /// Work out the handle ranges of the characteristics from the attributes.
    BuildCharacteristicRanges,
    /// Wake whoever waits for the connection state.
    NotifyWaiters,
}

/// The connection state after BlueZ reports whether the device is connected.
pub open spec fn spec_state_after_connected(s: ConnectionState, connected: bool) -> ConnectionState {
    if connected {
        if progress(s) < 1 {
            ConnectionState::Connected
        } else {
            s
        }
    } else {
        ConnectionState::NotConnected
    }
}

/// What a report of whether the device is connected does: a connection is
/// announced when it was not connected, a disconnection when it was, and
/// the waiters are woken.
pub open spec fn spec_connected_updates(s: ConnectionState, connected: bool, address: BDAddr) -> Seq<
    PeripheralUpdate,
> {
    let announced = if connected && progress(s) < 1 {
        seq![PeripheralUpdate::Emit(DeviceEvent::DeviceConnected(address))]
    } else if !connected && progress(s) >= 1 {
        seq![PeripheralUpdate::Emit(DeviceEvent::DeviceDisconnected(address))]
    } else {
        Seq::empty()
    };
    announced.push(PeripheralUpdate::NotifyWaiters)
}

/// The connection state after the properties changed.
pub open spec fn spec_state_after(s: ConnectionState, connected: Option<bool>, resolved: Option<bool>) -> ConnectionState {
    let s1 = match connected {
        Some(c) => spec_state_after_connected(s, c),
        None => s,
    };
    if resolved == Some(true) {
        ConnectionState::ServicesResolved
    } else {
        s1
    }
}

/// What the peripheral does after the properties changed, in order: the
/// connection report, then the report of resolved services (the ranges are
/// worked out when they are resolved; the waiters are woken either way), and
/// last the announcement that the device was updated.
pub open spec fn spec_updates(
    s: ConnectionState,
    connected: Option<bool>,
    resolved: Option<bool>,
    address: BDAddr,
) -> Seq<PeripheralUpdate> {
    let a1 = match connected {
        Some(c) => spec_connected_updates(s, c, address),
        None => Seq::empty(),
    };
    let a2 = match resolved {
        Some(true) => seq![PeripheralUpdate::BuildCharacteristicRanges, PeripheralUpdate::NotifyWaiters],
        Some(false) => seq![PeripheralUpdate::NotifyWaiters],
        None => Seq::empty(),
    };
    a1 + a2 + seq![PeripheralUpdate::Emit(DeviceEvent::DeviceUpdated(address))]
}

/// The manufacturer data of the entries: each entry that holds bytes sets
/// the data of its manufacturer ID, in order; the others are left out.
pub open spec fn spec_manufacturer_data(entries: Seq<(u16, Option<Seq<u8>>)>) -> Map<u16, Seq<u8>>
    decreases entries.len(),
{
    if entries.len() == 0 {
        Map::empty()
    } else {
        let prev = spec_manufacturer_data(entries.drop_last());
        match entries.last().1 {
            Some(v) => prev.insert(entries.last().0, v),
            None => prev,
        }
    }
}

/// The bytes of a manufacturer data entry, as plain values.
pub open spec fn entry_view(e: (u16, Option<Vec<u8>>)) -> (u16, Option<Seq<u8>>) {
    (
        e.0,
        match e.1 {
            Some(v) => Some(v@),
            None => None,
        },
    )
}

/// The manufacturer data of a map, as plain values.
pub open spec fn data_view(m: Map<u16, Vec<u8>>) -> Map<u16, Seq<u8>> {
    m.map_values(|v: Vec<u8>| v@)
}

fn manufacturer_data_map(entries: &Vec<(u16, Option<Vec<u8>>)>) -> (m: HashMap<u16, Vec<u8>>)
    ensures
        data_view(m@) == spec_manufacturer_data(entries@.map_values(|e: (u16, Option<Vec<u8>>)| entry_view(e))),
{
    let ghost es = entries@.map_values(|e: (u16, Option<Vec<u8>>)| entry_view(e));
    let mut m: HashMap<u16, Vec<u8>> = HashMap::new();
    let n = entries.len();
    let mut i: usize = 0;
    assert(data_view(m@) =~= spec_manufacturer_data(es.take(0)));
    while i < n
        invariant
            n == entries@.len(),
            es == entries@.map_values(|e: (u16, Option<Vec<u8>>)| entry_view(e)),
            0 <= i <= n,
            data_view(m@) == spec_manufacturer_data(es.take(i as int)),
        decreases n - i,
    {
        assert(es.take(i as int + 1).drop_last() =~= es.take(i as int));
        assert(es.take(i as int + 1).last() == entry_view(entries@[i as int]));
        match &entries[i].1 {
            Some(v) => {
                let ghost before = m@;
                m.insert(entries[i].0, v.clone());
                assert(data_view(m@) =~= data_view(before).insert(entries@[i as int].0, v@));
            },
            None => {},
        }
        i = i + 1;
    }
    assert(es.take(n as int) =~= es);
    m
}

/// The address type that BlueZ's text names, public when it names none.
pub open spec fn spec_address_type_text(t: Seq<char>) -> AddressType {
    if t == "random"@ {
        AddressType::Random
    } else {
        AddressType::Public
    }
}

/// Updates what is known of a peripheral, and how far its connection has
/// come, from the device properties that BlueZ reports as changed, and
/// returns what the peripheral does next, in order. Every report counts as
/// a discovery; the reported signal strength is kept, cut to 8 bits, as the
/// transmission power level.
pub fn update_properties(
    properties: &mut DeviceProperties,
    state: &mut ConnectionState,
    changed: ChangedProperties,
) -> (updates: Vec<PeripheralUpdate>)
    requires
        old(properties).discovery_count < u32::MAX,
    ensures
        final(properties).discovery_count == old(properties).discovery_count + 1,
        final(properties).address == old(properties).address,
        final(properties).local_name == (match changed.name {
            Some(n) => Some(n),
            None => old(properties).local_name,
        }),
        match changed.manufacturer_data {
            Some(entries) => data_view(final(properties).manufacturer_data@) == spec_manufacturer_data(
                entries@.map_values(|e: (u16, Option<Vec<u8>>)| entry_view(e)),
            ),
            None => final(properties).manufacturer_data == old(properties).manufacturer_data,
        },
        final(properties).address_type == (match changed.address_type {
            Some(t) => spec_address_type_text(t@),
            None => old(properties).address_type,
        }),
        final(properties).tx_power_level == (match changed.rssi {
            Some(r) => Some(r as i8),
            None => old(properties).tx_power_level,
        }),
        *final(state) == spec_state_after(*old(state), changed.connected, changed.services_resolved),
        updates@ == spec_updates(
            *old(state),
            changed.connected,
            changed.services_resolved,
            old(properties).address,
        ),
{
    let mut updates: Vec<PeripheralUpdate> = Vec::new();
    let address = properties.address;
    properties.discovery_count = properties.discovery_count + 1;
    let ghost s0 = *state;
    match changed.connected {
        Some(connected) => {
            if connected {
                if *state == ConnectionState::NotConnected {
                    updates.push(PeripheralUpdate::Emit(DeviceEvent::DeviceConnected(address)));
                    *state = ConnectionState::Connected;
                }
            } else {
                if *state != ConnectionState::NotConnected {
                    updates.push(PeripheralUpdate::Emit(DeviceEvent::DeviceDisconnected(address)));
                }
                *state = ConnectionState::NotConnected;
            }
            updates.push(PeripheralUpdate::NotifyWaiters);
            assert(updates@ =~= spec_connected_updates(s0, connected, address));
        },
        None => {},
    }
    let ghost u1 = updates@;
    match changed.name {
        Some(n) => {
            properties.local_name = Some(n);
        },
        None => {},
    }
    match changed.services_resolved {
        Some(resolved) => {
            if resolved {
                updates.push(PeripheralUpdate::BuildCharacteristicRanges);
                *state = ConnectionState::ServicesResolved;
            }
            updates.push(PeripheralUpdate::NotifyWaiters);
        },
        None => {},
    }
    match &changed.manufacturer_data {
        Some(entries) => {
            properties.manufacturer_data = manufacturer_data_map(entries);
        },
        None => {},
    }
    match &changed.address_type {
        Some(t) => {
            proof {
                reveal_strlit("public");
                reveal_strlit("random");
            }
            let text = t.as_str();
            let parsed = AddressType::from_str(text);
            assert(text@ == t@);
            properties.address_type = match parsed {
                Some(a) => a,
                None => AddressType::Public,
            };
            assert("public"@ != "random"@) by {
                assert("public"@[0] != "random"@[0]);
            }
            assert(properties.address_type == spec_address_type_text(t@));
        },
        None => {},
    }
    match changed.rssi {
        Some(r) => {
            properties.tx_power_level = Some(r as i8);
        },
        None => {},
    }
    updates.push(PeripheralUpdate::Emit(DeviceEvent::DeviceUpdated(address)));
    assert(updates@ =~= spec_updates(s0, changed.connected, changed.services_resolved, address));
    updates
}

/// The kind of a GATT attribute under a BlueZ device object.
#[derive(Clone, Copy, Debug, PartialEq, Eq, Structural)]
pub enum AttributeType {
    Service,
    Characteristic,
    Descriptor,
}

/// A GATT attribute of a peripheral: its kind, its handle, and the UUID and
/// properties that were recorded for it.
#[derive(Clone, Debug, PartialEq, Eq)]
pub struct Attribute {
    pub typ: AttributeType,
    pub handle: u16,
    pub uuid: CharacteristicUUID,
    pub properties: CharPropFlags,
}

/// An attribute, as plain values.
pub struct SpecAttribute {
    pub typ: AttributeType,
    pub handle: u16,
    pub uuid: SpecCharacteristicUUID,
    pub properties: u8,
}

impl View for Attribute {
    type V = SpecAttribute;

    open spec fn view(&self) -> SpecAttribute {
        SpecAttribute {
            typ: self.typ,
            handle: self.handle,
            uuid: self.uuid@,
            properties: self.properties@,
        }
    }
}

/// The attributes of one kind, in their order.
pub open spec fn of_type(attrs: Seq<SpecAttribute>, t: AttributeType) -> Seq<SpecAttribute>
    decreases attrs.len(),
{
    if attrs.len() == 0 {
        Seq::empty()
    } else {
        let prev = of_type(attrs.drop_last(), t);
        if attrs.last().typ == t {
            prev.push(attrs.last())
        } else {
            prev
        }
    }
}

/// The characteristics of a run of attributes: each one reaches up to the
/// handle before the next one's, and the last one to the end of the handle
/// space.
pub open spec fn spec_ranges(xs: Seq<SpecAttribute>) -> Seq<SpecCharacteristic> {
    Seq::new(
        xs.len(),
        |i: int|
            SpecCharacteristic {
                start_handle: xs[i].handle,
                end_handle: if i + 1 < xs.len() {
                    (xs[i + 1].handle - 1) as u16
                } else {
                    0xffff
                },
                value_handle: xs[i].handle,
                uuid: xs[i].uuid,
                properties: xs[i].properties,
            },
    )
}

/// Whether every attribute of a run but the first has a handle above zero,
/// so that the handle before it exists.
pub open spec fn ranges_fit(xs: Seq<SpecAttribute>) -> bool {
    forall|i: int| 1 <= i < xs.len() ==> (#[trigger] xs[i]).handle > 0
}

/// The attributes as plain values.
pub open spec fn attribute_views(attrs: Seq<Attribute>) -> Seq<SpecAttribute> {
    attrs.map_values(|a: Attribute| a@)
}

/// The characteristics as plain values.
pub open spec fn characteristic_views(cs: Seq<Characteristic>) -> Seq<SpecCharacteristic> {
    cs.map_values(|c: Characteristic| c@)
}

fn copy_uuid(u: &CharacteristicUUID) -> (r: CharacteristicUUID)
    ensures
        r@ == u@,
{
    match u {
        CharacteristicUUID::B16(v) => CharacteristicUUID::B16(*v),
        CharacteristicUUID::B128(a) => CharacteristicUUID::B128(*a),
    }
}

fn select(attrs: &Vec<Attribute>, t: AttributeType) -> (sel: Vec<Attribute>)
    ensures
        attribute_views(sel@) == of_type(attribute_views(attrs@), t),
{
    let ghost av = attribute_views(attrs@);
    let mut sel: Vec<Attribute> = Vec::new();
    let n = attrs.len();
    let mut i: usize = 0;
    while i < n
        invariant
            n == attrs@.len(),
            av == attribute_views(attrs@),
            0 <= i <= n,
            attribute_views(sel@) == of_type(av.take(i as int), t),
        decreases n - i,
    {
        assert(av.take(i as int + 1).drop_last() =~= av.take(i as int));
        assert(av.take(i as int + 1).last() == attrs@[i as int]@);
        if attrs[i].typ == t {
            let ghost before = sel@;
            sel.push(
                Attribute {
                    typ: attrs[i].typ,
                    handle: attrs[i].handle,
                    uuid: copy_uuid(&attrs[i].uuid),
                    properties: attrs[i].properties,
                },
            );
            assert(attribute_views(sel@) =~= attribute_views(before).push(attrs@[i as int]@));
        }
        i = i + 1;
    }
    assert(av.take(n as int) =~= av);
    sel
}

fn push_ranges(xs: &Vec<Attribute>, out: &mut Vec<Characteristic>)
    requires
        ranges_fit(attribute_views(xs@)),
    ensures
        characteristic_views(final(out)@) == characteristic_views(old(out)@) + spec_ranges(
            attribute_views(xs@),
        ),
{
    let ghost xv = attribute_views(xs@);
    let ghost o0 = characteristic_views(out@);
    let n = xs.len();
    let mut i: usize = 0;
    while i < n
        invariant
            n == xs@.len(),
            xv == attribute_views(xs@),
            ranges_fit(xv),
            0 <= i <= n,
            characteristic_views(out@) == o0 + spec_ranges(xv).take(i as int),
        decreases n - i,
    {
        let end_handle: u16 = if i + 1 < n {
            assert(xv[i as int + 1].handle > 0);
            xs[i + 1].handle - 1
        } else {
            0xffff
        };
        let ghost before = out@;
        out.push(
            Characteristic {
                start_handle: xs[i].handle,
                end_handle,
                value_handle: xs[i].handle,
                uuid: copy_uuid(&xs[i].uuid),
                properties: xs[i].properties,
            },
        );
        assert(characteristic_views(out@) =~= characteristic_views(before).push(spec_ranges(xv)[i as int]));
        assert(spec_ranges(xv).take(i as int + 1) =~= spec_ranges(xv).take(i as int).push(
            spec_ranges(xv)[i as int],
        ));
        i = i + 1;
    }
    assert(spec_ranges(xv).take(n as int) =~= spec_ranges(xv));
}

/// The characteristics of a peripheral, from its GATT attributes in the
/// order they are walked: first the services, then the characteristics;
/// each reaches from its own handle up to the handle before the next one of
/// its kind, and the last of each kind to the end of the handle space.
/// Descriptors make none.
pub fn build_characteristic_ranges(attributes: &Vec<Attribute>) -> (cs: Vec<Characteristic>)
    requires
        ranges_fit(of_type(attribute_views(attributes@), AttributeType::Service)),
        ranges_fit(of_type(attribute_views(attributes@), AttributeType::Characteristic)),
    ensures
        characteristic_views(cs@) == spec_ranges(of_type(attribute_views(attributes@), AttributeType::Service))
            + spec_ranges(of_type(attribute_views(attributes@), AttributeType::Characteristic)),
{
    let mut cs: Vec<Characteristic> = Vec::new();
    let services = select(attributes, AttributeType::Service);
    push_ranges(&services, &mut cs);
    let characteristics = select(attributes, AttributeType::Characteristic);
    push_ranges(&characteristics, &mut cs);
    assert(characteristic_views(Seq::<Characteristic>::empty()) =~= Seq::<SpecCharacteristic>::empty());
    cs
}

/// A connection reported twice is announced once: the second report, whatever
/// else changed with it but the connection, announces no connection.
pub proof fn law_connection_is_announced_once(s: ConnectionState, resolved: Option<bool>, address: BDAddr)
    ensures
        ({
            let s1 = spec_state_after(s, Some(true), resolved);
            let a2 = spec_updates(s1, Some(true), resolved, address);
            &&& progress(s1) >= 1
            &&& !a2.contains(PeripheralUpdate::Emit(DeviceEvent::DeviceConnected(address)))
        }),
{
    let s1 = spec_state_after(s, Some(true), resolved);
    let a2 = spec_updates(s1, Some(true), resolved, address);
    if a2.contains(PeripheralUpdate::Emit(DeviceEvent::DeviceConnected(address))) {
        let j = choose|j: int| 0 <= j < a2.len() && a2[j] == PeripheralUpdate::Emit(
            DeviceEvent::DeviceConnected(address),
        );
        assert(false);
    }
}

/// A disconnection is announced exactly when the peripheral was connected,
/// and leaves it not connected unless the same report resolves its services.
pub proof fn law_disconnection_follows_connection(s: ConnectionState, address: BDAddr)
    ensures
        spec_state_after(s, Some(false), None) == ConnectionState::NotConnected,
        spec_updates(s, Some(false), None, address).contains(
            PeripheralUpdate::Emit(DeviceEvent::DeviceDisconnected(address)),
        ) <==> progress(s) >= 1,
{
    let a = spec_updates(s, Some(false), None, address);
    let e = PeripheralUpdate::Emit(DeviceEvent::DeviceDisconnected(address));
    if progress(s) >= 1 {
        assert(a[0] == e);
    } else if a.contains(e) {
        let j = choose|j: int| 0 <= j < a.len() && a[j] == e;
        assert(false);
    }
}

/// Whether every flag name after an unknown one is unknown too.
pub open spec fn unknown_names_trail(names: Seq<Seq<char>>) -> bool {
    forall|i: int, j: int|
        #![trigger names[i], names[j]]
        0 <= i < j < names.len() && spec_bluez_flag(names[i]) is None ==> spec_bluez_flag(names[j]) is None
}

/// The property bits of the first `k` flag names, all known.
pub open spec fn spec_flag_bits(names: Seq<Seq<char>>, k: int) -> u8
    decreases k,
{
    if k <= 0 {
        0
    } else {
        spec_bluez_flag(names[k - 1]).unwrap() | spec_flag_bits(names, k - 1)
    }
}

/// The texts of a list of flag names.
pub open spec fn name_views(names: Seq<String>) -> Seq<Seq<char>> {
    names.map_values(|n: String| n@)
}

/// The properties of a characteristic from the flag names BlueZ lists for
/// it: the union of the properties the names stand for; when some name is
/// unknown, the error of the last name (every name after an unknown one is
/// unknown too).
pub fn parse_characteristic_flags(names: &Vec<String>) -> (res: Result<CharPropFlags, ParseCharPropFlagsError>)
    requires
        unknown_names_trail(name_views(names@)),
    ensures
        (forall|i: int| 0 <= i < names@.len() ==> spec_bluez_flag(#[trigger] name_views(names@)[i]) is Some)
            ==> (res matches Ok(f) && f@ == spec_flag_bits(name_views(names@), names@.len() as int)),
        (exists|i: int| 0 <= i < names@.len() && spec_bluez_flag(#[trigger] name_views(names@)[i]) is None)
            ==> (res matches Err(ParseCharPropFlagsError::UnknownFlag(n)) && n@ == names@.last()@),
{
    let ghost nv = name_views(names@);
    let mut acc: Result<CharPropFlags, ParseCharPropFlagsError> = Ok(CharPropFlags::empty());
    let n = names.len();
    let mut i: usize = 0;
    while i < n
        invariant
            n == names@.len(),
            nv == name_views(names@),
            unknown_names_trail(nv),
            0 <= i <= n,
            (forall|k: int| 0 <= k < i ==> spec_bluez_flag(#[trigger] nv[k]) is Some) ==> (acc matches Ok(f)
                && f@ == spec_flag_bits(nv, i as int)),
            (exists|k: int| 0 <= k < i && spec_bluez_flag(#[trigger] nv[k]) is None) ==> (acc matches Err(
                ParseCharPropFlagsError::UnknownFlag(m),
            ) && m@ == nv[i - 1]),
        decreases n - i,
    {
        assert(nv[i as int] == names@[i as int]@);
        let f = CharPropFlags::from_str(names[i].as_str());
        match f {
            Ok(flag) => {
                proof {
                    assert forall|k: int| 0 <= k < i implies spec_bluez_flag(#[trigger] nv[k]) is Some by {
                        if spec_bluez_flag(nv[k]) is None {
                            assert(spec_bluez_flag(nv[i as int]) is None);
                        }
                    }
                }
                let prev = match acc {
                    Ok(a) => a,
                    Err(_) => CharPropFlags::empty(),
                };
                acc = Ok(flag.union(prev));
            },
            Err(e) => {
                acc = Err(e);
            },
        }
        i = i + 1;
    }
    acc
}

fn find_key<V>(entries: &Vec<(Uuid, V)>, k: Uuid) -> (r: Option<usize>)
    ensures
        match r {
            Some(i) => i < entries@.len() && entries@[i as int].0 == k && forall|j: int|
                0 <= j < i ==> (#[trigger] entries@[j]).0 != k,
            None => forall|j: int| 0 <= j < entries@.len() ==> (#[trigger] entries@[j]).0 != k,
        },
{
    let mut i: usize = 0;
    while i < entries.len()
        invariant
            0 <= i <= entries@.len(),
            forall|j: int| 0 <= j < i ==> (#[trigger] entries@[j]).0 != k,
        decreases entries@.len() - i,
    {
        if entries[i].0 == k {
            return Some(i);
        }
        i = i + 1;
    }
    None
}

/// Looks up what is kept of a characteristic among the services discovered
/// on a peripheral (for each service UUID, its characteristics by UUID):
/// the service of the characteristic's service UUID, then its
/// characteristic of the UUID. An error names whichever UUID was not found.
pub fn characteristic_info<'a, T>(
    services: &'a Vec<(Uuid, Vec<(Uuid, T)>)>,
    service_uuid: Uuid,
    characteristic_uuid: Uuid,
) -> (r: Result<&'a T, Error>)
    ensures
        match r {
            Ok(t) => exists|i: int, j: int|
                #![trigger services@[i], services@[i].1@[j]]
                0 <= i < services@.len() && services@[i].0 == service_uuid && (forall|k: int|
                    0 <= k < i ==> (#[trigger] services@[k]).0 != service_uuid) && 0 <= j
                    < services@[i].1@.len() && services@[i].1@[j].0 == characteristic_uuid && (forall|k: int|
                    0 <= k < j ==> (#[trigger] services@[i].1@[k]).0 != characteristic_uuid) && *t
                    == services@[i].1@[j].1,
            Err(e) => e matches Error::Other(m) && ({
                ||| (forall|i: int| 0 <= i < services@.len() ==> (#[trigger] services@[i]).0 != service_uuid)
                    && m@ == "Service with UUID "@ + spec_hyphenated(service_uuid.0) + " not found."@
                ||| (exists|i: int|
                    0 <= i < services@.len() && (#[trigger] services@[i]).0 == service_uuid && (forall|k: int|
                        0 <= k < i ==> (#[trigger] services@[k]).0 != service_uuid) && (forall|j: int|
                        0 <= j < services@[i].1@.len() ==> (#[trigger] services@[i].1@[j]).0
                            != characteristic_uuid)) && m@ == "Characteristic with UUID "@ + spec_hyphenated(
                    characteristic_uuid.0,
                ) + " not found."@
            }),
        },
{
    match find_key(services, service_uuid) {
        None => {
            let mut m = String::from_str("Service with UUID ");
            let u = service_uuid.to_string();
            m.append(u.as_str());
            m.append(" not found.");
            Err(Error::Other(m))
        },
        Some(i) => {
            let chars = &services[i].1;
            match find_key(chars, characteristic_uuid) {
                None => {
                    let mut m = String::from_str("Characteristic with UUID ");
                    let u = characteristic_uuid.to_string();
                    m.append(u.as_str());
                    m.append(" not found.");
                    assert(services@[i as int].0 == service_uuid);
                    Err(Error::Other(m))
                },
                Some(j) => {
                    assert(services@[i as int].1@[j as int].0 == characteristic_uuid);
                    Ok(&chars[j].1)
                },
            }
        },
    }
}

/// What BlueZ reports of a device, as plain values.
#[derive(Debug, Clone, PartialEq)]
pub enum BluezDeviceEvent {
    Discovered,
    Connected { connected: bool },
    Rssi { rssi: i16 },
    ManufacturerData { manufacturer_data: HashMap<u16, Vec<u8>> },
    /// One entry per service UUID.
    ServiceData { service_data: Vec<(Uuid, Vec<u8>)> },
    Services { services: Vec<Uuid> },
    /// Any other report.
    Other,
}

/// What a BlueZ central tells its listeners of a device, by its address.
#[derive(Debug, Clone, PartialEq)]
pub enum BluezCentralEvent {
    DeviceDiscovered(BDAddr),
    DeviceUpdated(BDAddr),
    DeviceConnected(BDAddr),
    DeviceDisconnected(BDAddr),
    ManufacturerDataAdvertisement { address: BDAddr, manufacturer_data: HashMap<u16, Vec<u8>> },
    ServiceDataAdvertisement { address: BDAddr, service_data: Vec<(Uuid, Vec<u8>)> },
    ServicesAdvertisement { address: BDAddr, services: Vec<Uuid> },
}

/// What the listeners are told of a device event, given the device's
/// address as its information was looked up (`None` when the lookup
/// failed): nothing for events other than discovery, connection, signal
/// strength and advertisements, nor when the lookup failed; a signal
/// strength report tells that the device was updated, and an advertisement
/// is passed on with the address.
pub fn central_event(event: BluezDeviceEvent, address: Option<BDAddr>) -> (r: Option<BluezCentralEvent>)
    ensures
        event == BluezDeviceEvent::Other || address is None ==> r is None,
        address matches Some(a) ==> match event {
            BluezDeviceEvent::Discovered => r == Some(BluezCentralEvent::DeviceDiscovered(a)),
            BluezDeviceEvent::Connected { connected } => r == Some(
                if connected {
                    BluezCentralEvent::DeviceConnected(a)
                } else {
                    BluezCentralEvent::DeviceDisconnected(a)
                },
            ),
            BluezDeviceEvent::Rssi { rssi } => r == Some(BluezCentralEvent::DeviceUpdated(a)),
            BluezDeviceEvent::ManufacturerData { manufacturer_data } => r == Some(
                BluezCentralEvent::ManufacturerDataAdvertisement { address: a, manufacturer_data },
            ),
            BluezDeviceEvent::ServiceData { service_data } => r == Some(
                BluezCentralEvent::ServiceDataAdvertisement { address: a, service_data },
            ),
            BluezDeviceEvent::Services { services } => r == Some(
                BluezCentralEvent::ServicesAdvertisement { address: a, services },
            ),
            BluezDeviceEvent::Other => r is None,
        },
{
    let a = match address {
        Some(a) => a,
        None => {
            return None;
        },
    };
    match event {
        BluezDeviceEvent::Discovered => Some(BluezCentralEvent::DeviceDiscovered(a)),
        BluezDeviceEvent::Connected { connected } => {
            if connected {
                Some(BluezCentralEvent::DeviceConnected(a))
            } else {
                Some(BluezCentralEvent::DeviceDisconnected(a))
            }
        },
        BluezDeviceEvent::Rssi { rssi: _ } => Some(BluezCentralEvent::DeviceUpdated(a)),
        BluezDeviceEvent::ManufacturerData { manufacturer_data } => Some(
            BluezCentralEvent::ManufacturerDataAdvertisement { address: a, manufacturer_data },
        ),
        BluezDeviceEvent::ServiceData { service_data } => Some(
            BluezCentralEvent::ServiceDataAdvertisement { address: a, service_data },
        ),
        BluezDeviceEvent::Services { services } => Some(
            BluezCentralEvent::ServicesAdvertisement { address: a, services },
        ),
        BluezDeviceEvent::Other => None,
    }
}

} // verus!
