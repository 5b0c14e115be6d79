//! Rules of the CoreBluetooth back end that do not need the framework: the
//! ATT MTU inferred from the maximum write length, the split of
//! manufacturer data, and the discovery session.

use vstd::prelude::*;
use vstd::string::{StrSliceExecFns, StringExecFns};
use crate::api::{
    CentralState, CharPropFlags, DEFAULT_MTU_SIZE, Error, RetrievePeripheralsOptions, ScanFilter, WriteType,
    WRITE_WITHOUT_RESPONSE,
};
use vstd::utf8::encode_utf8;
use crate::bleuuid::{spec_hyphenated, Uuid};
use crate::text::{dec_digits, push_decimal};

verus! {

/// ATT Write Command PDUs reserve one byte for the opcode and two bytes for
/// the attribute handle (Bluetooth Core Specification, Vol 3, Part F,
/// 3.4.5.3).
pub const ATT_WRITE_COMMAND_HEADER_LEN: usize = 3;

/// The message for a maximum write length whose ATT MTU does not fit in 16 bits.
pub open spec fn spec_mtu_error(n: usize) -> Seq<char> {
    "CoreBluetooth maximum write value length "@ + dec_digits(n as nat)
        + " cannot be represented as a u16 ATT MTU"@
}

/// The ATT MTU for CoreBluetooth's maximum write-without-response value
/// length: the default MTU when the length is zero, the length plus the
/// write command header otherwise, and an error when that does not fit in
/// 16 bits.
pub fn maximum_write_value_length_to_att_mtu(maximum_write_value_length: usize) -> (res: Result<
    u16,
    String,
>)
    ensures
        maximum_write_value_length == 0 ==> res == Ok::<u16, String>(DEFAULT_MTU_SIZE),
        maximum_write_value_length != 0 && maximum_write_value_length + 3 <= u16::MAX ==> res
            == Ok::<u16, String>((maximum_write_value_length + 3) as u16),
        maximum_write_value_length != 0 && maximum_write_value_length + 3 > u16::MAX ==> (res matches Err(
            msg,
        ) && msg@ == spec_mtu_error(maximum_write_value_length)),
{
    if maximum_write_value_length == 0 {
        return Ok(DEFAULT_MTU_SIZE);
    }
    match maximum_write_value_length.checked_add(ATT_WRITE_COMMAND_HEADER_LEN) {
        Some(mtu) => {
            if mtu <= 0xffff {
                return Ok(mtu as u16);
            }
        },
        None => {},
    }
    let mut msg = String::from_str("CoreBluetooth maximum write value length ");
    push_decimal(&mut msg, maximum_write_value_length);
    msg.append(" cannot be represented as a u16 ATT MTU");
    Err(msg)
}

/// Manufacturer data as advertised: a little-endian company identifier in
/// the first two bytes, the data after them. Shorter data carries none.
pub fn split_manufacturer_data(data: &[u8]) -> (res: Option<(u16, Vec<u8>)>)
    ensures
        data@.len() < 2 ==> res is None,
        data@.len() >= 2 ==> (res matches Some((id, rest)) && id == data@[0] + 256 * data@[1]
            && rest@ == data@.subrange(2, data@.len() as int)),
{
    if data.len() < 2 {
        return None;
    }
    let id: u16 = data[0] as u16 + 256u16 * (data[1] as u16);
    let mut rest: Vec<u8> = Vec::new();
    let mut i: usize = 2;
    while i < data.len()
        invariant
            2 <= i <= data@.len(),
            rest@ == data@.subrange(2, i as int),
        decreases data@.len() - i,
    {
        rest.push(data[i]);
        i = i + 1;
    }
    Some((id, rest))
}

/// A discovery session on a CoreBluetooth adapter. Discovery starts when the
/// adapter is created and stops when it is dropped, so the session's own
/// operations have nothing to do.
#[derive(Clone, Debug)]
pub struct BluetoothDiscoverySession {}

impl BluetoothDiscoverySession {
    /// Creates a session; this always succeeds.
    pub fn create_session() -> (res: Result<BluetoothDiscoverySession, Error>)
        ensures
            res is Ok,
    {
        Ok(BluetoothDiscoverySession {  })
    }

    /// Starts discovery; discovery already runs, so this always succeeds.
    pub fn start_discovery(&self) -> (res: Result<(), Error>)
        ensures
            res is Ok,
    {
        Ok(())
    }

    /// Stops discovery; discovery stops with the adapter, so this always
    /// succeeds.
    pub fn stop_discovery(&self) -> (res: Result<(), Error>)
        ensures
            res is Ok,
    {
        Ok(())
    }
}

/// Whether the app may use Bluetooth (CoreBluetooth's `CBManagerAuthorization`,
/// numbered 0 to 3).
#[derive(Copy, Clone, Debug, Eq, PartialEq, Structural)]
pub enum CBManagerAuthorization {
    NotDetermined,
    Restricted,
    Denied,
    AllowedAlways,
}

/// A peripheral's connection state (CoreBluetooth's `CBPeripheralState`,
/// numbered 0 to 3).
#[derive(Copy, Clone, Debug, Eq, PartialEq, Structural)]
pub enum CBPeripheralState {
    Disonnected,
    Connecting,
    Connected,
    Disconnecting,
}

/// The number CoreBluetooth uses for an authorization.
pub open spec fn spec_authorization_num(a: CBManagerAuthorization) -> i64 {
    match a {
        CBManagerAuthorization::NotDetermined => 0,
        CBManagerAuthorization::Restricted => 1,
        CBManagerAuthorization::Denied => 2,
        CBManagerAuthorization::AllowedAlways => 3,
    }
}

/// The number CoreBluetooth uses for a peripheral state.
pub open spec fn spec_peripheral_state_num(s: CBPeripheralState) -> i64 {
    match s {
        CBPeripheralState::Disonnected => 0,
        CBPeripheralState::Connecting => 1,
        CBPeripheralState::Connected => 2,
        CBPeripheralState::Disconnecting => 3,
    }
}

impl CBManagerAuthorization {
    /// The authorization CoreBluetooth reports with this number, if any.
    pub fn from_i64(v: i64) -> (r: Option<CBManagerAuthorization>)
        ensures
            r matches Some(a) ==> spec_authorization_num(a) == v,
            r is None <==> !(0 <= v <= 3),
    {
        if v == 0 {
            Some(CBManagerAuthorization::NotDetermined)
        } else if v == 1 {
            Some(CBManagerAuthorization::Restricted)
        } else if v == 2 {
            Some(CBManagerAuthorization::Denied)
        } else if v == 3 {
            Some(CBManagerAuthorization::AllowedAlways)
        } else {
            None
        }
    }

    /// The number of this authorization.
    pub fn num(&self) -> (v: i64)
        ensures
            v == spec_authorization_num(*self),
    {
        match self {
            CBManagerAuthorization::NotDetermined => 0,
            CBManagerAuthorization::Restricted => 1,
            CBManagerAuthorization::Denied => 2,
            CBManagerAuthorization::AllowedAlways => 3,
        }
    }
}

impl CBPeripheralState {
    /// The state CoreBluetooth reports with this number, if any.
    pub fn from_i64(v: i64) -> (r: Option<CBPeripheralState>)
        ensures
            r matches Some(s) ==> spec_peripheral_state_num(s) == v,
            r is None <==> !(0 <= v <= 3),
    {
        if v == 0 {
            Some(CBPeripheralState::Disonnected)
        } else if v == 1 {
            Some(CBPeripheralState::Connecting)
        } else if v == 2 {
            Some(CBPeripheralState::Connected)
        } else if v == 3 {
            Some(CBPeripheralState::Disconnecting)
        } else {
            None
        }
    }

    /// The number of this state.
    pub fn num(&self) -> (v: i64)
        ensures
            v == spec_peripheral_state_num(*self),
    {
        match self {
            CBPeripheralState::Disonnected => 0,
            CBPeripheralState::Connecting => 1,
            CBPeripheralState::Connected => 2,
            CBPeripheralState::Disconnecting => 3,
        }
    }
}

/// The state of the Bluetooth central (CoreBluetooth's `CBManagerState`,
/// numbered 0 to 5).
#[derive(Copy, Clone, Debug, Eq, PartialEq, Structural)]
pub enum CBManagerState {
    Unknown,
    Resetting,
    Unsupported,
    Unauthorized,
    PoweredOff,
    PoweredOn,
}

/// The number CoreBluetooth uses for a central state.
pub open spec fn spec_manager_state_num(s: CBManagerState) -> i64 {
    match s {
        CBManagerState::Unknown => 0,
        CBManagerState::Resetting => 1,
        CBManagerState::Unsupported => 2,
        CBManagerState::Unauthorized => 3,
        CBManagerState::PoweredOff => 4,
        CBManagerState::PoweredOn => 5,
    }
}

impl CBManagerState {
    /// The central state CoreBluetooth reports with this number, if any.
    pub fn from_i64(v: i64) -> (r: Option<CBManagerState>)
        ensures
            r matches Some(s) ==> spec_manager_state_num(s) == v,
            r is None <==> !(0 <= v <= 5),
    {
        if v == 0 {
            Some(CBManagerState::Unknown)
        } else if v == 1 {
            Some(CBManagerState::Resetting)
        } else if v == 2 {
            Some(CBManagerState::Unsupported)
        } else if v == 3 {
            Some(CBManagerState::Unauthorized)
        } else if v == 4 {
            Some(CBManagerState::PoweredOff)
        } else if v == 5 {
            Some(CBManagerState::PoweredOn)
        } else {
            None
        }
    }

    /// The number of this central state.
    pub fn num(&self) -> (v: i64)
        ensures
            v == spec_manager_state_num(*self),
    {
        match self {
            CBManagerState::Unknown => 0,
            CBManagerState::Resetting => 1,
            CBManagerState::Unsupported => 2,
            CBManagerState::Unauthorized => 3,
            CBManagerState::PoweredOff => 4,
            CBManagerState::PoweredOn => 5,
        }
    }
}

/// The library's view of a CoreBluetooth central state: powered on, powered
/// off, or unknown for every other state.
pub open spec fn spec_central_state(state: CBManagerState) -> CentralState {
    match state {
        CBManagerState::PoweredOn => CentralState::PoweredOn,
        CBManagerState::PoweredOff => CentralState::PoweredOff,
        _ => CentralState::Unknown,
    }
}

/// The library's view of a CoreBluetooth central state.
pub fn get_central_state(state: CBManagerState) -> (c: CentralState)
    ensures
        c == spec_central_state(state),
{
    match state {
        CBManagerState::PoweredOn => CentralState::PoweredOn,
        CBManagerState::PoweredOff => CentralState::PoweredOff,
        _ => CentralState::Unknown,
    }
}

/// Each state's number reads back as that state.
pub proof fn law_peripheral_state_num_round_trip(s: CBPeripheralState)
    ensures
        0 <= spec_peripheral_state_num(s) <= 3,
        forall|t: CBPeripheralState| spec_peripheral_state_num(t) == spec_peripheral_state_num(s) ==> t == s,
{
}

/// What the rest of the library hears of a peripheral seen while scanning.
#[derive(Clone, Debug, PartialEq)]
pub enum DiscoveryNotice {
    /// A peripheral seen for the first time.
    DeviceDiscovered { local_name: Option<String>, advertisement_name: Option<String> },
    /// A peripheral seen again, with a name.
    DeviceUpdated { local_name: Option<String>, advertisement_name: Option<String> },
}

/// The text of an optional name.
pub open spec fn name_view(n: Option<String>) -> Option<Seq<char>> {
    match n {
        Some(s) => Some(s@),
        None => None,
    }
}

/// A copy of an optional name.
pub(crate) fn copy_name(n: &Option<String>) -> (r: Option<String>)
    ensures
        name_view(r) == name_view(*n),
{
    match n {
        Some(s) => Some(s.clone()),
        None => None,
    }
}

/// The local name of a peripheral seen while scanning: the advertised name
/// (usually the complete local name of a scan response) before the name
/// CoreBluetooth has cached, which is often the shortened one.
pub open spec fn spec_local_name(advertisement_name: Option<Seq<char>>, peripheral_name: Option<Seq<char>>) -> Option<
    Seq<char>,
> {
    match advertisement_name {
        Some(n) => Some(n),
        None => peripheral_name,
    }
}

/// What to tell of a peripheral seen while scanning: a new one is
/// discovered; a known one is updated when some name is known, and nothing
/// is told otherwise.
pub fn on_discovered_peripheral(
    is_new: bool,
    advertisement_name: Option<String>,
    peripheral_name: Option<String>,
) -> (notice: Option<DiscoveryNotice>)
    ensures
        ({
            let adv = name_view(advertisement_name);
            let local_name = spec_local_name(adv, name_view(peripheral_name));
            match notice {
                Some(DiscoveryNotice::DeviceDiscovered { local_name: l, advertisement_name: a }) => is_new
                    && name_view(l) == local_name && name_view(a) == adv,
                Some(DiscoveryNotice::DeviceUpdated { local_name: l, advertisement_name: a }) => !is_new && (
                local_name is Some || adv is Some) && name_view(l) == local_name && name_view(a) == adv,
                None => !is_new && local_name is None && adv is None,
            }
        }),
{
    let local_name = match &advertisement_name {
        Some(n) => Some(n.clone()),
        None => peripheral_name,
    };
    if is_new {
        Some(DiscoveryNotice::DeviceDiscovered { local_name, advertisement_name })
    } else if local_name.is_some() || advertisement_name.is_some() {
        Some(DiscoveryNotice::DeviceUpdated { local_name, advertisement_name })
    } else {
        None
    }
}

/// Which queries a retrieval makes: connected peripherals with some of the
/// services when the service selector is given and not empty, and known
/// identifiers when that selector is given and not empty. Without either
/// selector, the retrieval is refused with a message.
pub fn retrieval_queries(options: &RetrievePeripheralsOptions) -> (r: Result<(bool, bool), String>)
    ensures
        options.identifiers is None && options.services is None ==> (r matches Err(m) && m@
            == "retrieve_peripherals requires an identifier or service selector"@),
        !(options.identifiers is None && options.services is None) ==> r == Ok::<(bool, bool), String>(
            (
                options.services matches Some(v) && v@.len() > 0,
                options.identifiers matches Some(v) && v@.len() > 0,
            ),
        ),
{
    if options.identifiers.is_none() && options.services.is_none() {
        return Err(String::from_str("retrieve_peripherals requires an identifier or service selector"));
    }
    let services = match &options.services {
        Some(v) => v.len() > 0,
        None => false,
    };
    let identifiers = match &options.identifiers {
        Some(v) => v.len() > 0,
        None => false,
    };
    Ok((services, identifiers))
}

/// What std's `str::to_lowercase` gives for a text: the text with each
/// character replaced by its Unicode lowercase mapping.
pub uninterp spec fn spec_to_lowercase(s: Seq<char>) -> Seq<char>;

/// std's `str::to_lowercase`; its result is named by `spec_to_lowercase`.
#[verifier::external_body]
fn to_lowercase(s: &str) -> (r: String)
    ensures
        r@ == spec_to_lowercase(s@),
{
    s.to_lowercase()
}

/// What the uuid crate's `Uuid::parse_str` reads from a text: the UUID's
/// value, or nothing where it reports an error.
pub uninterp spec fn spec_parse_uuid(s: Seq<char>) -> Option<u128>;

/// The uuid crate's `Uuid::parse_str`, with the UUID taken by its value; its
/// result is named by `spec_parse_uuid`.
#[verifier::external_body]
fn parse_uuid(s: &str) -> (r: Option<Uuid>)
    ensures
        match r {
            Some(u) => spec_parse_uuid(s@) == Some(u.0),
            None => spec_parse_uuid(s@) is None,
        },
{
    match uuid::Uuid::parse_str(s) {
        Ok(u) => Some(Uuid(u.as_u128())),
        Err(_) => None,
    }
}

/// The rest of the Bluetooth Base UUID after a 32-bit short UUID, as text.
pub open spec fn base_uuid_tail() -> Seq<char> {
    "-0000-1000-8000-00805f9b34fb"@
}

/// The long form of the UUID text of a CBUUID: CoreBluetooth writes a
/// 16-bit short UUID with 4 characters and a 32-bit one with 8 (by their
/// length in UTF-8 bytes, as `str::len` counts it), and other UUIDs in
/// full.
pub open spec fn spec_cbuuid_long_form(s: Seq<char>) -> Seq<char> {
    if encode_utf8(s).len() as usize == 4 {
        "0000"@ + s + base_uuid_tail()
    } else if encode_utf8(s).len() as usize == 8 {
        s + base_uuid_tail()
    } else {
        s
    }
}

/// The UUID that a CBUUID's UUID text stands for: the text is completed to
/// its long form, lowercased and parsed. `None` where it does not parse.
pub fn cbuuid_to_uuid(uuid_string: &str) -> (r: Option<Uuid>)
    ensures
        match r {
            Some(u) => spec_parse_uuid(spec_to_lowercase(spec_cbuuid_long_form(uuid_string@))) == Some(u.0),
            None => spec_parse_uuid(spec_to_lowercase(spec_cbuuid_long_form(uuid_string@))) is None,
        },
{
    let n = uuid_string.len();
    proof {
        reveal_strlit("0000");
        reveal_strlit("-0000-1000-8000-00805f9b34fb");
        assert(n == encode_utf8(uuid_string@).len() as usize);
    }
    let long = if n == 4 {
        let mut l = String::from_str("0000");
        l.append(uuid_string);
        l.append("-0000-1000-8000-00805f9b34fb");
        assert(l@ =~= spec_cbuuid_long_form(uuid_string@));
        l
    } else if n == 8 {
        let mut l = String::from_str(uuid_string);
        l.append("-0000-1000-8000-00805f9b34fb");
        assert(l@ =~= spec_cbuuid_long_form(uuid_string@));
        l
    } else {
        String::from_str(uuid_string)
    };
    let lower = to_lowercase(long.as_str());
    parse_uuid(lower.as_str())
}

/// The UUID of an NSUUID's UUID text; `None` where it does not parse.
pub fn nsuuid_to_uuid(uuid_string: &str) -> (r: Option<Uuid>)
    ensures
        match r {
            Some(u) => spec_parse_uuid(uuid_string@) == Some(u.0),
            None => spec_parse_uuid(uuid_string@) is None,
        },
{
    parse_uuid(uuid_string)
}

/// The value of a descriptor as CoreBluetooth hands it over, by the class of
/// the object that holds it.
#[derive(Debug, Clone, PartialEq)]
pub enum DescriptorValue {
    /// A string.
    Text(String),
    /// Raw bytes.
    Data(Vec<u8>),
    /// A number, by the text of its value.
    Number(String),
    /// An object of another class.
    Unknown,
}

/// The bytes of a descriptor's value: a string or a number's text in UTF-8,
/// data as it is, and nothing for a missing value or another class.
pub fn get_descriptor_value(value: Option<DescriptorValue>) -> (bytes: Vec<u8>)
    ensures
        match value {
            Some(DescriptorValue::Text(t)) => bytes@ == encode_utf8(t@),
            Some(DescriptorValue::Number(t)) => bytes@ == encode_utf8(t@),
            Some(DescriptorValue::Data(d)) => bytes@ == d@,
            _ => bytes@.len() == 0,
        },
{
    match value {
        Some(DescriptorValue::Text(t)) => t.as_str().as_bytes_vec(),
        Some(DescriptorValue::Number(t)) => t.as_str().as_bytes_vec(),
        Some(DescriptorValue::Data(d)) => d,
        _ => Vec::new(),
    }
}

/// The value of a characteristic: its bytes, or none when it has no value.
pub fn get_characteristic_value(value: Option<Vec<u8>>) -> (bytes: Vec<u8>)
    ensures
        match value {
            Some(v) => bytes == v,
            None => bytes@.len() == 0,
        },
{
    match value {
        Some(v) => v,
        None => Vec::new(),
    }
}

/// How a peripheral is shown: `CBPeripheral(` its name, a comma and its
/// identifier's UUID text, or the UUID text alone without a name, `)`.
pub fn peripheral_debug(name: Option<&str>, uuid_string: &str) -> (s: String)
    ensures
        s@ == "CBPeripheral("@ + (match name {
            Some(n) => n@ + ", "@,
            None => Seq::empty(),
        }) + uuid_string@ + ")"@,
{
    let mut s = String::from_str("CBPeripheral(");
    match name {
        Some(n) => {
            s.append(n);
            s.append(", ");
        },
        None => {},
    }
    s.append(uuid_string);
    s.append(")");
    proof {
        reveal_strlit("CBPeripheral(");
        reveal_strlit(", ");
        reveal_strlit(")");
    }
    assert(s@ =~= "CBPeripheral("@ + (match name {
        Some(n) => n@ + ", "@,
        None => Seq::empty(),
    }) + uuid_string@ + ")"@);
    s
}

/// How a GATT object of a kind (`CBService`, `CBCharacteristic`,
/// `CBDescriptor`) is shown: the kind, then its UUID text in parentheses.
pub fn attribute_debug(kind: &str, uuid_string: &str) -> (s: String)
    ensures
        s@ == kind@ + "("@ + uuid_string@ + ")"@,
{
    let mut s = String::from_str(kind);
    s.append("(");
    s.append(uuid_string);
    s.append(")");
    s
}

/// How a service is shown: `CBService(` its UUID text `)`.
pub fn service_debug(uuid_string: &str) -> (s: String)
    ensures
        s@ == "CBService("@ + uuid_string@ + ")"@,
{
    let s = attribute_debug("CBService", uuid_string);
    proof {
        reveal_strlit("CBService");
        reveal_strlit("CBService(");
        reveal_strlit("(");
    }
    assert(s@ =~= "CBService("@ + uuid_string@ + ")"@);
    s
}

/// How a characteristic is shown: `CBCharacteristic(` its UUID text `)`.
pub fn characteristic_debug(uuid_string: &str) -> (s: String)
    ensures
        s@ == "CBCharacteristic("@ + uuid_string@ + ")"@,
{
    let s = attribute_debug("CBCharacteristic", uuid_string);
    proof {
        reveal_strlit("CBCharacteristic");
        reveal_strlit("CBCharacteristic(");
        reveal_strlit("(");
    }
    assert(s@ =~= "CBCharacteristic("@ + uuid_string@ + ")"@);
    s
}

/// How a descriptor is shown: `CBDescriptor(` its UUID text `)`.
pub fn descriptor_debug(uuid_string: &str) -> (s: String)
    ensures
        s@ == "CBDescriptor("@ + uuid_string@ + ")"@,
{
    let s = attribute_debug("CBDescriptor", uuid_string);
    proof {
        reveal_strlit("CBDescriptor");
        reveal_strlit("CBDescriptor(");
        reveal_strlit("(");
    }
    assert(s@ =~= "CBDescriptor("@ + uuid_string@ + ")"@);
    s
}

/// The text a CBUUID is made from for a UUID: its hyphenated form.
pub fn uuid_to_cbuuid(uuid: Uuid) -> (s: String)
    ensures
        s@ == spec_hyphenated(uuid.0),
{
    uuid.to_string()
}

/// The texts of the CBUUIDs to scan for: none, to discover every device,
/// when the filter names no service, and otherwise the text of each service
/// UUID, in order.
pub fn scan_filter_to_service_uuids(filter: &ScanFilter) -> (r: Option<Vec<String>>)
    ensures
        filter.services@.len() == 0 ==> r is None,
        filter.services@.len() > 0 ==> (r matches Some(v) && v@.len() == filter.services@.len() && forall|i: int|
            0 <= i < v@.len() ==> (#[trigger] v@[i])@ == spec_hyphenated(filter.services@[i].0)),
{
    if filter.services.len() == 0 {
        return None;
    }
    let mut v: Vec<String> = Vec::new();
    let mut i: usize = 0;
    while i < filter.services.len()
        invariant
            0 <= i <= filter.services@.len(),
            v@.len() == i,
            forall|k: int| 0 <= k < i ==> (#[trigger] v@[k])@ == spec_hyphenated(filter.services@[k].0),
        decreases filter.services@.len() - i,
    {
        v.push(uuid_to_cbuuid(filter.services[i]));
        i = i + 1;
    }
    Some(v)
}

/// The write type a write to a characteristic goes out with: a write without
/// response becomes a write with response when the characteristic does not
/// allow writes without response, so that its completion is awaited.
pub fn effective_write_type(write_type: WriteType, properties: CharPropFlags) -> (w: WriteType)
    ensures
        w == (if write_type == WriteType::WithoutResponse && properties@ & WRITE_WITHOUT_RESPONSE
            != WRITE_WITHOUT_RESPONSE {
            WriteType::WithResponse
        } else {
            write_type
        }),
{
    if write_type == WriteType::WithoutResponse && !properties.contains(
        CharPropFlags::from_bits_truncate(WRITE_WITHOUT_RESPONSE),
    ) {
        WriteType::WithResponse
    } else {
        write_type
    }
}

/// Whether a peripheral in this state counts as connected: only in the
/// connected state.
pub fn is_connected_state(state: CBPeripheralState) -> (r: bool)
    ensures
        r == (state == CBPeripheralState::Connected),
{
    match state {
        CBPeripheralState::Connected => true,
        _ => false,
    }
}

} // verus!
