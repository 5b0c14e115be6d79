//! Reading the packets that come from an HCI socket (commands, ACL data and
//! events) and writing command packets.

use vstd::prelude::*;
use crate::api::{spec_address_type_from_num, AddressType};
use crate::bdaddr::BDAddr;
use crate::hci::{
    adv_views, array6_at, le16, le32, le64, le_advertising_records, spec_adv_fold, spec_adv_panics, u16_at,
    u64_at, copy_range, LEAdvertisingData, ParseError, SpecAdvertisingData, ACL_CONT, ACL_START,
    ACL_START_NO_FLUSH, HCI_COMMAND_PKT,
};
use crate::hci_codes::{spec_command_type, spec_hci_status, CommandType, HCIStatus};

verus! {

/// The link-layer features in an LE Read Remote Used Features Complete event.
#[derive(Debug, Clone, Copy, PartialEq, Eq, Structural)]
pub struct LEFeatureFlags {
    bits: u64,
}

impl View for LEFeatureFlags {
    type V = u64;

    closed spec fn view(&self) -> u64 {
        self.bits
    }
}

impl LEFeatureFlags {
    pub const LE_ENCRYPTION: u64 = 0x0001;

    pub const CONNECTION_PARAMETERS_REQUEST_PROCEDURE: u64 = 0x0002;

    pub const EXTENDED_REJECT_INDICATION: u64 = 0x0004;

    pub const SLAVE_INITIATED_FEATURES_EXCHANGE: u64 = 0x0008;

    pub const PING: u64 = 0x0010;

    pub const DATA_PACKET_LENGTH_EXTENSION: u64 = 0x0020;

    pub const LL_PRIVACY: u64 = 0x0040;

    pub const EXTENDED_SCANNER_FILTER_POLICIES: u64 = 0x0080;

    pub const LE_2M_PHY: u64 = 0x0100;

    pub const STABLE_MODULATION_INDEX_TX: u64 = 0x0200;

    pub const STABLE_MODULATION_INDEX_RX: u64 = 0x0400;

    pub const LE_CODED_PHY: u64 = 0x0800;

    pub const LE_EXTENDED_ADVERTISING: u64 = 0x1000;

    pub const LE_PERIODIC_ADVERTISING: u64 = 0x2000;

    pub const CHANNEL_SELECTION_ALGORITHM_2: u64 = 0x4000;

    pub const POWER_CLASS_1: u64 = 0x8000;

    pub const MINIMUM_NUMBER_OF_USED_CHANNELS_PROCEDURE: u64 = 0x10000;

    /// The features whose bits are set in `bits`; bits that name no feature
    /// are dropped.
    pub fn from_bits_truncate(bits: u64) -> (f: LEFeatureFlags)
        ensures
            f@ == bits & 0x1_FFFF,
    {
        LEFeatureFlags { bits: bits & 0x1_FFFF }
    }

    /// The bits of these features.
    pub fn bits(&self) -> (b: u64)
        ensures
            b == self@,
    {
        self.bits
    }
}

/// The first fragment of an L2CAP packet carried by ACL data.
#[derive(Debug, PartialEq, Clone)]
pub struct ACLData {
    pub handle: u16,
    pub cid: u16,
    pub data: Vec<u8>,
    pub len: u16,
}

/// The mathematical value of [`ACLData`].
pub struct SpecACLData {
    pub handle: u16,
    pub cid: u16,
    pub data: Seq<u8>,
    pub len: u16,
}

impl View for ACLData {
    type V = SpecACLData;

    open spec fn view(&self) -> SpecACLData {
        SpecACLData { handle: self.handle, cid: self.cid, data: self.data@, len: self.len }
    }
}

/// An LE advertising report: who advertised, and what.
#[derive(Debug, PartialEq)]
pub struct LEAdvertisingInfo {
    pub evt_type: u8,
    pub bdaddr_type: u8,
    pub bdaddr: BDAddr,
    pub data: Vec<LEAdvertisingData>,
}

/// The mathematical value of [`LEAdvertisingInfo`].
pub struct SpecLEAdvertisingInfo {
    pub evt_type: u8,
    pub bdaddr_type: u8,
    pub bdaddr: Seq<u8>,
    pub data: Seq<SpecAdvertisingData>,
}

impl View for LEAdvertisingInfo {
    type V = SpecLEAdvertisingInfo;

    open spec fn view(&self) -> SpecLEAdvertisingInfo {
        SpecLEAdvertisingInfo {
            evt_type: self.evt_type,
            bdaddr_type: self.bdaddr_type,
            bdaddr: self.bdaddr@,
            data: adv_views(self.data@),
        }
    }
}

/// An LE Connection Complete event.
#[derive(Debug, PartialEq)]
pub struct LEConnInfo {
    pub handle: u16,
    pub role: u8,
    pub bdaddr: BDAddr,
    pub bdaddr_type: u8,
    pub interval: u16,
    pub latency: u16,
    pub supervision_timeout: u16,
    pub master_clock_accuracy: u8,
}

/// The mathematical value of [`LEConnInfo`].
pub struct SpecLEConnInfo {
    pub handle: u16,
    pub role: u8,
    pub bdaddr: Seq<u8>,
    pub bdaddr_type: u8,
    pub interval: u16,
    pub latency: u16,
    pub supervision_timeout: u16,
    pub master_clock_accuracy: u8,
}

impl View for LEConnInfo {
    type V = SpecLEConnInfo;

    open spec fn view(&self) -> SpecLEConnInfo {
        SpecLEConnInfo {
            handle: self.handle,
            role: self.role,
            bdaddr: self.bdaddr@,
            bdaddr_type: self.bdaddr_type,
            interval: self.interval,
            latency: self.latency,
            supervision_timeout: self.supervision_timeout,
            master_clock_accuracy: self.master_clock_accuracy,
        }
    }
}

/// An LE Connection Update Complete event.
#[derive(Debug, PartialEq, Clone, Copy)]
pub struct LEConnUpdateInfo {
    pub status: HCIStatus,
    pub handle: u16,
    pub interval: u16,
    pub latency: u16,
    pub supervision_timeout: u16,
}

/// What a Command Complete event reports, by command.
#[derive(Debug, PartialEq)]
pub enum CommandComplete {
    Reset,
    ReadLEHostSupported { le: u8, simul: u8 },
    ReadLocalVersion {
        hci_version: u8,
        hci_revision: u16,
        lmp_version: i8,
        manufacturer: u16,
        lmp_sub_version: u8,
    },
    ReadBDAddr { address_type: AddressType, address: BDAddr },
    LESetScanParameters,
    LESetScanEnabled { enabled: bool },
    ReadRSSI { handle: u16, rssi: u8 },
    Other { command: CommandType, status: u8, data: Vec<u8> },
}

/// The mathematical value of [`CommandComplete`].
pub enum SpecCommandComplete {
    Reset,
    ReadLEHostSupported { le: u8, simul: u8 },
    ReadLocalVersion {
        hci_version: u8,
        hci_revision: u16,
        lmp_version: i8,
        manufacturer: u16,
        lmp_sub_version: u8,
    },
    ReadBDAddr { address_type: AddressType, address: Seq<u8> },
    LESetScanParameters,
    LESetScanEnabled { enabled: bool },
    ReadRSSI { handle: u16, rssi: u8 },
    Other { command: CommandType, status: u8, data: Seq<u8> },
}

impl View for CommandComplete {
    type V = SpecCommandComplete;

    open spec fn view(&self) -> SpecCommandComplete {
        match self {
            CommandComplete::Reset => SpecCommandComplete::Reset,
            CommandComplete::ReadLEHostSupported { le, simul } => SpecCommandComplete::ReadLEHostSupported {
                le: *le,
                simul: *simul,
            },
            CommandComplete::ReadLocalVersion {
                hci_version,
                hci_revision,
                lmp_version,
                manufacturer,
                lmp_sub_version,
            } => SpecCommandComplete::ReadLocalVersion {
                hci_version: *hci_version,
                hci_revision: *hci_revision,
                lmp_version: *lmp_version,
                manufacturer: *manufacturer,
                lmp_sub_version: *lmp_sub_version,
            },
            CommandComplete::ReadBDAddr { address_type, address } => SpecCommandComplete::ReadBDAddr {
                address_type: *address_type,
                address: address@,
            },
            CommandComplete::LESetScanParameters => SpecCommandComplete::LESetScanParameters,
            CommandComplete::LESetScanEnabled { enabled } => SpecCommandComplete::LESetScanEnabled {
                enabled: *enabled,
            },
            CommandComplete::ReadRSSI { handle, rssi } => SpecCommandComplete::ReadRSSI {
                handle: *handle,
                rssi: *rssi,
            },
            CommandComplete::Other { command, status, data } => SpecCommandComplete::Other {
                command: *command,
                status: *status,
                data: data@,
            },
        }
    }
}

/// A packet read from an HCI socket.
#[derive(Debug, PartialEq)]
pub enum Message {
    LEAdvertisingReport(LEAdvertisingInfo),
    LEConnComplete(LEConnInfo),
    LEConnUpdate(LEConnUpdateInfo),
    LEReadRemoteUsedFeaturesComplete { status: HCIStatus, handle: u16, flags: LEFeatureFlags },
    HCICommandComplete(CommandComplete),
    LEScanEnableCommand { enable: bool, filter_duplicates: bool },
    HCICommand { command: CommandType, data: Vec<u8> },
    DisconnectComplete { status: HCIStatus, handle: u16, reason: HCIStatus },
    CommandStatus { command: CommandType, status: HCIStatus },
    ACLDataPacket(ACLData),
    ACLDataContinuation { handle: u16, data: Vec<u8> },
}

/// The mathematical value of a [`Message`].
pub enum SpecMessage {
    LEAdvertisingReport(SpecLEAdvertisingInfo),
    LEConnComplete(SpecLEConnInfo),
    LEConnUpdate(LEConnUpdateInfo),
    LEReadRemoteUsedFeaturesComplete { status: HCIStatus, handle: u16, flags: u64 },
    HCICommandComplete(SpecCommandComplete),
    LEScanEnableCommand { enable: bool, filter_duplicates: bool },
    HCICommand { command: CommandType, data: Seq<u8> },
    DisconnectComplete { status: HCIStatus, handle: u16, reason: HCIStatus },
    CommandStatus { command: CommandType, status: HCIStatus },
    ACLDataPacket(SpecACLData),
    ACLDataContinuation { handle: u16, data: Seq<u8> },
}

impl View for Message {
    type V = SpecMessage;

    open spec fn view(&self) -> SpecMessage {
        match self {
            Message::LEAdvertisingReport(i) => SpecMessage::LEAdvertisingReport(i@),
            Message::LEConnComplete(i) => SpecMessage::LEConnComplete(i@),
            Message::LEConnUpdate(i) => SpecMessage::LEConnUpdate(*i),
            Message::LEReadRemoteUsedFeaturesComplete {
                status,
                handle,
                flags,
            } => SpecMessage::LEReadRemoteUsedFeaturesComplete {
                status: *status,
                handle: *handle,
                flags: flags@,
            },
            Message::HCICommandComplete(c) => SpecMessage::HCICommandComplete(c@),
            Message::LEScanEnableCommand {
                enable,
                filter_duplicates,
            } => SpecMessage::LEScanEnableCommand {
                enable: *enable,
                filter_duplicates: *filter_duplicates,
            },
            Message::HCICommand { command, data } => SpecMessage::HCICommand {
                command: *command,
                data: data@,
            },
            Message::DisconnectComplete {
                status,
                handle,
                reason,
            } => SpecMessage::DisconnectComplete { status: *status, handle: *handle, reason: *reason },
            Message::CommandStatus { command, status } => SpecMessage::CommandStatus {
                command: *command,
                status: *status,
            },
            Message::ACLDataPacket(a) => SpecMessage::ACLDataPacket(a@),
            Message::ACLDataContinuation { handle, data } => SpecMessage::ACLDataContinuation {
                handle: *handle,
                data: data@,
            },
        }
    }
}

/// Reading a device address at `p`: six bytes, first byte first.
pub open spec fn spec_bd_addr(b: Seq<u8>, p: int) -> Result<(int, Seq<u8>), ParseError> {
    if b.len() < p + 6 {
        Err(ParseError::Incomplete(6))
    } else {
        Ok((p + 6, b.subrange(p, p + 6)))
    }
}

/// Reading an LE advertising report at `p`: a report count (only one report
/// is read), the event type, the address type, the address, then the
/// length-prefixed advertising data, which is read element by element until
/// one cannot be read.
pub open spec fn spec_le_advertising_info(b: Seq<u8>, p: int) -> Result<(int, SpecLEAdvertisingInfo), ParseError> {
    if b.len() < p + 3 {
        Err(ParseError::Incomplete(1))
    } else if b.len() < p + 9 {
        Err(ParseError::Incomplete(6))
    } else if b.len() < p + 10 {
        Err(ParseError::Incomplete(1))
    } else {
        let n = b[p + 9] as int;
        if b.len() < p + 10 + n {
            Err(ParseError::Incomplete(n as usize))
        } else {
            Ok(
                (
                    p + 10 + n,
                    SpecLEAdvertisingInfo {
                        evt_type: b[p + 1],
                        bdaddr_type: b[p + 2],
                        bdaddr: b.subrange(p + 3, p + 9),
                        data: spec_adv_fold(b.subrange(p + 10, p + 10 + n), 0),
                    },
                ),
            )
        }
    }
}

/// Whether reading an LE advertising report at `p` panics: its advertising
/// data holds an element that panics the element reader.
pub open spec fn spec_le_advertising_info_panics(b: Seq<u8>, p: int) -> bool {
    &&& b.len() >= p + 10
    &&& b.len() >= p + 10 + b[p + 9]
    &&& spec_adv_panics(b.subrange(p + 10, p + 10 + b[p + 9]), 0)
}

/// Reading an LE Connection Complete event at `p`: a skipped status byte,
/// the handle, role, address type, address, interval, latency, supervision
/// timeout and clock accuracy.
pub open spec fn spec_le_conn_complete(b: Seq<u8>, p: int) -> Result<(int, SpecLEConnInfo), ParseError> {
    if b.len() < p + 1 {
        Err(ParseError::Incomplete(1))
    } else if b.len() < p + 3 {
        Err(ParseError::Incomplete(2))
    } else if b.len() < p + 5 {
        Err(ParseError::Incomplete(1))
    } else if b.len() < p + 11 {
        Err(ParseError::Incomplete(6))
    } else if b.len() < p + 17 {
        Err(ParseError::Incomplete(2))
    } else if b.len() < p + 18 {
        Err(ParseError::Incomplete(1))
    } else {
        Ok(
            (
                p + 18,
                SpecLEConnInfo {
                    handle: le16(b, p + 1),
                    role: b[p + 3],
                    bdaddr_type: b[p + 4],
                    bdaddr: b.subrange(p + 5, p + 11),
                    interval: le16(b, p + 11),
                    latency: le16(b, p + 13),
                    supervision_timeout: le16(b, p + 15),
                    master_clock_accuracy: b[p + 17],
                },
            ),
        )
    }
}

/// Reading an LE Read Remote Used Features Complete event at `p`: a status,
/// the handle and 64 bits of features, of which the defined ones are kept.
pub open spec fn spec_le_read_remote_used_features_complete(b: Seq<u8>, p: int) -> Result<
    (int, SpecMessage),
    ParseError,
> {
    if b.len() < p + 1 {
        Err(ParseError::Incomplete(1))
    } else {
        match spec_hci_status(b[p]) {
            None => Err(ParseError::Error),
            Some(status) => if b.len() < p + 3 {
                Err(ParseError::Incomplete(2))
            } else if b.len() < p + 11 {
                Err(ParseError::Incomplete(8))
            } else {
                Ok(
                    (
                        p + 11,
                        SpecMessage::LEReadRemoteUsedFeaturesComplete {
                            status,
                            handle: le16(b, p + 1),
                            flags: le64(b, p + 3) & 0x1_FFFF,
                        },
                    ),
                )
            },
        }
    }
}

/// Reading an LE Connection Update Complete event at `p`: a status, then the
/// handle, interval, latency and supervision timeout.
pub open spec fn spec_le_conn_update_complete(b: Seq<u8>, p: int) -> Result<(int, SpecMessage), ParseError> {
    if b.len() < p + 1 {
        Err(ParseError::Incomplete(1))
    } else {
        match spec_hci_status(b[p]) {
            None => Err(ParseError::Error),
            Some(status) => if b.len() < p + 9 {
                Err(ParseError::Incomplete(2))
            } else {
                Ok(
                    (
                        p + 9,
                        SpecMessage::LEConnUpdate(
                            LEConnUpdateInfo {
                                status,
                                handle: le16(b, p + 1),
                                interval: le16(b, p + 3),
                                latency: le16(b, p + 5),
                                supervision_timeout: le16(b, p + 7),
                            },
                        ),
                    ),
                )
            },
        }
    }
}

/// Reading an LE Meta event at `p`: the subevent code, then that subevent.
pub open spec fn spec_le_meta_event(b: Seq<u8>, p: int) -> Result<(int, SpecMessage), ParseError> {
    if b.len() < p + 1 {
        Err(ParseError::Incomplete(1))
    } else if b[p] == 2 {
        match spec_le_advertising_info(b, p + 1) {
            Ok((n, info)) => Ok((n, SpecMessage::LEAdvertisingReport(info))),
            Err(e) => Err(e),
        }
    } else if b[p] == 1 {
        match spec_le_conn_complete(b, p + 1) {
            Ok((n, info)) => Ok((n, SpecMessage::LEConnComplete(info))),
            Err(e) => Err(e),
        }
    } else if b[p] == 4 {
        spec_le_read_remote_used_features_complete(b, p + 1)
    } else if b[p] == 3 {
        spec_le_conn_update_complete(b, p + 1)
    } else {
        Err(ParseError::Error)
    }
}

/// Whether reading an LE Meta event at `p` panics.
pub open spec fn spec_le_meta_event_panics(b: Seq<u8>, p: int) -> bool {
    b.len() >= p + 1 && b[p] == 2 && spec_le_advertising_info_panics(b, p + 1)
}

/// Reading a Command Complete event at `p`: a skipped byte, the command's
/// opcode and its status, then what that command returns.
pub open spec fn spec_cmd_complete(b: Seq<u8>, p: int) -> Result<(int, SpecMessage), ParseError> {
    if b.len() < p + 1 {
        Err(ParseError::Incomplete(1))
    } else if b.len() < p + 3 {
        Err(ParseError::Incomplete(2))
    } else {
        match spec_command_type(le16(b, p + 1)) {
            None => Err(ParseError::Error),
            Some(cmd) => if b.len() < p + 4 {
                Err(ParseError::Incomplete(1))
            } else {
                let status = b[p + 3];
                let q = p + 4;
                let done = |c: SpecCommandComplete| Ok((q, SpecMessage::HCICommandComplete(c)));
                if cmd == CommandType::Reset {
                    done(SpecCommandComplete::Reset)
                } else if cmd == CommandType::ReadLEHostSupported {
                    if b.len() < q + 2 {
                        Err(ParseError::Incomplete(1))
                    } else {
                        done(SpecCommandComplete::ReadLEHostSupported { le: b[q], simul: b[q + 1] })
                    }
                } else if cmd == CommandType::ReadBDAddr {
                    if b.len() < q + 1 {
                        Err(ParseError::Incomplete(1))
                    } else {
                        match spec_address_type_from_num(b[q]) {
                            None => Err(ParseError::Error),
                            Some(t) => if b.len() < q + 7 {
                                Err(ParseError::Incomplete(6))
                            } else {
                                done(
                                    SpecCommandComplete::ReadBDAddr {
                                        address_type: t,
                                        address: b.subrange(q + 1, q + 7),
                                    },
                                )
                            },
                        }
                    }
                } else if cmd == CommandType::LESetScanParameters {
                    done(SpecCommandComplete::LESetScanParameters)
                } else if cmd == CommandType::LESetScanEnabled {
                    done(SpecCommandComplete::LESetScanEnabled { enabled: status == 1 })
                } else if cmd == CommandType::ReadRSSI {
                    if b.len() < q + 2 {
                        Err(ParseError::Incomplete(2))
                    } else if b.len() < q + 3 {
                        Err(ParseError::Incomplete(1))
                    } else {
                        done(SpecCommandComplete::ReadRSSI { handle: le16(b, q), rssi: b[q + 2] })
                    }
                } else {
                    done(
                        SpecCommandComplete::Other {
                            command: cmd,
                            status,
                            data: b.subrange(q, b.len() as int),
                        },
                    )
                }
            },
        }
    }
}

/// Reading a Disconnection Complete event at `p`: a status, the handle and
/// the reason.
pub open spec fn spec_disconnect_complete(b: Seq<u8>, p: int) -> Result<(int, SpecMessage), ParseError> {
    if b.len() < p + 1 {
        Err(ParseError::Incomplete(1))
    } else {
        match spec_hci_status(b[p]) {
            None => Err(ParseError::Error),
            Some(status) => if b.len() < p + 3 {
                Err(ParseError::Incomplete(2))
            } else if b.len() < p + 4 {
                Err(ParseError::Incomplete(1))
            } else {
                match spec_hci_status(b[p + 3]) {
                    None => Err(ParseError::Error),
                    Some(reason) => Ok(
                        (p + 4, SpecMessage::DisconnectComplete { status, handle: le16(b, p + 1), reason }),
                    ),
                }
            },
        }
    }
}

/// Reading a Command Status event at `p`: a status, a skipped byte and the
/// command's opcode.
pub open spec fn spec_cmd_status(b: Seq<u8>, p: int) -> Result<(int, SpecMessage), ParseError> {
    if b.len() < p + 1 {
        Err(ParseError::Incomplete(1))
    } else {
        match spec_hci_status(b[p]) {
            None => Err(ParseError::Error),
            Some(status) => if b.len() < p + 2 {
                Err(ParseError::Incomplete(1))
            } else if b.len() < p + 4 {
                Err(ParseError::Incomplete(2))
            } else {
                match spec_command_type(le16(b, p + 2)) {
                    None => Err(ParseError::Error),
                    Some(command) => Ok((p + 4, SpecMessage::CommandStatus { command, status })),
                }
            },
        }
    }
}

/// The event codes that are read: Disconnection Complete, Encryption
/// Change, Command Complete, Command Status and LE Meta.
pub open spec fn spec_known_event(code: u8) -> bool {
    code == 0x05 || code == 0x08 || code == 0x0e || code == 0x0f || code == 0x3e
}

/// Reading the body of an event with this code from `d`; Encryption Change
/// is recognized but not read.
pub open spec fn spec_event_body(code: u8, d: Seq<u8>) -> Result<(int, SpecMessage), ParseError> {
    if code == 0x3e {
        spec_le_meta_event(d, 0)
    } else if code == 0x0e {
        spec_cmd_complete(d, 0)
    } else if code == 0x0f {
        spec_cmd_status(d, 0)
    } else if code == 0x05 {
        spec_disconnect_complete(d, 0)
    } else {
        Err(ParseError::Error)
    }
}

/// Reading an event packet at `p`: the event code and the length-prefixed
/// parameters, whose reading gives the message.
pub open spec fn spec_hci_event_pkt(b: Seq<u8>, p: int) -> Result<(int, SpecMessage), ParseError> {
    if b.len() < p + 1 {
        Err(ParseError::Incomplete(1))
    } else if !spec_known_event(b[p]) {
        Err(ParseError::Error)
    } else if b.len() < p + 2 {
        Err(ParseError::Incomplete(1))
    } else {
        let n = b[p + 1] as int;
        if b.len() < p + 2 + n {
            Err(ParseError::Incomplete(n as usize))
        } else {
            match spec_event_body(b[p], b.subrange(p + 2, p + 2 + n)) {
                Ok((_, m)) => Ok((p + 2 + n, m)),
                Err(e) => Err(e),
            }
        }
    }
}

/// Whether reading an event packet at `p` panics.
pub open spec fn spec_hci_event_pkt_panics(b: Seq<u8>, p: int) -> bool {
    &&& b.len() >= p + 2
    &&& b[p] == 0x3e
    &&& b.len() >= p + 2 + b[p + 1]
    &&& spec_le_meta_event_panics(b.subrange(p + 2, p + 2 + b[p + 1]), 0)
}

/// Reading a command packet at `p`: the opcode, then the length-prefixed
/// parameters; those of LE Set Scan Enable are read as two flags.
pub open spec fn spec_hci_command_pkt(b: Seq<u8>, p: int) -> Result<(int, SpecMessage), ParseError> {
    if b.len() < p + 2 {
        Err(ParseError::Incomplete(2))
    } else {
        match spec_command_type(le16(b, p)) {
            None => Err(ParseError::Error),
            Some(command) => if b.len() < p + 3 {
                Err(ParseError::Incomplete(1))
            } else {
                let n = b[p + 2] as int;
                let end = p + 3 + n;
                if b.len() < end {
                    Err(ParseError::Incomplete(n as usize))
                } else if command == CommandType::LESetScanEnabled {
                    if n < 2 {
                        Err(ParseError::Incomplete(1))
                    } else {
                        Ok(
                            (
                                end,
                                SpecMessage::LEScanEnableCommand {
                                    enable: b[p + 3] == 1,
                                    filter_duplicates: b[p + 4] == 1,
                                },
                            ),
                        )
                    }
                } else {
                    Ok((end, SpecMessage::HCICommand { command, data: b.subrange(p + 3, end) }))
                }
            },
        }
    }
}

/// Reading an ACL data packet at `p`: a 16-bit header whose top four bits
/// are the packet boundary flag and whose low twelve bits are the handle. A
/// first fragment has a data length, the L2CAP length and channel, and data
/// of the data length less the four bytes of length and channel; a
/// continuing fragment is the rest of the input.
pub open spec fn spec_hci_acldata_pkt(b: Seq<u8>, p: int) -> Result<(int, SpecMessage), ParseError> {
    if b.len() < p + 2 {
        Err(ParseError::Incomplete(2))
    } else {
        let head = le16(b, p);
        let flags = head / 0x1000;
        let handle = head % 0x1000;
        if flags == 0 || flags == 2 {
            if b.len() < p + 8 {
                Err(ParseError::Incomplete(2))
            } else {
                let dlen = le16(b, p + 2) as int;
                if b.len() < p + 4 + dlen {
                    Err(ParseError::Incomplete((dlen - 4) as usize))
                } else {
                    Ok(
                        (
                            p + 4 + dlen,
                            SpecMessage::ACLDataPacket(
                                SpecACLData {
                                    handle,
                                    cid: le16(b, p + 6),
                                    data: b.subrange(p + 8, p + 4 + dlen),
                                    len: le16(b, p + 4),
                                },
                            ),
                        ),
                    )
                }
            }
        } else if flags == 1 {
            Ok((b.len() as int, SpecMessage::ACLDataContinuation { handle, data: b.subrange(p + 2, b.len() as int) }))
        } else {
            Err(ParseError::Error)
        }
    }
}

/// Whether reading an ACL data packet at `p` panics: a first fragment whose
/// data length is under four.
pub open spec fn spec_hci_acldata_pkt_panics(b: Seq<u8>, p: int) -> bool {
    &&& b.len() >= p + 8
    &&& (le16(b, p) / 0x1000 == 0 || le16(b, p) / 0x1000 == 2)
    &&& le16(b, p + 2) < 4
}

/// Reading a packet from an HCI socket: the packet type (command, ACL data
/// or event), then a packet of that type. On success, the position after
/// the packet and the message it holds.
pub open spec fn spec_message(b: Seq<u8>) -> Result<(int, SpecMessage), ParseError> {
    if b.len() < 1 {
        Err(ParseError::Incomplete(1))
    } else if b[0] == 1 {
        spec_hci_command_pkt(b, 1)
    } else if b[0] == 2 {
        spec_hci_acldata_pkt(b, 1)
    } else if b[0] == 4 {
        spec_hci_event_pkt(b, 1)
    } else {
        Err(ParseError::Error)
    }
}

/// Whether reading a packet panics: an ACL first fragment with a data length
/// under four, or an advertising report with a malformed element.
pub open spec fn spec_message_panics(b: Seq<u8>) -> bool {
    ||| b.len() >= 1 && b[0] == 2 && spec_hci_acldata_pkt_panics(b, 1)
    ||| b.len() >= 1 && b[0] == 4 && spec_hci_event_pkt_panics(b, 1)
}

/// `r`, read at a position, is what the reading `s` gives: the same error,
/// or the same end position and a value whose view is the one read.
pub open spec fn parsed_as<T: View>(r: Result<(usize, T), ParseError>, s: Result<(int, T::V), ParseError>) -> bool {
    match s {
        Ok((n, v)) => r matches Ok((m, x)) && m == n && x@ == v,
        Err(e) => r == Err::<(usize, T), ParseError>(e),
    }
}

/// `r`, read from the start of `i`, is what the reading `s` gives: the same
/// error, or the input after the end position and a value whose view is the
/// one read.
pub open spec fn read_as<'a, T: View>(
    i: Seq<u8>,
    r: Result<(&'a [u8], T), ParseError>,
    s: Result<(int, T::V), ParseError>,
) -> bool {
    match s {
        Ok((n, v)) => r matches Ok((rest, x)) && rest@ == i.subrange(n, i.len() as int) && x@ == v,
        Err(e) => r == Err::<(&'a [u8], T), ParseError>(e),
    }
}

/// The bytes of `b` from `s` on, `n` of them, as a slice.
fn sub_slice(b: &[u8], s: usize, n: usize) -> (d: &[u8])
    requires
        s + n <= b@.len(),
    ensures
        d@ == b@.subrange(s as int, s + n),
{
    let (_, tail) = b.split_at(s);
    let (d, _) = tail.split_at(n);
    assert(d@ =~= b@.subrange(s as int, s + n));
    d
}

fn le_advertising_info_at(b: &[u8], p: usize) -> (r: Result<(usize, LEAdvertisingInfo), ParseError>)
    requires
        p <= b@.len(),
        !spec_le_advertising_info_panics(b@, p as int),
    ensures
        parsed_as(r, spec_le_advertising_info(b@, p as int)),
{
    let avail: usize = b.len() - p;
    if avail < 3 {
        return Err(ParseError::Incomplete(1));
    }
    if avail < 9 {
        return Err(ParseError::Incomplete(6));
    }
    if avail < 10 {
        return Err(ParseError::Incomplete(1));
    }
    let n: usize = b[p + 9] as usize;
    if avail - 10 < n {
        return Err(ParseError::Incomplete(n));
    }
    let d: &[u8] = sub_slice(b, p + 10, n);
    let data: Vec<LEAdvertisingData> = le_advertising_records(d);
    let info = LEAdvertisingInfo {
        evt_type: b[p + 1],
        bdaddr_type: b[p + 2],
        bdaddr: BDAddr::from_array(array6_at(b, p + 3)),
        data,
    };
    Ok((p + 10 + n, info))
}

fn le_conn_complete_at(b: &[u8], p: usize) -> (r: Result<(usize, LEConnInfo), ParseError>)
    requires
        p <= b@.len(),
    ensures
        parsed_as(r, spec_le_conn_complete(b@, p as int)),
{
    let avail: usize = b.len() - p;
    if avail < 1 {
        return Err(ParseError::Incomplete(1));
    }
    if avail < 3 {
        return Err(ParseError::Incomplete(2));
    }
    if avail < 5 {
        return Err(ParseError::Incomplete(1));
    }
    if avail < 11 {
        return Err(ParseError::Incomplete(6));
    }
    if avail < 17 {
        return Err(ParseError::Incomplete(2));
    }
    if avail < 18 {
        return Err(ParseError::Incomplete(1));
    }
    let info = LEConnInfo {
        handle: u16_at(b, p + 1),
        role: b[p + 3],
        bdaddr_type: b[p + 4],
        bdaddr: BDAddr::from_array(array6_at(b, p + 5)),
        interval: u16_at(b, p + 11),
        latency: u16_at(b, p + 13),
        supervision_timeout: u16_at(b, p + 15),
        master_clock_accuracy: b[p + 17],
    };
    Ok((p + 18, info))
}

fn le_read_remote_used_features_complete_at(b: &[u8], p: usize) -> (r: Result<(usize, Message), ParseError>)
    requires
        p <= b@.len(),
    ensures
        parsed_as(r, spec_le_read_remote_used_features_complete(b@, p as int)),
{
    let avail: usize = b.len() - p;
    if avail < 1 {
        return Err(ParseError::Incomplete(1));
    }
    let status = match HCIStatus::from_u8(b[p]) {
        Some(s) => s,
        None => {
            return Err(ParseError::Error);
        },
    };
    if avail < 3 {
        return Err(ParseError::Incomplete(2));
    }
    if avail < 11 {
        return Err(ParseError::Incomplete(8));
    }
    let flags = LEFeatureFlags::from_bits_truncate(u64_at(b, p + 3));
    Ok((p + 11, Message::LEReadRemoteUsedFeaturesComplete { status, handle: u16_at(b, p + 1), flags }))
}

fn le_conn_update_complete_at(b: &[u8], p: usize) -> (r: Result<(usize, Message), ParseError>)
    requires
        p <= b@.len(),
    ensures
        parsed_as(r, spec_le_conn_update_complete(b@, p as int)),
{
    let avail: usize = b.len() - p;
    if avail < 1 {
        return Err(ParseError::Incomplete(1));
    }
    let status = match HCIStatus::from_u8(b[p]) {
        Some(s) => s,
        None => {
            return Err(ParseError::Error);
        },
    };
    if avail < 9 {
        return Err(ParseError::Incomplete(2));
    }
    let info = LEConnUpdateInfo {
        status,
        handle: u16_at(b, p + 1),
        interval: u16_at(b, p + 3),
        latency: u16_at(b, p + 5),
        supervision_timeout: u16_at(b, p + 7),
    };
    Ok((p + 9, Message::LEConnUpdate(info)))
}

fn le_meta_event_at(b: &[u8], p: usize) -> (r: Result<(usize, Message), ParseError>)
    requires
        p <= b@.len(),
        !spec_le_meta_event_panics(b@, p as int),
    ensures
        parsed_as(r, spec_le_meta_event(b@, p as int)),
{
    if b.len() - p < 1 {
        return Err(ParseError::Incomplete(1));
    }
    let code: u8 = b[p];
    if code == 2 {
        match le_advertising_info_at(b, p + 1) {
            Ok((n, info)) => Ok((n, Message::LEAdvertisingReport(info))),
            Err(e) => Err(e),
        }
    } else if code == 1 {
        match le_conn_complete_at(b, p + 1) {
            Ok((n, info)) => Ok((n, Message::LEConnComplete(info))),
            Err(e) => Err(e),
        }
    } else if code == 4 {
        le_read_remote_used_features_complete_at(b, p + 1)
    } else if code == 3 {
        le_conn_update_complete_at(b, p + 1)
    } else {
        Err(ParseError::Error)
    }
}

fn cmd_complete_at(b: &[u8], p: usize) -> (r: Result<(usize, Message), ParseError>)
    requires
        p <= b@.len(),
    ensures
        parsed_as(r, spec_cmd_complete(b@, p as int)),
{
    let avail: usize = b.len() - p;
    if avail < 1 {
        return Err(ParseError::Incomplete(1));
    }
    if avail < 3 {
        return Err(ParseError::Incomplete(2));
    }
    let cmd = match CommandType::from_u16(u16_at(b, p + 1)) {
        Some(c) => c,
        None => {
            return Err(ParseError::Error);
        },
    };
    if avail < 4 {
        return Err(ParseError::Incomplete(1));
    }
    let status: u8 = b[p + 3];
    let q: usize = p + 4;
    let rest: usize = avail - 4;
    let result = match cmd {
        CommandType::Reset => CommandComplete::Reset,
        CommandType::ReadLEHostSupported => {
            if rest < 2 {
                return Err(ParseError::Incomplete(1));
            }
            CommandComplete::ReadLEHostSupported { le: b[q], simul: b[q + 1] }
        },
        CommandType::ReadBDAddr => {
            if rest < 1 {
                return Err(ParseError::Incomplete(1));
            }
            let address_type = match AddressType::from_u8(b[q]) {
                Some(t) => t,
                None => {
                    return Err(ParseError::Error);
                },
            };
            if rest < 7 {
                return Err(ParseError::Incomplete(6));
            }
            CommandComplete::ReadBDAddr { address_type, address: BDAddr::from_array(array6_at(b, q + 1)) }
        },
        CommandType::LESetScanParameters => CommandComplete::LESetScanParameters,
        CommandType::LESetScanEnabled => CommandComplete::LESetScanEnabled { enabled: status == 1 },
        CommandType::ReadRSSI => {
            if rest < 2 {
                return Err(ParseError::Incomplete(2));
            }
            if rest < 3 {
                return Err(ParseError::Incomplete(1));
            }
            CommandComplete::ReadRSSI { handle: u16_at(b, q), rssi: b[q + 2] }
        },
        command => CommandComplete::Other { command, status, data: copy_range(b, q, b.len()) },
    };
    Ok((q, Message::HCICommandComplete(result)))
}

fn disconnect_complete_at(b: &[u8], p: usize) -> (r: Result<(usize, Message), ParseError>)
    requires
        p <= b@.len(),
    ensures
        parsed_as(r, spec_disconnect_complete(b@, p as int)),
{
    let avail: usize = b.len() - p;
    if avail < 1 {
        return Err(ParseError::Incomplete(1));
    }
    let status = match HCIStatus::from_u8(b[p]) {
        Some(s) => s,
        None => {
            return Err(ParseError::Error);
        },
    };
    if avail < 3 {
        return Err(ParseError::Incomplete(2));
    }
    if avail < 4 {
        return Err(ParseError::Incomplete(1));
    }
    let reason = match HCIStatus::from_u8(b[p + 3]) {
        Some(s) => s,
        None => {
            return Err(ParseError::Error);
        },
    };
    Ok((p + 4, Message::DisconnectComplete { status, handle: u16_at(b, p + 1), reason }))
}

fn cmd_status_at(b: &[u8], p: usize) -> (r: Result<(usize, Message), ParseError>)
    requires
        p <= b@.len(),
    ensures
        parsed_as(r, spec_cmd_status(b@, p as int)),
{
    let avail: usize = b.len() - p;
    if avail < 1 {
        return Err(ParseError::Incomplete(1));
    }
    let status = match HCIStatus::from_u8(b[p]) {
        Some(s) => s,
        None => {
            return Err(ParseError::Error);
        },
    };
    if avail < 2 {
        return Err(ParseError::Incomplete(1));
    }
    if avail < 4 {
        return Err(ParseError::Incomplete(2));
    }
    match CommandType::from_u16(u16_at(b, p + 2)) {
        Some(command) => Ok((p + 4, Message::CommandStatus { command, status })),
        None => Err(ParseError::Error),
    }
}

fn hci_event_pkt_at(b: &[u8], p: usize) -> (r: Result<(usize, Message), ParseError>)
    requires
        p <= b@.len(),
        !spec_hci_event_pkt_panics(b@, p as int),
    ensures
        parsed_as(r, spec_hci_event_pkt(b@, p as int)),
{
    let avail: usize = b.len() - p;
    if avail < 1 {
        return Err(ParseError::Incomplete(1));
    }
    let code: u8 = b[p];
    if !(code == 0x05 || code == 0x08 || code == 0x0e || code == 0x0f || code == 0x3e) {
        return Err(ParseError::Error);
    }
    if avail < 2 {
        return Err(ParseError::Incomplete(1));
    }
    let n: usize = b[p + 1] as usize;
    if avail - 2 < n {
        return Err(ParseError::Incomplete(n));
    }
    let d: &[u8] = sub_slice(b, p + 2, n);
    let body = if code == 0x3e {
        le_meta_event_at(d, 0)
    } else if code == 0x0e {
        cmd_complete_at(d, 0)
    } else if code == 0x0f {
        cmd_status_at(d, 0)
    } else if code == 0x05 {
        disconnect_complete_at(d, 0)
    } else {
        Err(ParseError::Error)
    };
    match body {
        Ok((_, m)) => Ok((p + 2 + n, m)),
        Err(e) => Err(e),
    }
}

fn hci_command_pkt_at(b: &[u8], p: usize) -> (r: Result<(usize, Message), ParseError>)
    requires
        p <= b@.len(),
    ensures
        parsed_as(r, spec_hci_command_pkt(b@, p as int)),
{
    let avail: usize = b.len() - p;
    if avail < 2 {
        return Err(ParseError::Incomplete(2));
    }
    let command = match CommandType::from_u16(u16_at(b, p)) {
        Some(c) => c,
        None => {
            return Err(ParseError::Error);
        },
    };
    if avail < 3 {
        return Err(ParseError::Incomplete(1));
    }
    let n: usize = b[p + 2] as usize;
    if avail - 3 < n {
        return Err(ParseError::Incomplete(n));
    }
    let end: usize = p + 3 + n;
    if command == CommandType::LESetScanEnabled {
        if n < 2 {
            return Err(ParseError::Incomplete(1));
        }
        Ok((end, Message::LEScanEnableCommand { enable: b[p + 3] == 1, filter_duplicates: b[p + 4] == 1 }))
    } else {
        Ok((end, Message::HCICommand { command, data: copy_range(b, p + 3, end) }))
    }
}

fn hci_acldata_pkt_at(b: &[u8], p: usize) -> (r: Result<(usize, Message), ParseError>)
    requires
        p <= b@.len(),
        !spec_hci_acldata_pkt_panics(b@, p as int),
    ensures
        parsed_as(r, spec_hci_acldata_pkt(b@, p as int)),
{
    let avail: usize = b.len() - p;
    if avail < 2 {
        return Err(ParseError::Incomplete(2));
    }
    let head: u16 = u16_at(b, p);
    let flags: u16 = head >> 12;
    let handle: u16 = head & 0x0FFF;
    assert(flags == head / 0x1000 && handle == head % 0x1000) by (bit_vector)
        requires
            flags == head >> 12,
            handle == head & 0x0FFF,
    ;
    if flags == ACL_START || flags == ACL_START_NO_FLUSH {
        if avail < 8 {
            return Err(ParseError::Incomplete(2));
        }
        let dlen: u16 = u16_at(b, p + 2);
        let plen: u16 = u16_at(b, p + 4);
        let cid: u16 = u16_at(b, p + 6);
        let take: usize = dlen as usize - 4;
        if avail - 8 < take {
            return Err(ParseError::Incomplete(take));
        }
        let data: Vec<u8> = copy_range(b, p + 8, p + 8 + take);
        Ok((p + 8 + take, Message::ACLDataPacket(ACLData { handle, cid, data, len: plen })))
    } else if flags == ACL_CONT {
        Ok((b.len(), Message::ACLDataContinuation { handle, data: copy_range(b, p + 2, b.len()) }))
    } else {
        Err(ParseError::Error)
    }
}

/// Reads a device address at the start of `i`.
pub fn bd_addr(i: &[u8]) -> (r: Result<(&[u8], BDAddr), ParseError>)
    ensures
        read_as(i@, r, spec_bd_addr(i@, 0)),
{
    if i.len() < 6 {
        return Err(ParseError::Incomplete(6));
    }
    let addr = BDAddr::from_array(array6_at(i, 0));
    let (_, rest) = i.split_at(6);
    Ok((rest, addr))
}

/// Reads an LE advertising report at the start of `i`.
pub fn le_advertising_info(i: &[u8]) -> (r: Result<(&[u8], LEAdvertisingInfo), ParseError>)
    requires
        !spec_le_advertising_info_panics(i@, 0),
    ensures
        read_as(i@, r, spec_le_advertising_info(i@, 0)),
{
    match le_advertising_info_at(i, 0) {
        Ok((n, info)) => {
            let (_, rest) = i.split_at(n);
            Ok((rest, info))
        },
        Err(e) => Err(e),
    }
}

/// Reads one packet from the start of `i`, as it comes from an HCI socket:
/// the message it holds and the input after it.
pub fn message(i: &[u8]) -> (r: Result<(&[u8], Message), ParseError>)
    requires
        !spec_message_panics(i@),
    ensures
        read_as(i@, r, spec_message(i@)),
{
    if i.len() < 1 {
        return Err(ParseError::Incomplete(1));
    }
    let typ: u8 = i[0];
    let res = if typ == 1 {
        hci_command_pkt_at(i, 1)
    } else if typ == 2 {
        hci_acldata_pkt_at(i, 1)
    } else if typ == 4 {
        hci_event_pkt_at(i, 1)
    } else {
        Err(ParseError::Error)
    };
    match res {
        Ok((n, m)) => {
            let (_, rest) = i.split_at(n);
            Ok((rest, m))
        },
        Err(e) => Err(e),
    }
}

/// The packet of the command with opcode `command` and parameters `data`:
/// the command packet type, the opcode least significant byte first, the
/// parameters' length (kept to its low eight bits) and the parameters.
pub fn hci_command(command: u16, data: &[u8]) -> (buf: Vec<u8>)
    ensures
        buf@ == seq![HCI_COMMAND_PKT, (command % 256) as u8, (command / 256) as u8, (data@.len() % 256) as u8]
            + data@,
{
    let mut buf: Vec<u8> = Vec::new();
    buf.push(HCI_COMMAND_PKT);
    buf.push((command % 256) as u8);
    buf.push((command / 256) as u8);
    buf.push((data.len() % 256) as u8);
    let ghost head = buf@;
    let mut k: usize = 0;
    while k < data.len()
        invariant
            k <= data@.len(),
            buf@ == head + data@.subrange(0, k as int),
        decreases data@.len() - k,
    {
        buf.push(data[k]);
        k = k + 1;
        assert(buf@ =~= head + data@.subrange(0, k as int));
    }
    assert(data@.subrange(0, data@.len() as int) =~= data@);
    buf
}

/// The low 17 bits of a little-endian 64-bit value: its first byte, its
/// second byte, and the lowest bit of its third byte.
proof fn lemma_low_17_bits(x: u64, b0: u8, b1: u8, b2: u8, b3: u8, b4: u8, b5: u8, b6: u8, b7: u8)
    requires
        x == b0 + 0x100 * b1 + 0x1_0000 * b2 + 0x100_0000 * b3 + 0x1_0000_0000 * b4 + 0x100_0000_0000 * b5
            + 0x1_0000_0000_0000 * b6 + 0x100_0000_0000_0000 * b7,
    ensures
        x & 0x1_FFFF == b0 + 0x100 * b1 + 0x1_0000 * (b2 % 2),
{
    assert(x & 0x1_FFFF == b0 + 0x100 * b1 + 0x1_0000 * (b2 % 2)) by (bit_vector)
        requires
            x == b0 + 0x100 * b1 + 0x1_0000 * b2 + 0x100_0000 * b3 + 0x1_0000_0000 * b4 + 0x100_0000_0000 * b5
                + 0x1_0000_0000_0000 * b6 + 0x100_0000_0000_0000 * b7,
    ;
}

/// An LE Read Remote Used Features Complete event (event code 0x3E,
/// subevent 4, twelve bytes of parameters) reads as its status, the
/// little-endian handle, and the defined features of the little-endian
/// 64-bit feature mask: bits 0 to 16, that is the first byte of the mask,
/// its second byte, and the lowest bit of its third byte.
pub proof fn law_remote_features_read_little_endian(b: Seq<u8>)
    requires
        b.len() >= 15,
        b[0] == 4,
        b[1] == 0x3e,
        b[2] == 12,
        b[3] == 4,
        spec_hci_status(b[4]) is Some,
    ensures
        spec_message(b) == Ok::<(int, SpecMessage), ParseError>(
            (
                15,
                SpecMessage::LEReadRemoteUsedFeaturesComplete {
                    status: spec_hci_status(b[4]).unwrap(),
                    handle: (b[5] + 256 * b[6]) as u16,
                    flags: (b[7] + 256 * b[8] + 65536 * (b[9] % 2)) as u64,
                },
            ),
        ),
{
    let d = b.subrange(3, 15);
    assert(d[0] == 4);
    assert(d[1] == b[4]);
    let x = le64(d, 4);
    assert(le16(d, 4) == d[4] + 256 * d[5]);
    assert(le16(d, 6) == d[6] + 256 * d[7]);
    assert(le16(d, 8) == d[8] + 256 * d[9]);
    assert(le16(d, 10) == d[10] + 256 * d[11]);
    assert(le32(d, 4) == le16(d, 4) + 0x1_0000 * le16(d, 6));
    assert(le32(d, 8) == le16(d, 8) + 0x1_0000 * le16(d, 10));
    assert(x == le32(d, 4) + 0x1_0000_0000 * le32(d, 8));
    lemma_low_17_bits(x, d[4], d[5], d[6], d[7], d[8], d[9], d[10], d[11]);
    assert(d[4] == b[7] && d[5] == b[8] && d[6] == b[9]);
    assert(le16(d, 2) == b[5] + 256 * b[6]);
}

} // verus!
