//! HCI status codes and command opcodes, and the numbers that stand for them.

use vstd::prelude::*;

verus! {

/// The status codes of HCI events.
#[derive(Debug, Clone, Copy, PartialEq, Eq, Structural)]
pub enum HCIStatus {
    ACLConnectionAlreadyExists,
    AuthenticationFialure,
    ChannelAssessmentNotSupported,
    CommandDisallowed,
    CoarseClockAdjustRejected,
    ConnectionAcceptanceTimeoutExceeded,
    ConnectionFailuedtoEstablish,
    ConnectionLimitExceeded,
    ConnectionRejectedDuetoLimitedResources,
    ConnectionRejectedNoSuitableChannelFound,
    ConnectionRejectedForSecurityReasons,
    ConnectionRejectedDuetoUnacceptableBDADDR,
    ConnectionTerminatedByLocalHost,
    ConnectionTerminatedDuetoMICFailure,
    ConnectionTimeout,
    ControllerBusy,
    DifferentTransactionCollision,
    DirectedAdvertisingTimeout,
    EncryptModeNotAcceptable,
    ExtendedInquiryResponseTooLarge,
    HostBusyPairing,
    HardwareFailure,
    InstantPassed,
    InsufficientSecurity,
    InvalidHCICommandParameters,
    InvalidLMPParamaters,
    LinkKeyCanNotBeChanged,
    LMPErrorTransactionCollision,
    LMPLLResponseTimeout,
    LMPDUNotAllowed,
    MACConnectionFailed,
    MemoryCapabilityExceeded,
    PageTimeout,
    PairingNotAllowed,
    PairingWithUnitKeyNotSupported,
    ParamaterOutOfMandatoryRange,
    PinKeyMissing,
    QOSReject,
    QOSUnacceptableParameter,
    RemoteDeviceTerminatedConnectionDueToLowResources,
    RemoteDeviceTerminatedConnectionDuetoPowerOff,
    RemoteUserTerminatedConnection,
    RepeatedAttempts,
    RequestQOSNotSupported,
    Reserved2B,
    Reserved31,
    Reserved33,
    ReservedSlotViolation,
    RoleChangeNotAllowed,
    RoleSwitchFailed,
    RoleSwitchPending,
    SCOAirModeRejected,
    SCOIntervalRejected,
    SCOOffsetRejected,
    SimplePairingNotSupportedByHost,
    SynchonousConnectionLimitExceeded,
    UnacceptableConnectionParameters,
    UnknownConnectionID,
    UnknownHCICommand,
    UnknownLMPPDU,
    UnspecifiedError,
    UnsupportedParamter,
    UnsupportedLMPParameterValue,
    UnsupportedRemoteFeature,
    Success,
}

/// The status that a status byte stands for.
pub open spec fn spec_hci_status(b: u8) -> Option<HCIStatus> {
    if b == 0x0B {
        Some(HCIStatus::ACLConnectionAlreadyExists)
    } else if b == 0x05 {
        Some(HCIStatus::AuthenticationFialure)
    } else if b == 0x2E {
        Some(HCIStatus::ChannelAssessmentNotSupported)
    } else if b == 0x0C {
        Some(HCIStatus::CommandDisallowed)
    } else if b == 0x40 {
        Some(HCIStatus::CoarseClockAdjustRejected)
    } else if b == 0x10 {
        Some(HCIStatus::ConnectionAcceptanceTimeoutExceeded)
    } else if b == 0x3E {
        Some(HCIStatus::ConnectionFailuedtoEstablish)
    } else if b == 0x09 {
        Some(HCIStatus::ConnectionLimitExceeded)
    } else if b == 0x0D {
        Some(HCIStatus::ConnectionRejectedDuetoLimitedResources)
    } else if b == 0x39 {
        Some(HCIStatus::ConnectionRejectedNoSuitableChannelFound)
    } else if b == 0x0E {
        Some(HCIStatus::ConnectionRejectedForSecurityReasons)
    } else if b == 0x0F {
        Some(HCIStatus::ConnectionRejectedDuetoUnacceptableBDADDR)
    } else if b == 0x16 {
        Some(HCIStatus::ConnectionTerminatedByLocalHost)
    } else if b == 0x3D {
        Some(HCIStatus::ConnectionTerminatedDuetoMICFailure)
    } else if b == 0x08 {
        Some(HCIStatus::ConnectionTimeout)
    } else if b == 0x3A {
        Some(HCIStatus::ControllerBusy)
    } else if b == 0x2A {
        Some(HCIStatus::DifferentTransactionCollision)
    } else if b == 0x3C {
        Some(HCIStatus::DirectedAdvertisingTimeout)
    } else if b == 0x25 {
        Some(HCIStatus::EncryptModeNotAcceptable)
    } else if b == 0x36 {
        Some(HCIStatus::ExtendedInquiryResponseTooLarge)
    } else if b == 0x38 {
        Some(HCIStatus::HostBusyPairing)
    } else if b == 0x03 {
        Some(HCIStatus::HardwareFailure)
    } else if b == 0x28 {
        Some(HCIStatus::InstantPassed)
    } else if b == 0x2F {
        Some(HCIStatus::InsufficientSecurity)
    } else if b == 0x12 {
        Some(HCIStatus::InvalidHCICommandParameters)
    } else if b == 0x1E {
        Some(HCIStatus::InvalidLMPParamaters)
    } else if b == 0x26 {
        Some(HCIStatus::LinkKeyCanNotBeChanged)
    } else if b == 0x23 {
        Some(HCIStatus::LMPErrorTransactionCollision)
    } else if b == 0x22 {
        Some(HCIStatus::LMPLLResponseTimeout)
    } else if b == 0x24 {
        Some(HCIStatus::LMPDUNotAllowed)
    } else if b == 0x3F {
        Some(HCIStatus::MACConnectionFailed)
    } else if b == 0x07 {
        Some(HCIStatus::MemoryCapabilityExceeded)
    } else if b == 0x04 {
        Some(HCIStatus::PageTimeout)
    } else if b == 0x18 {
        Some(HCIStatus::PairingNotAllowed)
    } else if b == 0x29 {
        Some(HCIStatus::PairingWithUnitKeyNotSupported)
    } else if b == 0x30 {
        Some(HCIStatus::ParamaterOutOfMandatoryRange)
    } else if b == 0x06 {
        Some(HCIStatus::PinKeyMissing)
    } else if b == 0x2D {
        Some(HCIStatus::QOSReject)
    } else if b == 0x2C {
        Some(HCIStatus::QOSUnacceptableParameter)
    } else if b == 0x14 {
        Some(HCIStatus::RemoteDeviceTerminatedConnectionDueToLowResources)
    } else if b == 0x15 {
        Some(HCIStatus::RemoteDeviceTerminatedConnectionDuetoPowerOff)
    } else if b == 0x13 {
        Some(HCIStatus::RemoteUserTerminatedConnection)
    } else if b == 0x17 {
        Some(HCIStatus::RepeatedAttempts)
    } else if b == 0x27 {
        Some(HCIStatus::RequestQOSNotSupported)
    } else if b == 0x2B {
        Some(HCIStatus::Reserved2B)
    } else if b == 0x31 {
        Some(HCIStatus::Reserved31)
    } else if b == 0x33 {
        Some(HCIStatus::Reserved33)
    } else if b == 0x34 {
        Some(HCIStatus::ReservedSlotViolation)
    } else if b == 0x21 {
        Some(HCIStatus::RoleChangeNotAllowed)
    } else if b == 0x35 {
        Some(HCIStatus::RoleSwitchFailed)
    } else if b == 0x32 {
        Some(HCIStatus::RoleSwitchPending)
    } else if b == 0x1D {
        Some(HCIStatus::SCOAirModeRejected)
    } else if b == 0x1C {
        Some(HCIStatus::SCOIntervalRejected)
    } else if b == 0x1B {
        Some(HCIStatus::SCOOffsetRejected)
    } else if b == 0x37 {
        Some(HCIStatus::SimplePairingNotSupportedByHost)
    } else if b == 0x0A {
        Some(HCIStatus::SynchonousConnectionLimitExceeded)
    } else if b == 0x3B {
        Some(HCIStatus::UnacceptableConnectionParameters)
    } else if b == 0x02 {
        Some(HCIStatus::UnknownConnectionID)
    } else if b == 0x01 {
        Some(HCIStatus::UnknownHCICommand)
    } else if b == 0x19 {
        Some(HCIStatus::UnknownLMPPDU)
    } else if b == 0x1F {
        Some(HCIStatus::UnspecifiedError)
    } else if b == 0x11 {
        Some(HCIStatus::UnsupportedParamter)
    } else if b == 0x20 {
        Some(HCIStatus::UnsupportedLMPParameterValue)
    } else if b == 0x1A {
        Some(HCIStatus::UnsupportedRemoteFeature)
    } else if b == 0x00 {
        Some(HCIStatus::Success)
    } else {
        None
    }
}

impl HCIStatus {
    /// The status that a status byte stands for, if any.
    pub fn from_u8(b: u8) -> (res: Option<HCIStatus>)
        ensures
            res == spec_hci_status(b),
    {
        match b {
            0x0B => Some(HCIStatus::ACLConnectionAlreadyExists),
            0x05 => Some(HCIStatus::AuthenticationFialure),
            0x2E => Some(HCIStatus::ChannelAssessmentNotSupported),
            0x0C => Some(HCIStatus::CommandDisallowed),
            0x40 => Some(HCIStatus::CoarseClockAdjustRejected),
            0x10 => Some(HCIStatus::ConnectionAcceptanceTimeoutExceeded),
            0x3E => Some(HCIStatus::ConnectionFailuedtoEstablish),
            0x09 => Some(HCIStatus::ConnectionLimitExceeded),
            0x0D => Some(HCIStatus::ConnectionRejectedDuetoLimitedResources),
            0x39 => Some(HCIStatus::ConnectionRejectedNoSuitableChannelFound),
            0x0E => Some(HCIStatus::ConnectionRejectedForSecurityReasons),
            0x0F => Some(HCIStatus::ConnectionRejectedDuetoUnacceptableBDADDR),
            0x16 => Some(HCIStatus::ConnectionTerminatedByLocalHost),
            0x3D => Some(HCIStatus::ConnectionTerminatedDuetoMICFailure),
            0x08 => Some(HCIStatus::ConnectionTimeout),
            0x3A => Some(HCIStatus::ControllerBusy),
            0x2A => Some(HCIStatus::DifferentTransactionCollision),
            0x3C => Some(HCIStatus::DirectedAdvertisingTimeout),
            0x25 => Some(HCIStatus::EncryptModeNotAcceptable),
            0x36 => Some(HCIStatus::ExtendedInquiryResponseTooLarge),
            0x38 => Some(HCIStatus::HostBusyPairing),
            0x03 => Some(HCIStatus::HardwareFailure),
            0x28 => Some(HCIStatus::InstantPassed),
            0x2F => Some(HCIStatus::InsufficientSecurity),
            0x12 => Some(HCIStatus::InvalidHCICommandParameters),
            0x1E => Some(HCIStatus::InvalidLMPParamaters),
            0x26 => Some(HCIStatus::LinkKeyCanNotBeChanged),
            0x23 => Some(HCIStatus::LMPErrorTransactionCollision),
            0x22 => Some(HCIStatus::LMPLLResponseTimeout),
            0x24 => Some(HCIStatus::LMPDUNotAllowed),
            0x3F => Some(HCIStatus::MACConnectionFailed),
            0x07 => Some(HCIStatus::MemoryCapabilityExceeded),
            0x04 => Some(HCIStatus::PageTimeout),
            0x18 => Some(HCIStatus::PairingNotAllowed),
            0x29 => Some(HCIStatus::PairingWithUnitKeyNotSupported),
            0x30 => Some(HCIStatus::ParamaterOutOfMandatoryRange),
            0x06 => Some(HCIStatus::PinKeyMissing),
            0x2D => Some(HCIStatus::QOSReject),
            0x2C => Some(HCIStatus::QOSUnacceptableParameter),
            0x14 => Some(HCIStatus::RemoteDeviceTerminatedConnectionDueToLowResources),
            0x15 => Some(HCIStatus::RemoteDeviceTerminatedConnectionDuetoPowerOff),
            0x13 => Some(HCIStatus::RemoteUserTerminatedConnection),
            0x17 => Some(HCIStatus::RepeatedAttempts),
            0x27 => Some(HCIStatus::RequestQOSNotSupported),
            0x2B => Some(HCIStatus::Reserved2B),
            0x31 => Some(HCIStatus::Reserved31),
            0x33 => Some(HCIStatus::Reserved33),
            0x34 => Some(HCIStatus::ReservedSlotViolation),
            0x21 => Some(HCIStatus::RoleChangeNotAllowed),
            0x35 => Some(HCIStatus::RoleSwitchFailed),
            0x32 => Some(HCIStatus::RoleSwitchPending),
            0x1D => Some(HCIStatus::SCOAirModeRejected),
            0x1C => Some(HCIStatus::SCOIntervalRejected),
            0x1B => Some(HCIStatus::SCOOffsetRejected),
            0x37 => Some(HCIStatus::SimplePairingNotSupportedByHost),
            0x0A => Some(HCIStatus::SynchonousConnectionLimitExceeded),
            0x3B => Some(HCIStatus::UnacceptableConnectionParameters),
            0x02 => Some(HCIStatus::UnknownConnectionID),
            0x01 => Some(HCIStatus::UnknownHCICommand),
            0x19 => Some(HCIStatus::UnknownLMPPDU),
            0x1F => Some(HCIStatus::UnspecifiedError),
            0x11 => Some(HCIStatus::UnsupportedParamter),
            0x20 => Some(HCIStatus::UnsupportedLMPParameterValue),
            0x1A => Some(HCIStatus::UnsupportedRemoteFeature),
            0x00 => Some(HCIStatus::Success),
            _ => None,
        }
    }
}

/// The opcodes of the HCI commands this library sends or recognizes: the
/// command group in the top six bits and the command in the low ten.
#[derive(Debug, Clone, Copy, PartialEq, Eq, Structural)]
pub enum CommandType {
    Reset,
    ReadLEHostSupported,
    WriteLEHostSupported,
    ReadLocalVersion,
    ReadBDAddr,
    ReadRSSI,
    ChangeLocalName,
    WriteExtendedInquiryResponse,
    LESetEventMask,
    LESetScanParameters,
    LESetScanEnabled,
    LECreateConnection,
    LEConnectionUpdate,
    LEStartEncryption,
    LESetAdvertisingData,
    LESetScanResponseData,
    LEAddDeviceToWhiteList,
    LERemoveDeviceFromWhiteList,
    LEReadRemoteUsedFeatures,
    Disconnect,
}

/// The command that an opcode stands for.
pub open spec fn spec_command_type(v: u16) -> Option<CommandType> {
    if v == 0x0C03 {
        Some(CommandType::Reset)
    } else if v == 0x0C6C {
        Some(CommandType::ReadLEHostSupported)
    } else if v == 0x0C6D {
        Some(CommandType::WriteLEHostSupported)
    } else if v == 0x1001 {
        Some(CommandType::ReadLocalVersion)
    } else if v == 0x1009 {
        Some(CommandType::ReadBDAddr)
    } else if v == 0x1405 {
        Some(CommandType::ReadRSSI)
    } else if v == 0x0C13 {
        Some(CommandType::ChangeLocalName)
    } else if v == 0x0C52 {
        Some(CommandType::WriteExtendedInquiryResponse)
    } else if v == 0x2001 {
        Some(CommandType::LESetEventMask)
    } else if v == 0x200B {
        Some(CommandType::LESetScanParameters)
    } else if v == 0x200C {
        Some(CommandType::LESetScanEnabled)
    } else if v == 0x200D {
        Some(CommandType::LECreateConnection)
    } else if v == 0x2013 {
        Some(CommandType::LEConnectionUpdate)
    } else if v == 0x2019 {
        Some(CommandType::LEStartEncryption)
    } else if v == 0x2008 {
        Some(CommandType::LESetAdvertisingData)
    } else if v == 0x2009 {
        Some(CommandType::LESetScanResponseData)
    } else if v == 0x2011 {
        Some(CommandType::LEAddDeviceToWhiteList)
    } else if v == 0x2012 {
        Some(CommandType::LERemoveDeviceFromWhiteList)
    } else if v == 0x2016 {
        Some(CommandType::LEReadRemoteUsedFeatures)
    } else if v == 0x0406 {
        Some(CommandType::Disconnect)
    } else {
        None
    }
}

/// The opcode of a command.
pub open spec fn spec_command_opcode(c: CommandType) -> u16 {
    match c {
        CommandType::Reset => 0x0C03,
        CommandType::ReadLEHostSupported => 0x0C6C,
        CommandType::WriteLEHostSupported => 0x0C6D,
        CommandType::ReadLocalVersion => 0x1001,
        CommandType::ReadBDAddr => 0x1009,
        CommandType::ReadRSSI => 0x1405,
        CommandType::ChangeLocalName => 0x0C13,
        CommandType::WriteExtendedInquiryResponse => 0x0C52,
        CommandType::LESetEventMask => 0x2001,
        CommandType::LESetScanParameters => 0x200B,
        CommandType::LESetScanEnabled => 0x200C,
        CommandType::LECreateConnection => 0x200D,
        CommandType::LEConnectionUpdate => 0x2013,
        CommandType::LEStartEncryption => 0x2019,
        CommandType::LESetAdvertisingData => 0x2008,
        CommandType::LESetScanResponseData => 0x2009,
        CommandType::LEAddDeviceToWhiteList => 0x2011,
        CommandType::LERemoveDeviceFromWhiteList => 0x2012,
        CommandType::LEReadRemoteUsedFeatures => 0x2016,
        CommandType::Disconnect => 0x0406,
    }
}

impl CommandType {
    /// The command that an opcode stands for, if any.
    pub fn from_u16(v: u16) -> (res: Option<CommandType>)
        ensures
            res == spec_command_type(v),
    {
        match v {
            0x0C03 => Some(CommandType::Reset),
            0x0C6C => Some(CommandType::ReadLEHostSupported),
            0x0C6D => Some(CommandType::WriteLEHostSupported),
            0x1001 => Some(CommandType::ReadLocalVersion),
            0x1009 => Some(CommandType::ReadBDAddr),
            0x1405 => Some(CommandType::ReadRSSI),
            0x0C13 => Some(CommandType::ChangeLocalName),
            0x0C52 => Some(CommandType::WriteExtendedInquiryResponse),
            0x2001 => Some(CommandType::LESetEventMask),
            0x200B => Some(CommandType::LESetScanParameters),
            0x200C => Some(CommandType::LESetScanEnabled),
            0x200D => Some(CommandType::LECreateConnection),
            0x2013 => Some(CommandType::LEConnectionUpdate),
            0x2019 => Some(CommandType::LEStartEncryption),
            0x2008 => Some(CommandType::LESetAdvertisingData),
            0x2009 => Some(CommandType::LESetScanResponseData),
            0x2011 => Some(CommandType::LEAddDeviceToWhiteList),
            0x2012 => Some(CommandType::LERemoveDeviceFromWhiteList),
            0x2016 => Some(CommandType::LEReadRemoteUsedFeatures),
            0x0406 => Some(CommandType::Disconnect),
            _ => None,
        }
    }

    /// The opcode of this command.
    pub fn opcode(&self) -> (v: u16)
        ensures
            v == spec_command_opcode(*self),
    {
        match self {
            CommandType::Reset => 0x0C03,
            CommandType::ReadLEHostSupported => 0x0C6C,
            CommandType::WriteLEHostSupported => 0x0C6D,
            CommandType::ReadLocalVersion => 0x1001,
            CommandType::ReadBDAddr => 0x1009,
            CommandType::ReadRSSI => 0x1405,
            CommandType::ChangeLocalName => 0x0C13,
            CommandType::WriteExtendedInquiryResponse => 0x0C52,
            CommandType::LESetEventMask => 0x2001,
            CommandType::LESetScanParameters => 0x200B,
            CommandType::LESetScanEnabled => 0x200C,
            CommandType::LECreateConnection => 0x200D,
            CommandType::LEConnectionUpdate => 0x2013,
            CommandType::LEStartEncryption => 0x2019,
            CommandType::LESetAdvertisingData => 0x2008,
            CommandType::LESetScanResponseData => 0x2009,
            CommandType::LEAddDeviceToWhiteList => 0x2011,
            CommandType::LERemoveDeviceFromWhiteList => 0x2012,
            CommandType::LEReadRemoteUsedFeatures => 0x2016,
            CommandType::Disconnect => 0x0406,
        }
    }
}

/// A command's opcode stands for that command.
pub proof fn lemma_command_opcode_round_trip(c: CommandType)
    ensures
        spec_command_type(spec_command_opcode(c)) == Some(c),
{
}

} // verus!
