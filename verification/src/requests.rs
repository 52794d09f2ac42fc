//! Commands of the PN532 and the requests that carry them.

use vstd::prelude::*;

verus! {

/// Commands that the PN532 understands.
#[derive(Copy, Clone, Eq, PartialEq, Debug)]
pub enum Command {
    Diagnose,
    GetFirmwareVersion,
    GetGeneralStatus,
    ReadRegister,
    WriteRegister,
    ReadGPIO,
    WriteGPIO,
    SetSerialBaudRate,
    SetParameters,
    SAMConfiguration,
    PowerDown,
    RFConfiguration,
    RFRegulationTest,
    InJumpForDEP,
    InJumpForPSL,
    InListPassiveTarget,
    InATR,
    InPSL,
    InDataExchange,
    InCommunicateThru,
    InDeselect,
    InRelease,
    InSelect,
    InAutoPoll,
    TgInitAsTarget,
    TgSetGeneralBytes,
    TgGetData,
    TgSetData,
    TgSetMetaData,
    TgGetInitiatorCommand,
    TgResponseToInitiator,
    TgGetTargetStatus,
}

impl Command {
    /// The byte that stands for the command on the wire.
    pub open spec fn spec_code(self) -> u8 {
        match self {
            Command::Diagnose => 0x00,
            Command::GetFirmwareVersion => 0x02,
            Command::GetGeneralStatus => 0x04,
            Command::ReadRegister => 0x06,
            Command::WriteRegister => 0x08,
            Command::ReadGPIO => 0x0C,
            Command::WriteGPIO => 0x0E,
            Command::SetSerialBaudRate => 0x10,
            Command::SetParameters => 0x12,
            Command::SAMConfiguration => 0x14,
            Command::PowerDown => 0x16,
            Command::RFConfiguration => 0x32,
            Command::RFRegulationTest => 0x58,
            Command::InJumpForDEP => 0x56,
            Command::InJumpForPSL => 0x46,
            Command::InListPassiveTarget => 0x4A,
            Command::InATR => 0x50,
            Command::InPSL => 0x4E,
            Command::InDataExchange => 0x40,
            Command::InCommunicateThru => 0x42,
            Command::InDeselect => 0x44,
            Command::InRelease => 0x52,
            Command::InSelect => 0x54,
            Command::InAutoPoll => 0x60,
            Command::TgInitAsTarget => 0x8C,
            Command::TgSetGeneralBytes => 0x92,
            Command::TgGetData => 0x86,
            Command::TgSetData => 0x8E,
            Command::TgSetMetaData => 0x94,
            Command::TgGetInitiatorCommand => 0x88,
            Command::TgResponseToInitiator => 0x90,
            Command::TgGetTargetStatus => 0x8A,
        }
    }

    /// The byte that stands for the command on the wire.
    #[verifier::when_used_as_spec(spec_code)]
    pub fn code(self) -> (code: u8)
        ensures
            code == self.spec_code(),
    {
        match self {
            Command::Diagnose => 0x00,
            Command::GetFirmwareVersion => 0x02,
            Command::GetGeneralStatus => 0x04,
            Command::ReadRegister => 0x06,
            Command::WriteRegister => 0x08,
            Command::ReadGPIO => 0x0C,
            Command::WriteGPIO => 0x0E,
            Command::SetSerialBaudRate => 0x10,
            Command::SetParameters => 0x12,
            Command::SAMConfiguration => 0x14,
            Command::PowerDown => 0x16,
            Command::RFConfiguration => 0x32,
            Command::RFRegulationTest => 0x58,
            Command::InJumpForDEP => 0x56,
            Command::InJumpForPSL => 0x46,
            Command::InListPassiveTarget => 0x4A,
            Command::InATR => 0x50,
            Command::InPSL => 0x4E,
            Command::InDataExchange => 0x40,
            Command::InCommunicateThru => 0x42,
            Command::InDeselect => 0x44,
            Command::InRelease => 0x52,
            Command::InSelect => 0x54,
            Command::InAutoPoll => 0x60,
            Command::TgInitAsTarget => 0x8C,
            Command::TgSetGeneralBytes => 0x92,
            Command::TgGetData => 0x86,
            Command::TgSetData => 0x8E,
            Command::TgSetMetaData => 0x94,
            Command::TgGetInitiatorCommand => 0x88,
            Command::TgResponseToInitiator => 0x90,
            Command::TgGetTargetStatus => 0x8A,
        }
    }

    /// The byte that opens the chip's answer to the command.
    pub open spec fn response_code(self) -> u8 {
        (self.code() + 1) as u8
    }
}

/// Distinct commands have distinct codes, and no code is so large that the
/// response code, which is one more, would not fit in a byte.
pub proof fn law_codes_are_distinct(a: Command, b: Command)
    ensures
        a.response_code() == a.code() + 1,
        a.code() == b.code() ==> a == b,
        a.response_code() == b.response_code() ==> a == b,
{
}

/// Every command has the code under which the chip knows it.
pub proof fn law_codes()
    ensures
        Command::Diagnose.code() == 0x00,
        Command::GetFirmwareVersion.code() == 0x02,
        Command::GetGeneralStatus.code() == 0x04,
        Command::ReadRegister.code() == 0x06,
        Command::WriteRegister.code() == 0x08,
        Command::ReadGPIO.code() == 0x0C,
        Command::WriteGPIO.code() == 0x0E,
        Command::SetSerialBaudRate.code() == 0x10,
        Command::SetParameters.code() == 0x12,
        Command::SAMConfiguration.code() == 0x14,
        Command::PowerDown.code() == 0x16,
        Command::RFConfiguration.code() == 0x32,
        Command::RFRegulationTest.code() == 0x58,
        Command::InJumpForDEP.code() == 0x56,
        Command::InJumpForPSL.code() == 0x46,
        Command::InListPassiveTarget.code() == 0x4A,
        Command::InATR.code() == 0x50,
        Command::InPSL.code() == 0x4E,
        Command::InDataExchange.code() == 0x40,
        Command::InCommunicateThru.code() == 0x42,
        Command::InDeselect.code() == 0x44,
        Command::InRelease.code() == 0x52,
        Command::InSelect.code() == 0x54,
        Command::InAutoPoll.code() == 0x60,
        Command::TgInitAsTarget.code() == 0x8C,
        Command::TgSetGeneralBytes.code() == 0x92,
        Command::TgGetData.code() == 0x86,
        Command::TgSetData.code() == 0x8E,
        Command::TgSetMetaData.code() == 0x94,
        Command::TgGetInitiatorCommand.code() == 0x88,
        Command::TgResponseToInitiator.code() == 0x90,
        Command::TgGetTargetStatus.code() == 0x8A,
{
}

/// A command and the data that goes with it.
#[derive(Copy, Clone, Eq, PartialEq, Debug)]
pub struct Request<const M: usize> {
    pub command: Command,
    pub data: [u8; M],
}

/// A [`Request`] whose data is borrowed, so that its length is no longer part
/// of its type.
#[derive(Copy, Clone, Eq, PartialEq, Debug)]
pub struct BorrowedRequest<'a> {
    pub command: Command,
    pub data: &'a [u8],
}

impl<const M: usize> Request<M> {
    /// Create a request.
    pub fn new(command: Command, data: [u8; M]) -> (request: Self)
        ensures
            request.command == command,
            request.data == data,
    {
        Request { command, data }
    }

    /// Borrow the request.
    pub fn borrow(&self) -> (borrowed: BorrowedRequest<'_>)
        ensures
            borrowed.command == self.command,
            borrowed.data@ == self.data@,
    {
        BorrowedRequest { command: self.command, data: &self.data }
    }
}

} // verus!
