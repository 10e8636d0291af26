//! Pure CCID class-descriptor and bulk-message codecs.

use vstd::prelude::*;

use crate::bytes::{append_bytes, copy_range};
use crate::error::{kind_description, Error, ErrorKind, Result};
use crate::text::{hex_byte, push_hex_byte};

verus! {

pub const PC_TO_RDR_ICC_POWER_ON: u8 = 0x62;
pub const PC_TO_RDR_ICC_POWER_OFF: u8 = 0x63;
pub const PC_TO_RDR_GET_PARAMETERS: u8 = 0x6C;
pub const PC_TO_RDR_XFR_BLOCK: u8 = 0x6F;
pub const RDR_TO_PC_DATA_BLOCK: u8 = 0x80;
pub const RDR_TO_PC_SLOT_STATUS: u8 = 0x81;
pub const RDR_TO_PC_PARAMETERS: u8 = 0x82;

/// Length of every CCID bulk-message header.
pub const HEADER_LENGTH: usize = 10;

/// Length of the CCID class descriptor.
pub const CLASS_DESCRIPTOR_LENGTH: usize = 54;

/// The little-endian 32-bit value stored at `offset`.
pub open spec fn le32(b: Seq<u8>, offset: int) -> int {
    b[offset] + b[offset + 1] * 256 + b[offset + 2] * 65536 + b[offset + 3] * 16777216
}

/// The four little-endian bytes of a 32-bit value.
pub open spec fn le32_bytes(value: nat) -> Seq<u8> {
    seq![
        (value % 256) as u8,
        (value / 256 % 256) as u8,
        (value / 65536 % 256) as u8,
        (value / 16777216 % 256) as u8,
    ]
}

/// The unit a reader's transfer command accepts, as its descriptor declares.
#[derive(Clone, Copy, Debug, PartialEq, Eq, Structural)]
pub enum DescriptorExchange {
    Character,
    Tpdu,
    ShortApdu,
    ExtendedApdu,
}

/// The facts the rest of the stack needs from a CCID class descriptor.
#[derive(Clone, Copy, Debug, PartialEq, Eq, Structural)]
pub struct DescriptorFacts {
    pub slots: u8,
    pub maximum_message_length: u32,
    pub exchange: DescriptorExchange,
    pub supports_t0: bool,
    pub supports_t1: bool,
}

/// The exchange level the feature bits select.
pub open spec fn exchange_of_features(features: u32) -> DescriptorExchange {
    if features & 0x0007_0000 == 0x0001_0000 {
        DescriptorExchange::Tpdu
    } else if features & 0x0007_0000 == 0x0002_0000 {
        DescriptorExchange::ShortApdu
    } else if features & 0x0007_0000 == 0x0004_0000 {
        DescriptorExchange::ExtendedApdu
    } else {
        DescriptorExchange::Character
    }
}

/// The facts a valid class descriptor declares, if it is valid.
pub open spec fn parse_descriptor(b: Seq<u8>) -> Option<DescriptorFacts> {
    if b.len() != 54 || b[0] != 54 || b[1] != 0x21 || b[4] == 255 || le32(b, 44) < 10 {
        None
    } else {
        let protocols = le32(b, 6) as u32;
        Some(
            DescriptorFacts {
                slots: (b[4] + 1) as u8,
                maximum_message_length: le32(b, 44) as u32,
                exchange: exchange_of_features(le32(b, 40) as u32),
                supports_t0: protocols & 0x01 == 0x01,
                supports_t1: protocols & 0x02 == 0x02,
            },
        )
    }
}

/// A class descriptor is read field by field: it is accepted exactly when it is 54 bytes of
/// type 0x21 whose maximum slot index is below 255 and whose maximum message length holds a
/// header, and then the reader has one slot more than its maximum slot index and the
/// little-endian message length of bytes 44 to 47.
pub proof fn descriptor_facts_follow_its_fields(b: Seq<u8>)
    ensures
        parse_descriptor(b) is Some <==> (b.len() == 54 && b[0] == 54 && b[1] == 0x21 && b[4]
            != 255 && b[44] + 256 * b[45] + 65536 * b[46] + 16777216 * b[47] >= 10),
        parse_descriptor(b) matches Some(facts) ==> facts.slots == b[4] + 1
            && facts.maximum_message_length == b[44] + 256 * b[45] + 65536 * b[46] + 16777216
            * b[47] && facts.supports_t0 == (b[6] & 1 == 1) && facts.supports_t1 == (b[6] & 2
            == 2),
{
    if b.len() == 54 {
        let low = b[6];
        let x = le32(b, 6) as u32;
        let high: u32 = (b[7] + b[8] * 256 + b[9] * 65536) as u32;
        assert(x == low as u32 + 256 * high);
        assert(high < 0x100_0000);
        assert(x & 1 == (low as u32) & 1 && x & 2 == (low as u32) & 2) by (bit_vector)
            requires
                x == low as u32 + 256 * high,
                high < 0x100_0000,
        ;
        assert(((low as u32) & 1 == 1) == (low & 1 == 1) && ((low as u32) & 2 == 2) == (low & 2
            == 2)) by (bit_vector);
    }
}

/// What the refusal of a class descriptor says.
pub open spec fn descriptor_error(b: Seq<u8>) -> Seq<char> {
    if b.len() != 54 || b[0] != 54 || b[1] != 0x21 {
        "malformed CCID class descriptor"@
    } else if b[4] == 255 {
        "CCID descriptor declares more slots than the API can address"@
    } else {
        "CCID maximum message length is smaller than its header"@
    }
}

fn protocol_error(message: &str) -> (error: Error)
    ensures
        error.category() == ErrorKind::Protocol,
        error.text() == message@,
{
    Error::new(ErrorKind::Protocol, message)
}

fn little_u32(bytes: &[u8], offset: usize) -> (value: u32)
    requires
        offset + 4 <= bytes@.len(),
    ensures
        value == le32(bytes@, offset as int),
{
    bytes[offset] as u32 + bytes[offset + 1] as u32 * 256 + bytes[offset + 2] as u32 * 65536
        + bytes[offset + 3] as u32 * 16777216
}

/// Parse the CCID class descriptor into portable facts.
pub fn parse_class_descriptor(bytes: &[u8]) -> (result: Result<DescriptorFacts>)
    ensures
        match result {
            Ok(facts) => parse_descriptor(bytes@) == Some(facts),
            Err(error) => parse_descriptor(bytes@) is None && error.category()
                == ErrorKind::Protocol && error.text() == descriptor_error(bytes@),
        },
{
    if bytes.len() != CLASS_DESCRIPTOR_LENGTH || bytes[0] != 54 || bytes[1] != 0x21 {
        return Err(protocol_error("malformed CCID class descriptor"));
    }
    let max_slot_index = bytes[4];
    if max_slot_index == 255 {
        return Err(
            protocol_error("CCID descriptor declares more slots than the API can address"),
        );
    }
    let protocols = little_u32(bytes, 6);
    let features = little_u32(bytes, 40);
    let maximum_message_length = little_u32(bytes, 44);
    if maximum_message_length < 10 {
        return Err(protocol_error("CCID maximum message length is smaller than its header"));
    }
    let selected = features & 0x0007_0000;
    let exchange = if selected == 0x0001_0000 {
        DescriptorExchange::Tpdu
    } else if selected == 0x0002_0000 {
        DescriptorExchange::ShortApdu
    } else if selected == 0x0004_0000 {
        DescriptorExchange::ExtendedApdu
    } else {
        DescriptorExchange::Character
    };
    Ok(
        DescriptorFacts {
            slots: max_slot_index + 1,
            maximum_message_length,
            exchange,
            supports_t0: protocols & 0x01 == 0x01,
            supports_t1: protocols & 0x02 == 0x02,
        },
    )
}

/// A host-to-reader bulk message: type, payload length, slot, sequence, three zero
/// parameter bytes, then the payload.
pub open spec fn host_message(message_type: u8, slot: u8, sequence: u8, payload: Seq<u8>) -> Seq<
    u8,
> {
    seq![message_type] + le32_bytes(payload.len()) + seq![slot, sequence, 0u8, 0u8, 0u8] + payload
}

fn push_le32(target: &mut Vec<u8>, value: u32)
    ensures
        final(target)@ == old(target)@ + le32_bytes(value as nat),
{
    target.push((value % 256) as u8);
    target.push((value / 256 % 256) as u8);
    target.push((value / 65536 % 256) as u8);
    target.push((value / 16777216 % 256) as u8);
    assert(final(target)@ =~= old(target)@ + le32_bytes(value as nat));
}

fn build_host_message(message_type: u8, slot: u8, sequence: u8, payload: &[u8]) -> (message: Vec<
    u8,
>)
    requires
        payload@.len() <= u32::MAX,
    ensures
        message@ == host_message(message_type, slot, sequence, payload@),
{
    let mut message: Vec<u8> = Vec::new();
    message.push(message_type);
    push_le32(&mut message, payload.len() as u32);
    message.push(slot);
    message.push(sequence);
    message.push(0);
    message.push(0);
    message.push(0);
    append_bytes(&mut message, payload);
    assert(message@ =~= host_message(message_type, slot, sequence, payload@));
    message
}

/// `PC_to_RDR_IccPowerOn` for one slot.
pub fn power_on(slot: u8, sequence: u8) -> (message: Vec<u8>)
    ensures
        message@ == host_message(PC_TO_RDR_ICC_POWER_ON, slot, sequence, Seq::empty()),
{
    build_host_message(PC_TO_RDR_ICC_POWER_ON, slot, sequence, &[])
}

/// `PC_to_RDR_IccPowerOff` for one slot.
pub fn power_off(slot: u8, sequence: u8) -> (message: Vec<u8>)
    ensures
        message@ == host_message(PC_TO_RDR_ICC_POWER_OFF, slot, sequence, Seq::empty()),
{
    build_host_message(PC_TO_RDR_ICC_POWER_OFF, slot, sequence, &[])
}

/// `PC_to_RDR_GetParameters` for one slot.
pub fn get_parameters(slot: u8, sequence: u8) -> (message: Vec<u8>)
    ensures
        message@ == host_message(PC_TO_RDR_GET_PARAMETERS, slot, sequence, Seq::empty()),
{
    build_host_message(PC_TO_RDR_GET_PARAMETERS, slot, sequence, &[])
}

/// `PC_to_RDR_XfrBlock` carrying `payload`, refused when the payload overflows the 32-bit
/// length field.
pub fn transfer_block(slot: u8, sequence: u8, payload: &[u8]) -> (result: Result<Vec<u8>>)
    ensures
        match result {
            Ok(message) => payload@.len() <= u32::MAX && message@ == host_message(
                PC_TO_RDR_XFR_BLOCK,
                slot,
                sequence,
                payload@,
            ),
            Err(error) => payload@.len() > u32::MAX && error.category()
                == ErrorKind::InvalidInput,
        },
{
    if payload.len() as u64 > 0xFFFF_FFFFu64 {
        return Err(
            Error::new(ErrorKind::InvalidInput, "CCID payload exceeds its 32-bit length field"),
        );
    }
    Ok(build_host_message(PC_TO_RDR_XFR_BLOCK, slot, sequence, payload))
}

/// Whether a card is present and powered, per the reader.
#[derive(Clone, Copy, Debug, PartialEq, Eq, Structural)]
pub enum IccStatus {
    Active,
    Inactive,
    Absent,
}

/// How the reader finished the command.
#[derive(Clone, Copy, Debug, PartialEq, Eq, Structural)]
pub enum CommandStatus {
    Complete,
    Failed,
    TimeExtension,
}

/// The content of a reader-to-host bulk message.
pub struct DeviceMessageView {
    pub message_type: u8,
    pub slot: u8,
    pub sequence: u8,
    pub icc_status: IccStatus,
    pub command_status: CommandStatus,
    pub error: u8,
    pub specific: u8,
    pub payload: Seq<u8>,
}

/// The ICC status in the low bits of `bStatus`, if not reserved.
pub open spec fn icc_status_of(status: u8) -> Option<IccStatus> {
    if status & 0x03 == 0 {
        Some(IccStatus::Active)
    } else if status & 0x03 == 1 {
        Some(IccStatus::Inactive)
    } else if status & 0x03 == 2 {
        Some(IccStatus::Absent)
    } else {
        None
    }
}

/// The command status in the high bits of `bStatus`, if not reserved.
pub open spec fn command_status_of(status: u8) -> Option<CommandStatus> {
    if status & 0xC0 == 0x00 {
        Some(CommandStatus::Complete)
    } else if status & 0xC0 == 0x40 {
        Some(CommandStatus::Failed)
    } else if status & 0xC0 == 0x80 {
        Some(CommandStatus::TimeExtension)
    } else {
        None
    }
}

/// The message a complete bulk-in transfer holds, if its length field matches the transfer
/// and its status bits are not reserved.
pub open spec fn decode_device_message(b: Seq<u8>) -> Option<DeviceMessageView> {
    if b.len() < 10 || b.len() != 10 + le32(b, 1) {
        None
    } else {
        match (icc_status_of(b[7]), command_status_of(b[7])) {
            (Some(icc_status), Some(command_status)) => Some(
                DeviceMessageView {
                    message_type: b[0],
                    slot: b[5],
                    sequence: b[6],
                    icc_status,
                    command_status,
                    error: b[8],
                    specific: b[9],
                    payload: b.subrange(10, b.len() as int),
                },
            ),
            _ => None,
        }
    }
}

/// What the refusal of a bulk-in transfer says: the first of the header, the length field,
/// the ICC status and the command status that is wrong.
pub open spec fn device_message_error(b: Seq<u8>) -> Seq<char> {
    if b.len() < 10 {
        "CCID response header is truncated"@
    } else if b.len() != 10 + le32(b, 1) {
        "CCID response length field does not match transfer"@
    } else if icc_status_of(b[7]) is None {
        "CCID response has a reserved ICC status"@
    } else {
        "CCID response has a reserved command status"@
    }
}

/// The `bStatus` byte that encodes a pair of statuses.
pub open spec fn status_byte(icc: IccStatus, command: CommandStatus) -> u8 {
    ((match icc {
        IccStatus::Active => 0int,
        IccStatus::Inactive => 1int,
        IccStatus::Absent => 2int,
    }) + (match command {
        CommandStatus::Complete => 0int,
        CommandStatus::Failed => 0x40int,
        CommandStatus::TimeExtension => 0x80int,
    })) as u8
}

/// The bulk-in transfer a reader sends for a message.
pub open spec fn encode_device_message(m: DeviceMessageView) -> Seq<u8> {
    seq![m.message_type] + le32_bytes(m.payload.len()) + seq![
        m.slot,
        m.sequence,
        status_byte(m.icc_status, m.command_status),
        m.error,
        m.specific,
    ] + m.payload
}

/// What a validated reply means for the exchange waiting on it: `None` when the reply is
/// usable, or the category of the failure it reports.
pub open spec fn validation_failure(
    m: DeviceMessageView,
    expected_type: u8,
    slot: u8,
    sequence: u8,
) -> Option<ErrorKind> {
    if m.message_type != expected_type {
        Some(ErrorKind::Protocol)
    } else if m.slot != slot || m.sequence != sequence {
        Some(ErrorKind::Protocol)
    } else if m.icc_status == IccStatus::Absent {
        Some(ErrorKind::CardGone)
    } else if m.command_status == CommandStatus::Failed {
        Some(ErrorKind::Protocol)
    } else {
        None
    }
}

/// What the refusal of a reply says, for a reply that `validation_failure` refuses.
pub open spec fn validation_message(
    m: DeviceMessageView,
    expected_type: u8,
    slot: u8,
    sequence: u8,
) -> Seq<char> {
    if m.message_type != expected_type {
        "reader returned the wrong CCID message type"@
    } else if m.slot != slot || m.sequence != sequence {
        "reader returned a stale CCID slot or sequence"@
    } else if m.icc_status == IccStatus::Absent {
        kind_description(ErrorKind::CardGone)
    } else {
        "CCID command failed with reader error 0x"@ + hex_byte(m.error)
    }
}

/// Negotiated transport parameters of the active card protocol.
#[derive(Clone, Copy, Debug, PartialEq, Eq, Structural)]
pub enum TransportParameters {
    T0,
    T1 { ifsc: u8, uses_crc: bool },
}

/// The parameters an `RDR_to_PC_Parameters` reply carries, or the category of its defect.
pub open spec fn parameters_of(specific: u8, payload: Seq<u8>) -> std::result::Result<
    TransportParameters,
    ErrorKind,
> {
    if specific == 0 && payload.len() == 5 {
        Ok(TransportParameters::T0)
    } else if specific == 1 && payload.len() == 7 && payload[5] != 0 && payload[6] == 0 {
        Ok(TransportParameters::T1 { ifsc: payload[5], uses_crc: payload[1] & 0x01 != 0 })
    } else if specific == 0 || specific == 1 {
        Err(ErrorKind::Protocol)
    } else {
        Err(ErrorKind::NotSupported)
    }
}

/// A decoded reader-to-host bulk message.
#[derive(Clone, Debug, PartialEq, Eq)]
pub struct DeviceMessage {
    pub message_type: u8,
    pub slot: u8,
    pub sequence: u8,
    pub icc_status: IccStatus,
    pub command_status: CommandStatus,
    pub error: u8,
    pub specific: u8,
    pub payload: Vec<u8>,
}

impl View for DeviceMessage {
    type V = DeviceMessageView;

    open spec fn view(&self) -> DeviceMessageView {
        DeviceMessageView {
            message_type: self.message_type,
            slot: self.slot,
            sequence: self.sequence,
            icc_status: self.icc_status,
            command_status: self.command_status,
            error: self.error,
            specific: self.specific,
            payload: self.payload@,
        }
    }
}

impl DeviceMessage {
    /// Decode one complete bulk-in transfer.
    pub fn decode(bytes: &[u8]) -> (result: Result<Self>)
        ensures
            match result {
                Ok(message) => decode_device_message(bytes@) == Some(message@),
                Err(error) => decode_device_message(bytes@) is None && error.category()
                    == ErrorKind::Protocol && error.text() == device_message_error(bytes@),
            },
    {
        if bytes.len() < HEADER_LENGTH {
            return Err(protocol_error("CCID response header is truncated"));
        }
        let payload_length = little_u32(bytes, 1) as u64;
        if bytes.len() as u64 != 10 + payload_length {
            return Err(protocol_error("CCID response length field does not match transfer"));
        }
        let status = bytes[7];
        let icc_status = if status & 0x03 == 0 {
            IccStatus::Active
        } else if status & 0x03 == 1 {
            IccStatus::Inactive
        } else if status & 0x03 == 2 {
            IccStatus::Absent
        } else {
            return Err(protocol_error("CCID response has a reserved ICC status"));
        };
        let command_status = if status & 0xC0 == 0x00 {
            CommandStatus::Complete
        } else if status & 0xC0 == 0x40 {
            CommandStatus::Failed
        } else if status & 0xC0 == 0x80 {
            CommandStatus::TimeExtension
        } else {
            return Err(protocol_error("CCID response has a reserved command status"));
        };
        Ok(
            DeviceMessage {
                message_type: bytes[0],
                slot: bytes[5],
                sequence: bytes[6],
                icc_status,
                command_status,
                error: bytes[8],
                specific: bytes[9],
                payload: copy_range(bytes, HEADER_LENGTH, bytes.len()),
            },
        )
    }

    /// Check that this reply answers the given request and reports no failure.
    pub fn validate_for(&self, expected_type: u8, slot: u8, sequence: u8) -> (result: Result<()>)
        ensures
            match validation_failure(self@, expected_type, slot, sequence) {
                None => result is Ok,
                Some(kind) => result matches Err(error) && error.category() == kind
                    && error.text() == validation_message(self@, expected_type, slot, sequence),
            },
    {
        if self.message_type != expected_type {
            return Err(protocol_error("reader returned the wrong CCID message type"));
        }
        if self.slot != slot || self.sequence != sequence {
            return Err(protocol_error("reader returned a stale CCID slot or sequence"));
        }
        if self.icc_status == IccStatus::Absent {
            return Err(Error::from_kind(ErrorKind::CardGone));
        }
        if self.command_status == CommandStatus::Failed {
            let mut message = "CCID command failed with reader error 0x".to_owned();
            push_hex_byte(&mut message, self.error);
            return Err(Error::with_message(ErrorKind::Protocol, message));
        }
        Ok(())
    }

    /// The negotiated protocol parameters an `RDR_to_PC_Parameters` reply carries.
    pub fn transport_parameters(&self) -> (result: Result<TransportParameters>)
        ensures
            match parameters_of(self.specific, self.payload@) {
                Ok(parameters) => result == Ok::<TransportParameters, Error>(parameters),
                Err(kind) => result matches Err(error) && error.category() == kind
                    && error.text() == if kind == ErrorKind::Protocol {
                    "reader returned malformed CCID protocol parameters"@
                } else {
                    "reader selected a protocol other than T=0 or T=1"@
                },
            },
    {
        let length = self.payload.len();
        if self.specific == 0 && length == 5 {
            return Ok(TransportParameters::T0);
        }
        if self.specific == 1 && length == 7 && self.payload[5] != 0 && self.payload[6] == 0 {
            return Ok(
                TransportParameters::T1 {
                    ifsc: self.payload[5],
                    uses_crc: self.payload[1] & 0x01 != 0,
                },
            );
        }
        if self.specific == 0 || self.specific == 1 {
            return Err(protocol_error("reader returned malformed CCID protocol parameters"));
        }
        Err(
            Error::new(
                ErrorKind::NotSupported,
                "reader selected a protocol other than T=0 or T=1",
            ),
        )
    }
}

/// A reader message framed with a length field that matches its payload decodes to exactly
/// the fields it was framed from.
pub proof fn device_message_encode_then_decode(m: DeviceMessageView)
    requires
        m.payload.len() <= u32::MAX,
    ensures
        decode_device_message(encode_device_message(m)) == Some(m),
{
    let b = encode_device_message(m);
    let n = m.payload.len();
    assert(le32(b, 1) == n);
    assert(b.subrange(10, b.len() as int) =~= m.payload);
    let s = status_byte(m.icc_status, m.command_status);
    let i: u8 = match m.icc_status {
        IccStatus::Active => 0,
        IccStatus::Inactive => 1,
        IccStatus::Absent => 2,
    };
    let c: u8 = match m.command_status {
        CommandStatus::Complete => 0,
        CommandStatus::Failed => 0x40,
        CommandStatus::TimeExtension => 0x80,
    };
    assert(s == i + c);
    assert(i <= 2 && (c == 0 || c == 0x40 || c == 0x80) ==> ((i + c) as u8) & 0x03 == i && ((i
        + c) as u8) & 0xC0 == c) by (bit_vector);
    assert(decode_device_message(b) =~= Some(m));
}

/// The length field of every host message states the payload length.
pub proof fn host_message_length_field(
    message_type: u8,
    slot: u8,
    sequence: u8,
    payload: Seq<u8>,
)
    requires
        payload.len() <= u32::MAX,
    ensures
        host_message(message_type, slot, sequence, payload).len() == 10 + payload.len(),
        le32(host_message(message_type, slot, sequence, payload), 1) == payload.len(),
        host_message(message_type, slot, sequence, payload).subrange(
            10,
            10 + payload.len() as int,
        ) == payload,
{
    let b = host_message(message_type, slot, sequence, payload);
    assert(b.subrange(10, 10 + payload.len() as int) =~= payload);
}

} // verus!
