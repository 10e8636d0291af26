//! ISO/IEC 7816 values: command and response APDUs, status words, and the ATR.

use vstd::prelude::*;

use crate::bytes::{append_bytes, bytes_equal, contains_byte, copy_range, xor_all, xor_fold};
use crate::error::{Error, ErrorKind, Result};

verus! {

/// Largest command data field an APDU can carry.
pub const MAX_COMMAND_DATA: usize = 65535;

/// Largest response length a command may request.
pub const MAX_EXPECTED_LENGTH: usize = 65536;

// ---------------------------------------------------------------------------------------
// Command APDU
// ---------------------------------------------------------------------------------------

/// The mathematical content of a command APDU.
pub struct CommandView {
    pub class: u8,
    pub instruction: u8,
    pub parameter1: u8,
    pub parameter2: u8,
    pub data: Seq<u8>,
    pub expected_length: Option<u32>,
    pub extended: bool,
}

/// A command value every constructor keeps: data fits 65,535 bytes, a requested length
/// lies in 1..=65,536, and the short encoding is only used where it can carry the value.
pub open spec fn command_wf(c: CommandView) -> bool {
    &&& c.data.len() <= 65535
    &&& match c.expected_length {
        Some(e) => 1 <= e <= 65536,
        None => true,
    }
    &&& !c.extended ==> c.data.len() <= 255
    &&& !c.extended ==> match c.expected_length {
        Some(e) => e <= 256,
        None => true,
    }
}

/// A short Le byte: zero stands for 256.
pub open spec fn short_le_value(encoded: u8) -> u32 {
    if encoded == 0 {
        256
    } else {
        encoded as u32
    }
}

/// An extended Le field: zero stands for 65,536.
pub open spec fn extended_le_value(encoded: int) -> u32 {
    if encoded == 0 {
        65536
    } else {
        encoded as u32
    }
}

/// A big-endian two-byte value.
pub open spec fn be16(high: u8, low: u8) -> int {
    high * 256 + low
}

/// The header-only command with the given four header bytes.
pub open spec fn header_command(b: Seq<u8>) -> CommandView {
    CommandView {
        class: b[0],
        instruction: b[1],
        parameter1: b[2],
        parameter2: b[3],
        data: Seq::empty(),
        expected_length: None,
        extended: false,
    }
}

/// `c` with the given body fields.
pub open spec fn with_body(
    c: CommandView,
    data: Seq<u8>,
    expected_length: Option<u32>,
    extended: bool,
) -> CommandView {
    CommandView {
        class: c.class,
        instruction: c.instruction,
        parameter1: c.parameter1,
        parameter2: c.parameter2,
        data,
        expected_length,
        extended,
    }
}

/// The one command a canonical short or extended APDU encodes, if any.
pub open spec fn parse_command(b: Seq<u8>) -> Option<CommandView> {
    if b.len() < 4 {
        None
    } else {
        let base = header_command(b);
        if b.len() == 4 {
            Some(base)
        } else if b.len() == 5 {
            Some(with_body(base, Seq::empty(), Some(short_le_value(b[4])), false))
        } else if b[4] != 0 {
            let n = b[4] as int;
            if b.len() == 5 + n {
                Some(with_body(base, b.subrange(5, 5 + n), None, false))
            } else if b.len() == 6 + n {
                Some(with_body(base, b.subrange(5, 5 + n), Some(short_le_value(b[5 + n])), false))
            } else {
                None
            }
        } else if b.len() < 7 {
            None
        } else {
            let n = be16(b[5], b[6]);
            if b.len() == 7 {
                Some(with_body(base, Seq::empty(), Some(extended_le_value(n)), true))
            } else if n == 0 {
                None
            } else if b.len() == 7 + n {
                Some(with_body(base, b.subrange(7, 7 + n), None, true))
            } else if b.len() == 9 + n {
                Some(
                    with_body(
                        base,
                        b.subrange(7, 7 + n),
                        Some(extended_le_value(be16(b[7 + n], b[8 + n]))),
                        true,
                    ),
                )
            } else {
                None
            }
        }
    }
}

/// The short Le byte for a requested length.
pub open spec fn short_le_byte(length: u32) -> u8 {
    if length == 256 {
        0
    } else if length <= 255 {
        length as u8
    } else {
        0
    }
}

/// The extended Le field for a requested length.
pub open spec fn extended_le_bytes(length: u32) -> Seq<u8> {
    if length == 65536 {
        seq![0u8, 0u8]
    } else if length <= 65535 {
        seq![(length / 256) as u8, (length % 256) as u8]
    } else {
        seq![0u8, 0u8]
    }
}

/// The two-byte big-endian data length of an extended command.
pub open spec fn extended_lc_bytes(length: nat) -> Seq<u8> {
    if length <= 65535 {
        seq![(length / 256) as u8, (length % 256) as u8]
    } else {
        seq![0u8, 0u8]
    }
}

/// The wire form of a command.
pub open spec fn encode_command(c: CommandView) -> Seq<u8> {
    let header = seq![c.class, c.instruction, c.parameter1, c.parameter2];
    if c.data.len() == 0 {
        match c.expected_length {
            None => header,
            Some(e) => if c.extended {
                header.push(0) + extended_le_bytes(e)
            } else {
                header.push(short_le_byte(e))
            },
        }
    } else if c.extended {
        header.push(0) + extended_lc_bytes(c.data.len()) + c.data + match c.expected_length {
            Some(e) => extended_le_bytes(e),
            None => Seq::empty(),
        }
    } else {
        header.push(if c.data.len() <= 255 { c.data.len() as u8 } else { 0 }) + c.data
            + match c.expected_length {
            Some(e) => seq![short_le_byte(e)],
            None => Seq::empty(),
        }
    }
}

/// The command with its data replaced, as `with_data` builds it.
pub open spec fn command_with_data(c: CommandView, data: Seq<u8>) -> CommandView {
    with_body(c, data, c.expected_length, c.extended || data.len() > 255)
}

/// The command with its requested length replaced, as `with_expected_len` builds it.
pub open spec fn command_with_expected(c: CommandView, expected: nat) -> CommandView {
    with_body(c, c.data, Some(expected as u32), c.extended || expected > 256)
}

/// A validated ISO/IEC 7816 command APDU.
#[derive(Debug, PartialEq, Eq, Hash)]
pub struct Command {
    class: u8,
    instruction: u8,
    parameter1: u8,
    parameter2: u8,
    data: Vec<u8>,
    expected_length: Option<u32>,
    extended: bool,
}

impl View for Command {
    type V = CommandView;

    closed spec fn view(&self) -> CommandView {
        CommandView {
            class: self.class,
            instruction: self.instruction,
            parameter1: self.parameter1,
            parameter2: self.parameter2,
            data: self.data@,
            expected_length: self.expected_length,
            extended: self.extended,
        }
    }
}

/// What the refusal of a command APDU says.
pub open spec fn command_error_text(bytes: Seq<u8>) -> Seq<char> {
    if bytes.len() < 4 {
        "a command APDU needs a four-byte header"@
    } else {
        "malformed or non-canonical command APDU"@
    }
}

fn malformed_command() -> (error: Error)
    ensures
        error.category() == ErrorKind::InvalidInput,
        error.text() == "malformed or non-canonical command APDU"@,
{
    Error::new(ErrorKind::InvalidInput, "malformed or non-canonical command APDU")
}

fn short_le(encoded: u8) -> (length: u32)
    ensures
        length == short_le_value(encoded),
{
    if encoded == 0 {
        256
    } else {
        encoded as u32
    }
}

fn extended_le(high: u8, low: u8) -> (length: u32)
    ensures
        length == extended_le_value(be16(high, low)),
{
    let value: u32 = high as u32 * 256 + low as u32;
    if value == 0 {
        65536
    } else {
        value
    }
}

fn encode_short_length(length: u32) -> (encoded: u8)
    ensures
        encoded == short_le_byte(length),
{
    if length == 256 {
        0
    } else if length <= 255 {
        length as u8
    } else {
        0
    }
}

fn push_extended_length(target: &mut Vec<u8>, length: u32)
    ensures
        final(target)@ == old(target)@ + extended_le_bytes(length),
{
    if length == 65536 || length > 65535 {
        target.push(0);
        target.push(0);
    } else {
        target.push((length / 256) as u8);
        target.push((length % 256) as u8);
    }
    assert(final(target)@ =~= old(target)@ + extended_le_bytes(length));
}

impl Command {
    #[verifier::type_invariant]
    spec fn well_formed(&self) -> bool {
        command_wf(self@)
    }

    /// Construct a case-1 command from its four-byte header.
    pub fn new(class: u8, instruction: u8, parameter1: u8, parameter2: u8) -> (command: Self)
        ensures
            command@ == header_command(seq![class, instruction, parameter1, parameter2]),
            command_wf(command@),
    {
        Command {
            class,
            instruction,
            parameter1,
            parameter2,
            data: Vec::new(),
            expected_length: None,
            extended: false,
        }
    }

    /// Parse one canonical short or extended command APDU.
    pub fn from_bytes(bytes: &[u8]) -> (result: Result<Self>)
        ensures
            match result {
                Ok(command) => parse_command(bytes@) == Some(command@) && command_wf(command@),
                Err(error) => parse_command(bytes@) is None && error.category()
                    == ErrorKind::InvalidInput && error.text() == command_error_text(bytes@),
            },
    {
        let length = bytes.len();
        if length < 4 {
            return Err(Error::new(ErrorKind::InvalidInput, "a command APDU needs a four-byte header"));
        }
        let header = Command::new(bytes[0], bytes[1], bytes[2], bytes[3]);
        proof {
            assert(seq![bytes@[0], bytes@[1], bytes@[2], bytes@[3]] =~= bytes@.subrange(0, 4));
        }
        if length == 4 {
            return Ok(header);
        }
        let marker = bytes[4];
        if length == 5 {
            return Ok(Command { expected_length: Some(short_le(marker)), ..header });
        }
        if marker != 0 {
            let data_length = marker as usize;
            let data_end = 5 + data_length;
            if length != data_end && length != data_end + 1 {
                return Err(malformed_command());
            }
            let data = copy_range(bytes, 5, data_end);
            if length == data_end + 1 {
                return Ok(Command { data, expected_length: Some(short_le(bytes[data_end])), ..header });
            }
            return Ok(Command { data, ..header });
        }
        if length < 7 {
            return Err(malformed_command());
        }
        let encoded_length: u32 = bytes[5] as u32 * 256 + bytes[6] as u32;
        if length == 7 {
            return Ok(
                Command {
                    expected_length: Some(extended_le(bytes[5], bytes[6])),
                    extended: true,
                    ..header
                },
            );
        }
        if encoded_length == 0 {
            return Err(malformed_command());
        }
        let data_length = encoded_length as usize;
        let data_end = 7 + data_length;
        if length != data_end && length != data_end + 2 {
            return Err(malformed_command());
        }
        let data = copy_range(bytes, 7, data_end);
        if length == data_end + 2 {
            return Ok(
                Command {
                    data,
                    expected_length: Some(extended_le(bytes[data_end], bytes[data_end + 1])),
                    extended: true,
                    ..header
                },
            );
        }
        Ok(Command { data, extended: true, ..header })
    }

    /// Replace the command data, choosing short or extended encoding automatically.
    pub fn with_data(self, data: Vec<u8>) -> (result: Result<Self>)
        ensures
            match result {
                Ok(command) => data@.len() <= MAX_COMMAND_DATA && command@ == command_with_data(
                    self@,
                    data@,
                ) && command_wf(command@),
                Err(error) => data@.len() > MAX_COMMAND_DATA && error.category()
                    == ErrorKind::InvalidInput,
            },
    {
        proof {
            use_type_invariant(&self);
        }
        if data.len() > MAX_COMMAND_DATA {
            return Err(
                Error::new(
                    ErrorKind::InvalidInput,
                    "command data exceeds the 65,535-byte APDU limit",
                ),
            );
        }
        let extended = self.extended || data.len() > 255;
        Ok(Command { data, extended, ..self })
    }

    /// Set the maximum response length from 1 through 65,536 bytes.
    pub fn with_expected_len(self, expected_length: usize) -> (result: Result<Self>)
        ensures
            match result {
                Ok(command) => 1 <= expected_length <= MAX_EXPECTED_LENGTH && command@
                    == command_with_expected(self@, expected_length as nat) && command_wf(
                    command@,
                ),
                Err(error) => !(1 <= expected_length <= MAX_EXPECTED_LENGTH) && error.category()
                    == ErrorKind::InvalidInput,
            },
    {
        proof {
            use_type_invariant(&self);
        }
        if expected_length < 1 || expected_length > MAX_EXPECTED_LENGTH {
            return Err(
                Error::new(
                    ErrorKind::InvalidInput,
                    "expected APDU response length must be in 1..=65,536",
                ),
            );
        }
        let extended = self.extended || expected_length > 256;
        Ok(Command { expected_length: Some(expected_length as u32), extended, ..self })
    }

    /// Encode the command, keeping the encoding (short or extended) it carries.
    pub fn to_bytes(&self) -> (encoded: Vec<u8>)
        ensures
            encoded@ == encode_command(self@),
    {
        proof {
            use_type_invariant(self);
        }
        let mut encoded: Vec<u8> = Vec::new();
        encoded.push(self.class);
        encoded.push(self.instruction);
        encoded.push(self.parameter1);
        encoded.push(self.parameter2);
        let ghost header = encoded@;
        assert(header =~= seq![self.class, self.instruction, self.parameter1, self.parameter2]);
        if self.data.len() == 0 {
            match self.expected_length {
                Some(expected) => {
                    if self.extended {
                        encoded.push(0);
                        push_extended_length(&mut encoded, expected);
                    } else {
                        encoded.push(encode_short_length(expected));
                    }
                },
                None => {},
            }
            return encoded;
        }
        if self.extended {
            encoded.push(0);
            let length = self.data.len();
            encoded.push((length / 256) as u8);
            encoded.push((length % 256) as u8);
            assert(encoded@ =~= header.push(0) + extended_lc_bytes(self.data@.len()));
            append_bytes(&mut encoded, self.data.as_slice());
            match self.expected_length {
                Some(expected) => push_extended_length(&mut encoded, expected),
                None => {},
            }
        } else {
            encoded.push(self.data.len() as u8);
            append_bytes(&mut encoded, self.data.as_slice());
            match self.expected_length {
                Some(expected) => encoded.push(encode_short_length(expected)),
                None => {},
            }
        }
        assert(encoded@ =~= encode_command(self@));
        encoded
    }

    /// Return the class byte.
    pub fn class(&self) -> (class: u8)
        ensures
            class == self@.class,
    {
        self.class
    }

    /// Return the instruction byte.
    pub fn instruction(&self) -> (instruction: u8)
        ensures
            instruction == self@.instruction,
    {
        self.instruction
    }

    /// Return the first parameter byte.
    pub fn parameter1(&self) -> (parameter: u8)
        ensures
            parameter == self@.parameter1,
    {
        self.parameter1
    }

    /// Return the second parameter byte.
    pub fn parameter2(&self) -> (parameter: u8)
        ensures
            parameter == self@.parameter2,
    {
        self.parameter2
    }

    /// Return command data without its length encoding.
    pub fn data(&self) -> (data: &[u8])
        ensures
            data@ == self@.data,
    {
        self.data.as_slice()
    }

    /// Return the requested response length, if any.
    pub fn expected_len(&self) -> (expected: Option<u32>)
        ensures
            expected == self@.expected_length,
    {
        self.expected_length
    }

    /// Whether the command carries the extended length encoding.
    pub fn uses_extended_encoding(&self) -> (extended: bool)
        ensures
            extended == self@.extended,
    {
        self.extended
    }

    /// An independent copy with the same content.
    pub fn duplicate(&self) -> (copy: Self)
        ensures
            copy@ == self@,
    {
        proof {
            use_type_invariant(self);
        }
        let data = copy_range(self.data.as_slice(), 0, self.data.len());
        assert(data@ =~= self.data@);
        Command { data, ..*self }
    }

    /// A copy of this command requesting `expected` response bytes.
    pub fn with_replaced_expected_len(&self, expected: usize) -> (result: Result<Self>)
        ensures
            match result {
                Ok(command) => 1 <= expected <= MAX_EXPECTED_LENGTH && command@
                    == command_with_expected(self@, expected as nat),
                Err(error) => !(1 <= expected <= MAX_EXPECTED_LENGTH) && error.category()
                    == ErrorKind::InvalidInput,
            },
    {
        self.duplicate().with_expected_len(expected)
    }

    /// Whether two commands have identical content.
    pub fn same_as(&self, other: &Command) -> (same: bool)
        ensures
            same == (self@ == other@),
    {
        let same = self.class == other.class && self.instruction == other.instruction
            && self.parameter1 == other.parameter1 && self.parameter2 == other.parameter2
            && self.expected_length == other.expected_length && self.extended == other.extended
            && bytes_equal(self.data.as_slice(), other.data.as_slice());
        same
    }
}

impl Clone for Command {
    fn clone(&self) -> (copy: Self)
        ensures
            copy@ == self@,
    {
        self.duplicate()
    }
}

/// Every accepted encoding is canonical: encoding the parsed command gives back the bytes.
pub proof fn command_parse_then_encode(bytes: Seq<u8>)
    requires
        parse_command(bytes) is Some,
    ensures
        encode_command(parse_command(bytes)->Some_0) == bytes,
        command_wf(parse_command(bytes)->Some_0),
{
    let c = parse_command(bytes)->Some_0;
    let header = seq![c.class, c.instruction, c.parameter1, c.parameter2];
    assert(header =~= bytes.subrange(0, 4));
    if bytes.len() == 4 {
        assert(encode_command(c) =~= bytes);
    } else if bytes.len() == 5 {
        assert(encode_command(c) =~= bytes);
    } else if bytes[4] != 0 {
        let n = bytes[4] as int;
        if bytes.len() == 5 + n {
            assert(encode_command(c) =~= bytes);
        } else {
            assert(encode_command(c) =~= bytes);
        }
    } else {
        let n = be16(bytes[5], bytes[6]);
        assert(extended_lc_bytes(n as nat) =~= seq![bytes[5], bytes[6]]);
        if bytes.len() == 7 {
            assert(extended_le_bytes(extended_le_value(n)) =~= seq![bytes[5], bytes[6]]);
            assert(encode_command(c) =~= bytes);
        } else if bytes.len() == 7 + n {
            assert(encode_command(c) =~= bytes);
        } else {
            let m = be16(bytes[7 + n], bytes[8 + n]);
            assert(extended_le_bytes(extended_le_value(m)) =~= seq![bytes[7 + n], bytes[8 + n]]);
            assert(encode_command(c) =~= bytes);
        }
    }
}

/// Encoding a command and parsing the bytes gives the command back, except for an extended
/// command that carries neither data nor a requested length, whose wire form is the bare
/// header of a short case-1 command.
pub proof fn command_encode_then_parse(c: CommandView)
    requires
        command_wf(c),
        !(c.extended && c.data.len() == 0 && c.expected_length is None),
    ensures
        parse_command(encode_command(c)) == Some(c),
{
    let b = encode_command(c);
    let header = seq![c.class, c.instruction, c.parameter1, c.parameter2];
    if c.data.len() == 0 {
        match c.expected_length {
            None => {
                assert(b =~= header);
                assert(c.data =~= Seq::<u8>::empty());
                assert(parse_command(b) =~= Some(c));
            },
            Some(e) => {
                if c.extended {
                    assert(b.len() == 7);
                    assert(b[4] == 0);
                    if e == 65536 {
                        assert(be16(b[5], b[6]) == 0);
                    } else {
                        assert(be16(b[5], b[6]) == e);
                    }
                    assert(c.data =~= Seq::<u8>::empty());
                    assert(parse_command(b) =~= Some(c));
                } else {
                    assert(b.len() == 5);
                    assert(c.data =~= Seq::<u8>::empty());
                    assert(parse_command(b) =~= Some(c));
                }
            },
        }
    } else if c.extended {
        let n = c.data.len() as int;
        assert(be16(b[5], b[6]) == n);
        assert(b.subrange(7, 7 + n) =~= c.data);
        match c.expected_length {
            None => {
                assert(b.len() == 7 + n);
                assert(parse_command(b) =~= Some(c));
            },
            Some(e) => {
                assert(b.len() == 9 + n);
                if e == 65536 {
                    assert(be16(b[7 + n], b[8 + n]) == 0);
                } else {
                    assert(be16(b[7 + n], b[8 + n]) == e);
                }
                assert(parse_command(b) =~= Some(c));
            },
        }
    } else {
        let n = c.data.len() as int;
        assert(b[4] == n);
        assert(b.subrange(5, 5 + n) =~= c.data);
        match c.expected_length {
            None => {
                assert(b.len() == 5 + n);
                assert(parse_command(b) =~= Some(c));
            },
            Some(e) => {
                assert(b.len() == 6 + n);
                assert(parse_command(b) =~= Some(c));
            },
        }
    }
}

// ---------------------------------------------------------------------------------------
// Status word
// ---------------------------------------------------------------------------------------

/// The interpretation `meaning` gives a status word.
pub open spec fn status_meaning(value: u16) -> Seq<char> {
    if value == 0x9000 {
        "success"@
    } else if value == 0x6282 {
        "end of file reached before reading expected bytes"@
    } else if value == 0x6300 {
        "authentication failed or state unchanged"@
    } else if value == 0x6700 {
        "wrong length"@
    } else if value == 0x6982 {
        "security status not satisfied"@
    } else if value == 0x6983 {
        "authentication method blocked"@
    } else if value == 0x6985 {
        "conditions of use not satisfied"@
    } else if value == 0x6A80 {
        "incorrect data"@
    } else if value == 0x6A81 {
        "function not supported"@
    } else if value == 0x6A82 {
        "file or application not found"@
    } else if value == 0x6A86 {
        "incorrect parameters"@
    } else if value == 0x6D00 {
        "instruction not supported"@
    } else if value == 0x6E00 {
        "class not supported"@
    } else if value / 256 == 0x61 {
        "more response bytes available"@
    } else if value / 256 == 0x6C {
        "wrong response length; SW2 is correct Le"@
    } else {
        "card-defined status"@
    }
}

/// The two-byte status word returned by a card.
#[derive(Clone, Copy, Debug, PartialEq, Eq, Hash, PartialOrd, Ord, Structural)]
pub struct StatusWord(u16);

impl View for StatusWord {
    type V = u16;

    closed spec fn view(&self) -> u16 {
        self.0
    }
}

impl StatusWord {
    /// Construct a status word from SW1 and SW2.
    pub fn new(sw1: u8, sw2: u8) -> (status: Self)
        ensures
            status@ == sw1 * 256 + sw2,
    {
        StatusWord(sw1 as u16 * 256 + sw2 as u16)
    }

    /// Construct a status word from its big-endian integer representation.
    pub fn from_u16(value: u16) -> (status: Self)
        ensures
            status@ == value,
    {
        StatusWord(value)
    }

    /// Return SW1 and SW2.
    pub fn bytes(self) -> (bytes: [u8; 2])
        ensures
            bytes@ == seq![(self@ / 256) as u8, (self@ % 256) as u8],
    {
        let bytes = [(self.0 / 256) as u8, (self.0 % 256) as u8];
        assert(bytes@ =~= seq![(self@ / 256) as u8, (self@ % 256) as u8]);
        bytes
    }

    /// Return the big-endian integer representation.
    pub fn as_u16(self) -> (value: u16)
        ensures
            value == self@,
    {
        self.0
    }

    /// Whether the card reported ordinary success (`9000`).
    pub fn is_success(self) -> (success: bool)
        ensures
            success == (self@ == 0x9000),
    {
        self.0 == 0x9000
    }

    /// A concise interpretation for common interindustry status words.
    pub fn meaning(self) -> (meaning: &'static str)
        ensures
            meaning@ == status_meaning(self@),
    {
        let value = self.0;
        if value == 0x9000 {
            "success"
        } else if value == 0x6282 {
            "end of file reached before reading expected bytes"
        } else if value == 0x6300 {
            "authentication failed or state unchanged"
        } else if value == 0x6700 {
            "wrong length"
        } else if value == 0x6982 {
            "security status not satisfied"
        } else if value == 0x6983 {
            "authentication method blocked"
        } else if value == 0x6985 {
            "conditions of use not satisfied"
        } else if value == 0x6A80 {
            "incorrect data"
        } else if value == 0x6A81 {
            "function not supported"
        } else if value == 0x6A82 {
            "file or application not found"
        } else if value == 0x6A86 {
            "incorrect parameters"
        } else if value == 0x6D00 {
            "instruction not supported"
        } else if value == 0x6E00 {
            "class not supported"
        } else if value / 256 == 0x61 {
            "more response bytes available"
        } else if value / 256 == 0x6C {
            "wrong response length; SW2 is correct Le"
        } else {
            "card-defined status"
        }
    }
}

// ---------------------------------------------------------------------------------------
// Response APDU
// ---------------------------------------------------------------------------------------

/// The mathematical content of a response APDU.
pub struct ResponseView {
    pub data: Seq<u8>,
    pub status: u16,
}

/// The wire form of a response: its data followed by SW1 and SW2.
pub open spec fn encode_response(r: ResponseView) -> Seq<u8> {
    r.data + seq![(r.status / 256) as u8, (r.status % 256) as u8]
}

/// The response that response bytes encode, if they hold a status word.
pub open spec fn parse_response(b: Seq<u8>) -> Option<ResponseView> {
    if b.len() < 2 {
        None
    } else {
        Some(
            ResponseView {
                data: b.subrange(0, b.len() - 2),
                status: (b[b.len() - 2] * 256 + b[b.len() - 1]) as u16,
            },
        )
    }
}

/// A response APDU: zero or more data bytes followed by a status word.
#[derive(Clone, Debug, PartialEq, Eq, Hash)]
pub struct Response {
    data: Vec<u8>,
    status: StatusWord,
}

impl View for Response {
    type V = ResponseView;

    closed spec fn view(&self) -> ResponseView {
        ResponseView { data: self.data@, status: self.status@ }
    }
}

impl Response {
    /// Construct a response from data and an explicit status word.
    pub fn new(data: Vec<u8>, status: StatusWord) -> (response: Self)
        ensures
            response@ == (ResponseView { data: data@, status: status@ }),
    {
        Response { data, status }
    }

    /// Parse response bytes, requiring the final two status bytes.
    pub fn from_bytes(bytes: &[u8]) -> (result: Result<Self>)
        ensures
            match result {
                Ok(response) => parse_response(bytes@) == Some(response@),
                Err(error) => parse_response(bytes@) is None && error.category()
                    == ErrorKind::InvalidInput && error.text()
                    == "a response APDU needs two status bytes"@,
            },
    {
        if bytes.len() < 2 {
            return Err(Error::new(ErrorKind::InvalidInput, "a response APDU needs two status bytes"));
        }
        let split = bytes.len() - 2;
        let data = copy_range(bytes, 0, split);
        let status = StatusWord::new(bytes[split], bytes[split + 1]);
        Ok(Response { data, status })
    }

    /// Encode data and status bytes.
    pub fn to_bytes(&self) -> (encoded: Vec<u8>)
        ensures
            encoded@ == encode_response(self@),
    {
        let mut encoded = copy_range(self.data.as_slice(), 0, self.data.len());
        let status = self.status.bytes();
        encoded.push(status[0]);
        encoded.push(status[1]);
        assert(encoded@ =~= encode_response(self@));
        encoded
    }

    /// Return response data without SW1/SW2.
    pub fn data(&self) -> (data: &[u8])
        ensures
            data@ == self@.data,
    {
        self.data.as_slice()
    }

    /// Consume the response and return its data.
    pub fn into_data(self) -> (data: Vec<u8>)
        ensures
            data@ == self@.data,
    {
        self.data
    }

    /// Return the card's status word.
    pub fn status(&self) -> (status: StatusWord)
        ensures
            status@ == self@.status,
    {
        self.status
    }

    /// Keep successful responses and turn other card statuses into explicit policy.
    pub fn require_success(self) -> (result: std::result::Result<Self, StatusError>)
        ensures
            match result {
                Ok(response) => self@.status == 0x9000 && response@ == self@,
                Err(error) => self@.status != 0x9000 && error@ == self@,
            },
    {
        if self.status.is_success() {
            Ok(self)
        } else {
            Err(StatusError { response: self })
        }
    }
}

/// Encoding a response and parsing the bytes gives the response back.
pub proof fn response_encode_then_parse(r: ResponseView)
    ensures
        parse_response(encode_response(r)) == Some(r),
{
    let b = encode_response(r);
    assert(b.subrange(0, b.len() - 2) =~= r.data);
    assert(parse_response(b) =~= Some(r));
}

/// Parsing response bytes and encoding the response gives the bytes back.
pub proof fn response_parse_then_encode(bytes: Seq<u8>)
    requires
        bytes.len() >= 2,
    ensures
        parse_response(bytes) is Some,
        encode_response(parse_response(bytes)->Some_0) == bytes,
{
    let r = parse_response(bytes)->Some_0;
    assert(encode_response(r) =~= bytes);
}

/// A caller-requested failure for a response whose status is not `9000`.
#[derive(Clone, Debug, PartialEq, Eq)]
pub struct StatusError {
    response: Response,
}

impl View for StatusError {
    type V = ResponseView;

    closed spec fn view(&self) -> ResponseView {
        self.response@
    }
}

impl StatusError {
    /// Return the complete response, including any warning data.
    pub fn response(&self) -> (response: &Response)
        ensures
            response@ == self@,
    {
        &self.response
    }

    /// Recover ownership of the complete response.
    pub fn into_response(self) -> (response: Response)
        ensures
            response@ == self@,
    {
        self.response
    }
}

// ---------------------------------------------------------------------------------------
// Answer to reset
// ---------------------------------------------------------------------------------------

/// The mathematical content of a validated ATR.
pub struct AtrView {
    pub bytes: Seq<u8>,
    pub historical_start: int,
    pub historical_end: int,
    pub protocols: Seq<u8>,
}

/// How many of TA, TB, TC an interface-presence nibble announces.
pub open spec fn interface_count(presence: u8) -> int {
    (if presence & 1 != 0 { 1int } else { 0int }) + (if presence & 2 != 0 { 1int } else { 0int })
        + (if presence & 4 != 0 { 1int } else { 0int })
}

/// Follow the chain of interface-byte groups from `offset`: the offset after the last group
/// and the protocols its TD bytes announce, first occurrence first; `None` when truncated.
pub open spec fn scan_interface(b: Seq<u8>, offset: int, presence: u8, protocols: Seq<u8>) -> Option<
    (int, Seq<u8>),
>
    decreases b.len() - offset,
{
    let after = offset + interface_count(presence);
    if after > b.len() {
        None
    } else if presence & 8 == 0 {
        Some((after, protocols))
    } else if after >= b.len() {
        None
    } else {
        let descriptor = b[after];
        let protocol = descriptor & 0x0F;
        scan_interface(
            b,
            after + 1,
            descriptor >> 4,
            if protocols.contains(protocol) {
                protocols
            } else {
                protocols.push(protocol)
            },
        )
    }
}

/// The positions of the TD bytes of an interface chain that starts at `offset` with this
/// presence nibble, each TD byte announcing the groups that follow it.
pub open spec fn td_offsets(b: Seq<u8>, offset: int, presence: u8) -> Seq<int>
    decreases b.len() - offset,
{
    let after = offset + interface_count(presence);
    if offset < 0 || after >= b.len() || presence & 8 == 0 {
        Seq::empty()
    } else {
        seq![after] + td_offsets(b, after + 1, b[after] >> 4)
    }
}

/// Whether some TD byte at these positions announces protocol `protocol`.
pub open spec fn announced(b: Seq<u8>, tds: Seq<int>, protocol: u8) -> bool {
    exists|k: int| 0 <= k < tds.len() && #[trigger] (b[tds[k]] & 0x0F) == protocol
}

/// Whether no protocol occurs twice.
pub open spec fn distinct_protocols(protocols: Seq<u8>) -> bool {
    forall|i: int, j: int| 0 <= i < j < protocols.len() ==> protocols[i] != protocols[j]
}

proof fn lemma_interface_count_bounds(presence: u8)
    ensures
        0 <= interface_count(presence) <= 3,
{
}

proof fn lemma_scan_collects_announced(b: Seq<u8>, offset: int, presence: u8, protocols: Seq<u8>)
    requires
        0 <= offset,
        distinct_protocols(protocols),
    ensures
        scan_interface(b, offset, presence, protocols) matches Some((_, found)) ==> {
            let tds = td_offsets(b, offset, presence);
            &&& forall|i: int| 0 <= i < protocols.len() ==> found.contains(#[trigger] protocols[i])
            &&& forall|k: int| 0 <= k < tds.len() ==> found.contains(#[trigger] (b[tds[k]] & 0x0F))
            &&& forall|i: int|
                0 <= i < found.len() ==> protocols.contains(#[trigger] found[i]) || announced(
                    b,
                    tds,
                    found[i],
                )
            &&& distinct_protocols(found)
        },
    decreases b.len() - offset,
{
    lemma_interface_count_bounds(presence);
    let after = offset + interface_count(presence);
    if after > b.len() || presence & 8 == 0 || after >= b.len() {
        if let Some((_, found)) = scan_interface(b, offset, presence, protocols) {
            assert(found == protocols);
            assert(td_offsets(b, offset, presence) == Seq::<int>::empty());
            assert forall|i: int| 0 <= i < protocols.len() implies found.contains(
                #[trigger] protocols[i],
            ) by {
                assert(found[i] == protocols[i]);
            }
            assert forall|i: int| 0 <= i < found.len() implies protocols.contains(
                #[trigger] found[i],
            ) by {
                assert(protocols[i] == found[i]);
            }
        }
    } else {
        let descriptor = b[after];
        let p = descriptor & 0x0F;
        let grown = if protocols.contains(p) {
            protocols
        } else {
            protocols.push(p)
        };
        assert(distinct_protocols(grown)) by {
            if !protocols.contains(p) {
                assert forall|i: int, j: int| 0 <= i < j < grown.len() implies grown[i]
                    != grown[j] by {
                    if j == protocols.len() {
                        assert(grown[i] == protocols[i]);
                    } else {
                        assert(grown[i] == protocols[i] && grown[j] == protocols[j]);
                    }
                }
            }
        }
        lemma_scan_collects_announced(b, after + 1, descriptor >> 4, grown);
        let rest = td_offsets(b, after + 1, descriptor >> 4);
        let tds = td_offsets(b, offset, presence);
        assert(tds == seq![after] + rest);
        if let Some((_, found)) = scan_interface(b, offset, presence, protocols) {
            assert(scan_interface(b, after + 1, descriptor >> 4, grown) == Some(
                scan_interface(b, offset, presence, protocols)->Some_0,
            ));
            assert(grown.contains(p)) by {
                if !protocols.contains(p) {
                    assert(grown[protocols.len() as int] == p);
                }
            }
            let w = choose|w: int| 0 <= w < grown.len() && grown[w] == p;
            assert(found.contains(grown[w]));
            assert forall|i: int| 0 <= i < protocols.len() implies found.contains(
                #[trigger] protocols[i],
            ) by {
                if protocols.contains(p) {
                    assert(grown[i] == protocols[i]);
                } else {
                    assert(grown[i] == protocols[i]);
                }
            }
            assert forall|k: int| 0 <= k < tds.len() implies found.contains(
                #[trigger] (b[tds[k]] & 0x0F),
            ) by {
                if k == 0 {
                    assert(tds[0] == after);
                } else {
                    assert(tds[k] == rest[k - 1]);
                }
            }
            assert forall|i: int| 0 <= i < found.len() implies protocols.contains(
                #[trigger] found[i],
            ) || announced(b, tds, found[i]) by {
                if grown.contains(found[i]) {
                    let g = choose|g: int| 0 <= g < grown.len() && grown[g] == found[i];
                    if g < protocols.len() {
                        assert(grown[g] == protocols[g]);
                    } else {
                        assert(found[i] == p);
                        assert(tds[0] == after);
                        assert((b[tds[0]] & 0x0F) == found[i]);
                    }
                } else {
                    assert(announced(b, rest, found[i]));
                    let k = choose|k: int| 0 <= k < rest.len() && #[trigger] (b[rest[k]] & 0x0F)
                        == found[i];
                    assert(tds[k + 1] == rest[k]);
                    assert((b[tds[k + 1]] & 0x0F) == found[i]);
                }
            }
        }
    }
}

/// The protocols of a parsed ATR are the ones its TD bytes announce: each announced protocol
/// is listed, each listed protocol is announced, none twice; and T=0 alone when no TD byte
/// announces any.
pub proof fn atr_protocols_are_the_announced_ones(b: Seq<u8>)
    ensures
        parse_atr(b) matches Some(atr) ==> {
            let tds = td_offsets(b, 2, b[1] >> 4);
            &&& forall|k: int|
                0 <= k < tds.len() ==> atr.protocols.contains(#[trigger] (b[tds[k]] & 0x0F))
            &&& forall|i: int|
                0 <= i < atr.protocols.len() ==> announced(b, tds, #[trigger] atr.protocols[i])
                    || (tds.len() == 0 && atr.protocols[i] == 0)
            &&& distinct_protocols(atr.protocols)
            &&& tds.len() == 0 ==> atr.protocols == seq![0u8]
        },
{
    if b.len() >= 2 && (b[0] == 0x3B || b[0] == 0x3F) {
        lemma_scan_collects_announced(b, 2, b[1] >> 4, Seq::empty());
        if let Some((_, found)) = scan_interface(b, 2, b[1] >> 4, Seq::empty()) {
            let tds = td_offsets(b, 2, b[1] >> 4);
            if tds.len() == 0 {
                if found.len() > 0 {
                    assert(!Seq::<u8>::empty().contains(found[0]));
                    assert(!announced(b, tds, found[0]));
                }
            } else {
                assert(found.contains(b[tds[0]] & 0x0F));
            }
            if found.len() > 0 {
                assert forall|i: int| 0 <= i < found.len() implies announced(
                    b,
                    tds,
                    #[trigger] found[i],
                ) by {
                    assert(!Seq::<u8>::empty().contains(found[i]));
                }
            }
        }
    }
}

/// Whether some protocol other than T=0 occurs, which makes the check character mandatory.
pub open spec fn has_nonzero(protocols: Seq<u8>) -> bool {
    exists|i: int| 0 <= i < protocols.len() && protocols[i] != 0
}

/// The validated ATR that `b` encodes, if any.
pub open spec fn parse_atr(b: Seq<u8>) -> Option<AtrView> {
    if b.len() < 2 || !(b[0] == 0x3B || b[0] == 0x3F) {
        None
    } else {
        match scan_interface(b, 2, b[1] >> 4, Seq::empty()) {
            None => None,
            Some((start, found)) => {
                let protocols = if found.len() == 0 {
                    seq![0u8]
                } else {
                    found
                };
                let end = start + (b[1] & 0x0F);
                let needs_checksum = has_nonzero(protocols);
                let expected = end + if needs_checksum {
                    1int
                } else {
                    0int
                };
                if end > b.len() || b.len() != expected {
                    None
                } else if needs_checksum && xor_all(b.subrange(1, b.len() as int)) != 0 {
                    None
                } else {
                    Some(
                        AtrView {
                            bytes: b,
                            historical_start: start,
                            historical_end: end,
                            protocols,
                        },
                    )
                }
            },
        }
    }
}

/// A validated answer-to-reset with parsed protocol and historical-byte boundaries.
#[derive(Debug, PartialEq, Eq, Hash)]
pub struct Atr {
    bytes: Vec<u8>,
    historical_start: usize,
    historical_end: usize,
    protocols: Vec<u8>,
}

impl View for Atr {
    type V = AtrView;

    closed spec fn view(&self) -> AtrView {
        AtrView {
            bytes: self.bytes@,
            historical_start: self.historical_start as int,
            historical_end: self.historical_end as int,
            protocols: self.protocols@,
        }
    }
}

/// What the refusal of an ATR says, checking in order: the convention byte, the format
/// byte and interface groups, the historical bytes, the length, and the check character.
pub open spec fn atr_error_text(b: Seq<u8>) -> Seq<char> {
    if b.len() >= 1 && !(b[0] == 0x3B || b[0] == 0x3F) {
        "ATR convention byte must be 3B or 3F"@
    } else if b.len() < 2 {
        "ATR is truncated"@
    } else {
        match scan_interface(b, 2, b[1] >> 4, Seq::empty()) {
            None => "ATR is truncated"@,
            Some((start, found)) => if start + (b[1] & 0x0F) > b.len() {
                "ATR historical bytes are truncated"@
            } else {
                let protocols = if found.len() == 0 {
                    seq![0u8]
                } else {
                    found
                };
                let expected = start + (b[1] & 0x0F) + if has_nonzero(protocols) {
                    1int
                } else {
                    0int
                };
                if b.len() != expected {
                    "ATR contains trailing bytes or omits its checksum"@
                } else {
                    "ATR checksum does not reduce to zero"@
                }
            },
        }
    }
}

fn invalid_atr() -> (error: Error)
    ensures
        error.category() == ErrorKind::InvalidInput,
        error.text() == "ATR is truncated"@,
{
    Error::new(ErrorKind::InvalidInput, "ATR is truncated")
}

impl Atr {
    #[verifier::type_invariant]
    spec fn well_formed(&self) -> bool {
        parse_atr(self.bytes@) == Some(self@)
    }

    /// Parse and validate an ISO/IEC 7816 answer-to-reset.
    pub fn parse(bytes: &[u8]) -> (result: Result<Self>)
        ensures
            match result {
                Ok(atr) => parse_atr(bytes@) == Some(atr@),
                Err(error) => parse_atr(bytes@) is None && error.category()
                    == ErrorKind::InvalidInput && error.text() == atr_error_text(bytes@),
            },
    {
        let b = Ghost(bytes@);
        if bytes.len() < 1 {
            return Err(invalid_atr());
        }
        let convention = bytes[0];
        if !(convention == 0x3B || convention == 0x3F) {
            return Err(Error::new(ErrorKind::InvalidInput, "ATR convention byte must be 3B or 3F"));
        }
        if bytes.len() < 2 {
            return Err(invalid_atr());
        }
        let format = bytes[1];
        let historical_length = (format & 0x0F) as usize;
        let mut presence: u8 = format >> 4;
        let mut offset: usize = 2;
        let mut protocols: Vec<u8> = Vec::new();
        let ghost target = scan_interface(b@, 2, format >> 4, Seq::empty());
        loop
            invariant_except_break
                2 <= offset <= bytes@.len(),
                b@ == bytes@,
                bytes@.len() >= 2,
                bytes@[0] == 0x3B || bytes@[0] == 0x3F,
                target == scan_interface(bytes@, 2, bytes@[1] >> 4, Seq::empty()),
                scan_interface(b@, offset as int, presence, protocols@) == target,
            ensures
                target is Some,
                target == Some((offset as int, protocols@)),
                offset <= bytes@.len(),
            decreases bytes@.len() - offset,
        {
            let needed: usize = (if presence & 1 != 0 { 1usize } else { 0usize }) + (if presence
                & 2 != 0 {
                1usize
            } else {
                0usize
            }) + (if presence & 4 != 0 { 1usize } else { 0usize });
            assert(needed == interface_count(presence));
            if needed > bytes.len() - offset {
                assert(scan_interface(b@, offset as int, presence, protocols@) is None);
                return Err(invalid_atr());
            }
            offset = offset + needed;
            if presence & 8 == 0 {
                break;
            }
            if offset >= bytes.len() {
                assert(scan_interface(b@, offset - needed, presence, protocols@) is None);
                return Err(invalid_atr());
            }
            let descriptor = bytes[offset];
            offset = offset + 1;
            let protocol = descriptor & 0x0F;
            if !contains_byte(protocols.as_slice(), protocol) {
                protocols.push(protocol);
            }
            presence = descriptor >> 4;
        }
        let ghost found = protocols@;
        if protocols.len() == 0 {
            protocols.push(0);
        }
        assert(protocols@ =~= if found.len() == 0 {
            seq![0u8]
        } else {
            found
        });
        let historical_start = offset;
        if historical_length > bytes.len() - historical_start {
            return Err(Error::new(ErrorKind::InvalidInput, "ATR historical bytes are truncated"));
        }
        let historical_end = historical_start + historical_length;
        let mut needs_checksum = false;
        let mut index: usize = 0;
        while index < protocols.len()
            invariant
                index <= protocols@.len(),
                needs_checksum == exists|i: int| 0 <= i < index && protocols@[i] != 0,
            decreases protocols@.len() - index,
        {
            if protocols[index] != 0 {
                needs_checksum = true;
            }
            index = index + 1;
        }
        assert(needs_checksum == has_nonzero(protocols@));
        assert(target == Some((historical_start as int, found)));
        assert(format == bytes@[1]);
        assert(scan_interface(bytes@, 2, bytes@[1] >> 4, Seq::empty()) == Some((historical_start as int, found)));
        assert(historical_end as int == historical_start as int + (bytes@[1] & 0x0F));
        let expected_length = if needs_checksum {
            if historical_end == bytes.len() {
                return Err(
                    Error::new(
                        ErrorKind::InvalidInput,
                        "ATR contains trailing bytes or omits its checksum",
                    ),
                );
            }
            historical_end + 1
        } else {
            historical_end
        };
        if bytes.len() != expected_length {
            return Err(
                Error::new(
                    ErrorKind::InvalidInput,
                    "ATR contains trailing bytes or omits its checksum",
                ),
            );
        }
        if needs_checksum {
            let checked = copy_range(bytes, 1, expected_length);
            if xor_fold(checked.as_slice()) != 0 {
                return Err(
                    Error::new(ErrorKind::InvalidInput, "ATR checksum does not reduce to zero"),
                );
            }
        }
        let copied = copy_range(bytes, 0, bytes.len());
        assert(copied@ =~= bytes@);
        assert(parse_atr(bytes@) == Some(
            AtrView {
                bytes: bytes@,
                historical_start: historical_start as int,
                historical_end: historical_end as int,
                protocols: protocols@,
            },
        ));
        Ok(Atr { bytes: copied, historical_start, historical_end, protocols })
    }

    /// Return the original, validated ATR bytes.
    pub fn as_bytes(&self) -> (bytes: &[u8])
        ensures
            bytes@ == self@.bytes,
    {
        self.bytes.as_slice()
    }

    /// Return the historical bytes declared by T0.
    pub fn historical_bytes(&self) -> (historical: Vec<u8>)
        ensures
            historical@ == self@.bytes.subrange(self@.historical_start, self@.historical_end),
    {
        proof {
            use_type_invariant(self);
        }
        copy_range(self.bytes.as_slice(), self.historical_start, self.historical_end)
    }

    /// The advertised protocol numbers, first occurrence first; T=0 when none is announced.
    pub fn protocols(&self) -> (protocols: Vec<u8>)
        ensures
            protocols@ == self@.protocols,
    {
        copy_range(self.protocols.as_slice(), 0, self.protocols.len())
    }

    /// An independent copy with the same content.
    pub fn duplicate(&self) -> (copy: Self)
        ensures
            copy@ == self@,
    {
        proof {
            use_type_invariant(self);
        }
        let bytes = copy_range(self.bytes.as_slice(), 0, self.bytes.len());
        let protocols = copy_range(self.protocols.as_slice(), 0, self.protocols.len());
        assert(bytes@ =~= self.bytes@);
        assert(protocols@ =~= self.protocols@);
        Atr {
            bytes,
            historical_start: self.historical_start,
            historical_end: self.historical_end,
            protocols,
        }
    }
}

impl Clone for Atr {
    fn clone(&self) -> (copy: Self)
        ensures
            copy@ == self@,
    {
        self.duplicate()
    }
}

/// A validated ATR keeps exactly the bytes it was parsed from.
pub proof fn atr_keeps_its_bytes(bytes: Seq<u8>)
    requires
        parse_atr(bytes) is Some,
    ensures
        parse_atr(bytes)->Some_0.bytes == bytes,
        parse_atr(bytes)->Some_0.protocols.len() >= 1,
        0 <= parse_atr(bytes)->Some_0.historical_start <= parse_atr(bytes)->Some_0.historical_end
            <= bytes.len(),
{
    lemma_scan_bounds(bytes, 2, bytes[1] >> 4, Seq::empty());
}

/// The interface scan only moves forward and stays inside the bytes.
pub proof fn lemma_scan_bounds(b: Seq<u8>, offset: int, presence: u8, protocols: Seq<u8>)
    requires
        0 <= offset,
    ensures
        scan_interface(b, offset, presence, protocols) matches Some((end, _)) ==> offset <= end
            <= b.len(),
    decreases b.len() - offset,
{
    let after = offset + interface_count(presence);
    if after <= b.len() && presence & 8 != 0 && after < b.len() {
        let descriptor = b[after];
        let protocol = descriptor & 0x0F;
        lemma_scan_bounds(
            b,
            after + 1,
            descriptor >> 4,
            if protocols.contains(protocol) {
                protocols
            } else {
                protocols.push(protocol)
            },
        );
    }
}

} // verus!
