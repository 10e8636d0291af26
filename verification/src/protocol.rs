//! The ISO/IEC 7816 T=1 block codec and the conversation machine for one APDU.

use vstd::prelude::*;

use crate::bytes::{append_bytes, copy_range, lemma_xor_with_check, xor_all, xor_fold};
use crate::error::{Error, ErrorKind, Result};

verus! {

/// Largest information field a T=1 block carries.
pub const MAX_INFORMATION_LENGTH: usize = 254;

/// The S-block type of a waiting-time extension.
pub const S_WTX: u8 = 0x03;

/// The content of a T=1 block.
pub enum BlockView {
    I { sequence: bool, more: bool, information: Seq<u8> },
    R { sequence: bool, error: u8 },
    S { response: bool, kind: u8, information: Seq<u8> },
}

/// The protocol control byte of a block, if its fields are representable.
pub open spec fn block_pcb(block: BlockView) -> Option<u8> {
    match block {
        BlockView::I { sequence, more, .. } => Some(
            ((if sequence { 0x40int } else { 0int }) + (if more { 0x20int } else { 0int })) as u8,
        ),
        BlockView::R { sequence, error } => if error > 3 {
            None
        } else {
            Some((0x80int + (if sequence { 0x10int } else { 0int }) + error) as u8)
        },
        BlockView::S { response, kind, .. } => if kind > 0x1F {
            None
        } else {
            Some((0xC0int + (if response { 0x20int } else { 0int }) + kind) as u8)
        },
    }
}

/// The information field a block carries.
pub open spec fn block_information(block: BlockView) -> Seq<u8> {
    match block {
        BlockView::I { information, .. } => information,
        BlockView::R { .. } => Seq::empty(),
        BlockView::S { information, .. } => information,
    }
}

/// The wire form of a block (NAD zero, PCB, LEN, INF, LRC), if it is encodable.
pub open spec fn encode_block(block: BlockView) -> Option<Seq<u8>> {
    match block_pcb(block) {
        None => None,
        Some(pcb) => {
            let information = block_information(block);
            if information.len() > 254 {
                None
            } else {
                let frame = seq![0u8, pcb, information.len() as u8] + information;
                Some(frame.push(xor_all(frame)))
            }
        },
    }
}

/// The block that a received frame holds, if it is a valid NAD-zero frame.
pub open spec fn decode_block(b: Seq<u8>) -> Option<BlockView> {
    if b.len() < 3 || b[0] != 0 {
        None
    } else {
        let pcb = b[1];
        let n = b[2] as int;
        if b.len() != 4 + n || xor_all(b) != 0 {
            None
        } else {
            let information = b.subrange(3, 3 + n);
            if pcb & 0x80 == 0 {
                Some(
                    BlockView::I {
                        sequence: pcb & 0x40 != 0,
                        more: pcb & 0x20 != 0,
                        information,
                    },
                )
            } else if pcb & 0xC0 == 0x80 {
                if information.len() != 0 || pcb & 0x2C != 0 {
                    None
                } else {
                    Some(BlockView::R { sequence: pcb & 0x10 != 0, error: pcb & 0x03 })
                }
            } else {
                Some(BlockView::S { response: pcb & 0x20 != 0, kind: pcb & 0x1F, information })
            }
        }
    }
}

/// What the refusal to encode a block says.
pub open spec fn encode_error(block: BlockView) -> Seq<char> {
    match block_pcb(block) {
        None => if block is R {
            "T=1 R-block error code is reserved"@
        } else {
            "T=1 S-block type is reserved"@
        },
        Some(_) => "T=1 information field exceeds 254 bytes"@,
    }
}

/// What the refusal of a received frame says: the first of the NAD, PCB, LEN, length and
/// check, and R-block fields that is wrong.
pub open spec fn decode_error(b: Seq<u8>) -> Seq<char> {
    if b.len() < 1 {
        "T=1 block is truncated"@
    } else if b[0] != 0 {
        "T=1 non-zero NAD is not negotiated"@
    } else if b.len() < 2 {
        "T=1 PCB is truncated"@
    } else if b.len() < 3 {
        "T=1 LEN is truncated"@
    } else if b.len() != 4 + b[2] || xor_all(b) != 0 {
        "T=1 block length or LRC is invalid"@
    } else {
        "T=1 R-block contains reserved fields"@
    }
}

/// A T=1 block.
#[derive(Clone, Debug, PartialEq, Eq)]
pub enum Block {
    I { sequence: bool, more: bool, information: Vec<u8> },
    R { sequence: bool, error: u8 },
    S { response: bool, kind: u8, information: Vec<u8> },
}

impl View for Block {
    type V = BlockView;

    open spec fn view(&self) -> BlockView {
        match self {
            Block::I { sequence, more, information } => BlockView::I {
                sequence: *sequence,
                more: *more,
                information: information@,
            },
            Block::R { sequence, error } => BlockView::R { sequence: *sequence, error: *error },
            Block::S { response, kind, information } => BlockView::S {
                response: *response,
                kind: *kind,
                information: information@,
            },
        }
    }
}

fn protocol_error(message: &str) -> (error: Error)
    ensures
        error.category() == ErrorKind::Protocol,
        error.text() == message@,
{
    Error::new(ErrorKind::Protocol, message)
}

impl Block {
    /// Encode the block with a zero NAD and an LRC epilogue.
    pub fn encode(&self) -> (result: Result<Vec<u8>>)
        ensures
            match result {
                Ok(encoded) => encode_block(self@) == Some(encoded@),
                Err(error) => encode_block(self@) is None && error.category()
                    == ErrorKind::Protocol && error.text() == encode_error(self@),
            },
    {
        let (pcb, information): (u8, &[u8]) = match self {
            Block::I { sequence, more, information } => {
                let pcb: u8 = (if *sequence { 0x40u8 } else { 0u8 }) + (if *more {
                    0x20u8
                } else {
                    0u8
                });
                (pcb, information.as_slice())
            },
            Block::R { sequence, error } => {
                if *error > 3 {
                    return Err(protocol_error("T=1 R-block error code is reserved"));
                }
                let pcb: u8 = 0x80u8 + (if *sequence { 0x10u8 } else { 0u8 }) + *error;
                (pcb, &[])
            },
            Block::S { response, kind, information } => {
                if *kind > 0x1F {
                    return Err(protocol_error("T=1 S-block type is reserved"));
                }
                let pcb: u8 = 0xC0u8 + (if *response { 0x20u8 } else { 0u8 }) + *kind;
                (pcb, information.as_slice())
            },
        };
        assert(information@ =~= block_information(self@));
        if information.len() > MAX_INFORMATION_LENGTH {
            return Err(protocol_error("T=1 information field exceeds 254 bytes"));
        }
        let mut encoded: Vec<u8> = Vec::new();
        encoded.push(0);
        encoded.push(pcb);
        encoded.push(information.len() as u8);
        append_bytes(&mut encoded, information);
        let ghost frame = encoded@;
        assert(frame =~= seq![0u8, pcb, information@.len() as u8] + information@);
        let check = xor_fold(encoded.as_slice());
        encoded.push(check);
        assert(encoded@ =~= (seq![0u8, pcb, information@.len() as u8] + information@).push(
            xor_all(seq![0u8, pcb, information@.len() as u8] + information@),
        ));
        Ok(encoded)
    }

    /// Decode one received block, requiring a zero NAD, a matching LEN, and a zero LRC.
    pub fn decode(bytes: &[u8]) -> (result: Result<Block>)
        ensures
            match result {
                Ok(block) => decode_block(bytes@) == Some(block@),
                Err(error) => decode_block(bytes@) is None && error.category()
                    == ErrorKind::Protocol && error.text() == decode_error(bytes@),
            },
    {
        if bytes.len() < 1 {
            return Err(protocol_error("T=1 block is truncated"));
        }
        if bytes[0] != 0 {
            return Err(protocol_error("T=1 non-zero NAD is not negotiated"));
        }
        if bytes.len() < 2 {
            return Err(protocol_error("T=1 PCB is truncated"));
        }
        let pcb = bytes[1];
        if bytes.len() < 3 {
            return Err(protocol_error("T=1 LEN is truncated"));
        }
        let length = bytes[2] as usize;
        let expected = 3 + length + 1;
        if bytes.len() != expected || xor_fold(bytes) != 0 {
            return Err(protocol_error("T=1 block length or LRC is invalid"));
        }
        let information = copy_range(bytes, 3, 3 + length);
        if pcb & 0x80 == 0 {
            Ok(Block::I { sequence: pcb & 0x40 != 0, more: pcb & 0x20 != 0, information })
        } else if pcb & 0xC0 == 0x80 {
            if information.len() != 0 || pcb & 0x2C != 0 {
                return Err(protocol_error("T=1 R-block contains reserved fields"));
            }
            Ok(Block::R { sequence: pcb & 0x10 != 0, error: pcb & 0x03 })
        } else {
            Ok(Block::S { response: pcb & 0x20 != 0, kind: pcb & 0x1F, information })
        }
    }
}

/// Every encodable block decodes back to itself.
pub proof fn block_encode_then_decode(block: BlockView)
    requires
        encode_block(block) is Some,
    ensures
        decode_block(encode_block(block)->Some_0) == Some(block),
{
    let pcb = block_pcb(block)->Some_0;
    let information = block_information(block);
    let frame = seq![0u8, pcb, information.len() as u8] + information;
    let b = frame.push(xor_all(frame));
    lemma_xor_with_check(frame);
    assert(b.subrange(3, 3 + information.len() as int) =~= information);
    match block {
        BlockView::I { sequence, more, .. } => {
            assert(pcb & 0x80 == 0 && (pcb & 0x40 != 0) == sequence && (pcb & 0x20 != 0) == more)
                by {
                if sequence && more {
                    assert(0x60u8 & 0x80 == 0 && 0x60u8 & 0x40 != 0 && 0x60u8 & 0x20 != 0)
                        by (bit_vector);
                } else if sequence {
                    assert(0x40u8 & 0x80 == 0 && 0x40u8 & 0x40 != 0 && 0x40u8 & 0x20 == 0)
                        by (bit_vector);
                } else if more {
                    assert(0x20u8 & 0x80 == 0 && 0x20u8 & 0x40 == 0 && 0x20u8 & 0x20 != 0)
                        by (bit_vector);
                } else {
                    assert(0u8 & 0x80 == 0 && 0u8 & 0x40 == 0 && 0u8 & 0x20 == 0) by (bit_vector);
                }
            }
        },
        BlockView::R { sequence, error } => {
            let s: u8 = if sequence {
                0x10
            } else {
                0
            };
            assert(pcb == 0x80u8 + s + error);
            assert(error <= 3 && (s == 0 || s == 0x10) ==> {
                let p = (0x80u8 + s + error) as u8;
                &&& p & 0x80 != 0
                &&& p & 0xC0 == 0x80
                &&& p & 0x2C == 0
                &&& (p & 0x10 != 0) == (s == 0x10)
                &&& p & 0x03 == error
            }) by (bit_vector);
        },
        BlockView::S { response, kind, .. } => {
            let r: u8 = if response {
                0x20
            } else {
                0
            };
            assert(pcb == 0xC0u8 + r + kind);
            assert(kind <= 0x1F && (r == 0 || r == 0x20) ==> {
                let p = (0xC0u8 + r + kind) as u8;
                &&& p & 0x80 != 0
                &&& p & 0xC0 != 0x80
                &&& (p & 0x20 != 0) == (r == 0x20)
                &&& p & 0x1F == kind
            }) by (bit_vector);
        },
    }
    assert(decode_block(b) =~= Some(block));
}

// ---------------------------------------------------------------------------------------
// Conversation machine
// ---------------------------------------------------------------------------------------

/// Where a conversation stands.
#[derive(Clone, Copy, Debug, PartialEq, Eq, Structural)]
pub enum Phase {
    Sending,
    Receiving,
    Complete,
}

/// The next transport-independent step in a T=1 APDU exchange.
#[derive(Clone, Debug, PartialEq, Eq)]
pub enum T1Action {
    /// Transmit this encoded block.
    Send(Vec<u8>),
    /// The complete response APDU.
    Complete(Vec<u8>),
}

/// The content of an action.
pub enum ActionView {
    Send(Seq<u8>),
    Complete(Seq<u8>),
}

impl View for T1Action {
    type V = ActionView;

    open spec fn view(&self) -> ActionView {
        match self {
            T1Action::Send(bytes) => ActionView::Send(bytes@),
            T1Action::Complete(bytes) => ActionView::Complete(bytes@),
        }
    }
}

/// The state of a conversation.
pub struct MachineView {
    pub command: Seq<u8>,
    pub offset: int,
    pub ifsc: int,
    pub send_sequence: bool,
    pub receive_sequence: bool,
    pub phase: Phase,
    pub last_sent: Seq<u8>,
    pub response: Seq<u8>,
}

/// The conditions every conversation keeps.
pub open spec fn machine_wf(m: MachineView) -> bool {
    &&& 1 <= m.command.len()
    &&& 0 <= m.offset <= m.command.len()
    &&& 1 <= m.ifsc <= 254
    &&& m.phase != Phase::Sending ==> m.offset == m.command.len()
}

/// Record `block` as the last block sent and send it.
pub open spec fn spec_send(m: MachineView, block: BlockView) -> (MachineView, ActionView) {
    let encoded = encode_block(block)->Some_0;
    (MachineView { last_sent: encoded, ..m }, ActionView::Send(encoded))
}

/// The end of the next command chunk.
pub open spec fn chunk_end(m: MachineView) -> int {
    if m.offset + m.ifsc < m.command.len() {
        m.offset + m.ifsc
    } else {
        m.command.len() as int
    }
}

/// Send the next chunk of the command as an I-block.
pub open spec fn spec_send_next(m: MachineView) -> (MachineView, ActionView) {
    let end = chunk_end(m);
    spec_send(
        MachineView { offset: end, ..m },
        BlockView::I {
            sequence: m.send_sequence,
            more: end < m.command.len(),
            information: m.command.subrange(m.offset, end),
        },
    )
}

/// Starting a conversation: the first command chunk, or `None` when already started.
pub open spec fn spec_start(m: MachineView) -> Option<(MachineView, ActionView)> {
    if m.offset != 0 || m.phase != Phase::Sending {
        None
    } else {
        Some(spec_send_next(m))
    }
}

/// Whether a block is a waiting-time extension request.
pub open spec fn is_wtx_request(block: BlockView) -> bool {
    block matches BlockView::S { response, kind, .. } && !response && kind == S_WTX
}

/// Accepting one received frame: the next state and action, or `None` when the frame is
/// invalid or unexpected, in which case the conversation is left as it was.
pub open spec fn spec_accept(m: MachineView, bytes: Seq<u8>) -> Option<(MachineView, ActionView)> {
    if m.phase == Phase::Complete {
        None
    } else {
        match decode_block(bytes) {
            None => None,
            Some(block) => if is_wtx_request(block) {
                let information = block_information(block);
                if information.len() != 1 || information[0] == 0 {
                    None
                } else {
                    Some(
                        (
                            m,
                            ActionView::Send(
                                encode_block(
                                    BlockView::S { response: true, kind: S_WTX, information },
                                )->Some_0,
                            ),
                        ),
                    )
                }
            } else {
                match block {
                    BlockView::R { sequence, error } => {
                        if m.phase == Phase::Sending && error == 0 && m.offset < m.command.len()
                            && sequence != m.send_sequence {
                            Some(
                                spec_send_next(
                                    MachineView { send_sequence: !m.send_sequence, ..m },
                                ),
                            )
                        } else if m.phase == Phase::Sending && sequence == m.send_sequence {
                            Some((m, ActionView::Send(m.last_sent)))
                        } else {
                            None
                        }
                    },
                    BlockView::I { sequence, more, information } => {
                        if m.phase == Phase::Sending && m.offset < m.command.len() {
                            None
                        } else if sequence != m.receive_sequence {
                            Some(
                                spec_send(
                                    m,
                                    BlockView::R { sequence: m.receive_sequence, error: 0 },
                                ),
                            )
                        } else {
                            let collected = m.response + information;
                            if more {
                                Some(
                                    spec_send(
                                        MachineView {
                                            phase: Phase::Receiving,
                                            response: collected,
                                            receive_sequence: !m.receive_sequence,
                                            ..m
                                        },
                                        BlockView::R { sequence: !m.receive_sequence, error: 0 },
                                    ),
                                )
                            } else {
                                Some(
                                    (
                                        MachineView {
                                            phase: Phase::Complete,
                                            response: Seq::empty(),
                                            ..m
                                        },
                                        ActionView::Complete(collected),
                                    ),
                                )
                            }
                        }
                    },
                    BlockView::S { .. } => None,
                }
            },
        }
    }
}

/// What the refusal of a received frame says, for a frame that `spec_accept` refuses.
pub open spec fn accept_error(m: MachineView, bytes: Seq<u8>) -> Seq<char> {
    if m.phase == Phase::Complete {
        "T=1 conversation is already complete"@
    } else {
        match decode_block(bytes) {
            None => decode_error(bytes),
            Some(block) => if is_wtx_request(block) {
                "T=1 WTX request has an invalid multiplier"@
            } else if block is I {
                "card responded before all chained T=1 command blocks were sent"@
            } else {
                "unexpected T=1 block for conversation state"@
            },
        }
    }
}

/// Response chaining: an I-block from the card with the expected sequence number and the
/// more bit set, once every command block is sent, is acknowledged with an R-block that asks
/// for the next I-block, whose sequence number is the other one; its information is kept,
/// and the conversation goes on receiving.
pub proof fn a_chained_response_block_asks_for_the_next(
    m: MachineView,
    bytes: Seq<u8>,
    sequence: bool,
    information: Seq<u8>,
)
    requires
        machine_wf(m),
        m.phase != Phase::Complete,
        !(m.phase == Phase::Sending && m.offset < m.command.len()),
        decode_block(bytes) == Some(BlockView::I { sequence, more: true, information }),
        sequence == m.receive_sequence,
    ensures
        spec_accept(m, bytes) matches Some((next, ActionView::Send(sent))) && decode_block(sent)
            == Some(BlockView::R { sequence: !sequence, error: 0 }) && next.receive_sequence
            == !sequence && next.response == m.response + information && next.phase
            == Phase::Receiving,
{
    let ack = BlockView::R { sequence: !m.receive_sequence, error: 0 };
    assert(encode_block(ack) is Some);
    block_encode_then_decode(ack);
}

/// A response block out of sequence is answered with an R-block naming the sequence number
/// still expected, and nothing is kept from it; the last response block (more bit clear)
/// in sequence completes the exchange with every information field received, in order.
pub proof fn response_blocks_are_taken_in_sequence(
    m: MachineView,
    bytes: Seq<u8>,
    sequence: bool,
    more: bool,
    information: Seq<u8>,
)
    requires
        machine_wf(m),
        m.phase != Phase::Complete,
        !(m.phase == Phase::Sending && m.offset < m.command.len()),
        decode_block(bytes) == Some(BlockView::I { sequence, more, information }),
    ensures
        sequence != m.receive_sequence ==> (spec_accept(m, bytes) matches Some(
            (next, ActionView::Send(sent)),
        ) && decode_block(sent) == Some(BlockView::R { sequence: m.receive_sequence, error: 0 })
            && next.response == m.response && next.receive_sequence == m.receive_sequence),
        sequence == m.receive_sequence && !more ==> (spec_accept(m, bytes) matches Some(
            (next, ActionView::Complete(response)),
        ) && response == m.response + information && next.phase == Phase::Complete),
{
    let ack = BlockView::R { sequence: m.receive_sequence, error: 0 };
    assert(encode_block(ack) is Some);
    block_encode_then_decode(ack);
}

/// One APDU conversation over T=1 with LRC error detection.
#[derive(Debug)]
pub struct T1Machine {
    command: Vec<u8>,
    offset: usize,
    ifsc: usize,
    send_sequence: bool,
    receive_sequence: bool,
    phase: Phase,
    last_sent: Vec<u8>,
    response: Vec<u8>,
}

impl View for T1Machine {
    type V = MachineView;

    closed spec fn view(&self) -> MachineView {
        MachineView {
            command: self.command@,
            offset: self.offset as int,
            ifsc: self.ifsc as int,
            send_sequence: self.send_sequence,
            receive_sequence: self.receive_sequence,
            phase: self.phase,
            last_sent: self.last_sent@,
            response: self.response@,
        }
    }
}

impl T1Machine {
    /// Start a conversation for `command` with the card's information field size.
    pub fn new(command: Vec<u8>, ifsc: u8) -> (result: Result<Self>)
        ensures
            match result {
                Ok(machine) => command@.len() >= 1 && 1 <= ifsc <= 254 && machine_wf(machine@)
                    && machine@ == (MachineView {
                    command: command@,
                    offset: 0,
                    ifsc: ifsc as int,
                    send_sequence: false,
                    receive_sequence: false,
                    phase: Phase::Sending,
                    last_sent: Seq::empty(),
                    response: Seq::empty(),
                }),
                Err(error) => if command@.len() == 0 {
                    error.category() == ErrorKind::InvalidInput && error.text()
                        == "T=1 cannot exchange an empty APDU"@
                } else {
                    !(1 <= ifsc <= 254) && error.category() == ErrorKind::Protocol
                        && error.text() == "T=1 IFSC must be in 1..=254"@
                },
            },
    {
        if command.len() == 0 {
            return Err(Error::new(ErrorKind::InvalidInput, "T=1 cannot exchange an empty APDU"));
        }
        if ifsc == 0 || ifsc as usize > MAX_INFORMATION_LENGTH {
            return Err(protocol_error("T=1 IFSC must be in 1..=254"));
        }
        Ok(
            T1Machine {
                command,
                offset: 0,
                ifsc: ifsc as usize,
                send_sequence: false,
                receive_sequence: false,
                phase: Phase::Sending,
                last_sent: Vec::new(),
                response: Vec::new(),
            },
        )
    }

    /// Send the first command block.
    pub fn start(&mut self) -> (result: Result<T1Action>)
        requires
            machine_wf(old(self)@),
        ensures
            machine_wf(final(self)@),
            match spec_start(old(self)@) {
                Some((next, action)) => result matches Ok(sent) && sent@ == action && final(self)@ == next,
                None => result matches Err(error) && error.category() == ErrorKind::Protocol
                    && error.text() == "T=1 conversation was already started"@
                    && final(self)@ == old(self)@,
            },
    {
        if self.offset != 0 || self.phase != Phase::Sending {
            return Err(protocol_error("T=1 conversation was already started"));
        }
        self.send_next_command_block()
    }

    /// Accept one block received from the card.
    pub fn accept(&mut self, bytes: &[u8]) -> (result: Result<T1Action>)
        requires
            machine_wf(old(self)@),
        ensures
            machine_wf(final(self)@),
            match spec_accept(old(self)@, bytes@) {
                Some((next, action)) => result matches Ok(sent) && sent@ == action && final(self)@ == next,
                None => result matches Err(error) && error.category() == ErrorKind::Protocol
                    && error.text() == accept_error(old(self)@, bytes@) && final(self)@ == old(
                    self,
                )@,
            },
    {
        if self.phase == Phase::Complete {
            return Err(protocol_error("T=1 conversation is already complete"));
        }
        let block = Block::decode(bytes)?;
        let wtx = match &block {
            Block::S { response, kind, .. } => !*response && *kind == S_WTX,
            _ => false,
        };
        if wtx {
            let information = match &block {
                Block::S { information, .. } => copy_range(
                    information.as_slice(),
                    0,
                    information.len(),
                ),
                _ => Vec::new(),
            };
            assert(information@ =~= block_information(block@));
            if information.len() != 1 || information[0] == 0 {
                return Err(protocol_error("T=1 WTX request has an invalid multiplier"));
            }
            let reply = Block::S { response: true, kind: S_WTX, information };
            let encoded = reply.encode()?;
            return Ok(T1Action::Send(encoded));
        }
        match block {
            Block::R { sequence, error } => {
                if self.phase == Phase::Sending && error == 0 && self.offset < self.command.len()
                    && sequence != self.send_sequence {
                    self.send_sequence = !self.send_sequence;
                    return self.send_next_command_block();
                }
                if self.phase == Phase::Sending && sequence == self.send_sequence {
                    let resend = copy_range(self.last_sent.as_slice(), 0, self.last_sent.len());
                    assert(resend@ =~= self.last_sent@);
                    return Ok(T1Action::Send(resend));
                }
                Err(protocol_error("unexpected T=1 block for conversation state"))
            },
            Block::I { sequence, more, information } => {
                if self.phase == Phase::Sending && self.offset < self.command.len() {
                    return Err(
                        protocol_error(
                            "card responded before all chained T=1 command blocks were sent",
                        ),
                    );
                }
                if sequence != self.receive_sequence {
                    let ack = Block::R { sequence: self.receive_sequence, error: 0 };
                    return self.send(&ack);
                }
                self.phase = Phase::Receiving;
                append_bytes(&mut self.response, information.as_slice());
                if more {
                    self.receive_sequence = !self.receive_sequence;
                    let ack = Block::R { sequence: self.receive_sequence, error: 0 };
                    self.send(&ack)
                } else {
                    self.phase = Phase::Complete;
                    let mut collected: Vec<u8> = Vec::new();
                    std::mem::swap(&mut collected, &mut self.response);
                    Ok(T1Action::Complete(collected))
                }
            },
            Block::S { .. } => Err(protocol_error("unexpected T=1 block for conversation state")),
        }
    }

    /// The state of the conversation.
    pub fn phase(&self) -> (phase: Phase)
        ensures
            phase == self@.phase,
    {
        self.phase
    }

    fn send_next_command_block(&mut self) -> (result: Result<T1Action>)
        requires
            machine_wf(old(self)@),
            old(self)@.phase == Phase::Sending,
        ensures
            result matches Ok(sent) && (final(self)@, sent@) == spec_send_next(old(self)@),
            machine_wf(final(self)@),
    {
        let end = if self.ifsc < self.command.len() - self.offset {
            self.offset + self.ifsc
        } else {
            self.command.len()
        };
        let information = copy_range(self.command.as_slice(), self.offset, end);
        let more = end < self.command.len();
        let sequence = self.send_sequence;
        self.offset = end;
        self.send(&Block::I { sequence, more, information })
    }

    fn send(&mut self, block: &Block) -> (result: Result<T1Action>)
        requires
            machine_wf(old(self)@),
            encode_block(block@) is Some,
        ensures
            result matches Ok(sent) && (final(self)@, sent@) == spec_send(old(self)@, block@),
            machine_wf(final(self)@),
    {
        let encoded = match block.encode() {
            Ok(encoded) => encoded,
            Err(error) => {
                return Err(error);
            },
        };
        self.last_sent = copy_range(encoded.as_slice(), 0, encoded.len());
        assert(self.last_sent@ =~= encoded@);
        Ok(T1Action::Send(encoded))
    }
}

/// A waiting-time extension request is answered with its multiplier and leaves the
/// conversation where it was.
pub proof fn wtx_leaves_conversation_unchanged(m: MachineView, bytes: Seq<u8>)
    requires
        m.phase != Phase::Complete,
        decode_block(bytes) matches Some(block) && is_wtx_request(block)
            && block_information(block).len() == 1 && block_information(block)[0] != 0,
    ensures
        spec_accept(m, bytes) matches Some((next, ActionView::Send(reply))) && next == m
            && decode_block(reply) == Some(
            BlockView::S {
                response: true,
                kind: S_WTX,
                information: block_information(decode_block(bytes)->Some_0),
            },
        ),
{
    let information = block_information(decode_block(bytes)->Some_0);
    block_encode_then_decode(BlockView::S { response: true, kind: S_WTX, information });
}

/// Every step keeps the conversation well formed, only moves the command offset forward,
/// and completes only after the whole command was sent.
pub proof fn conversation_steps_keep_invariants(m: MachineView, bytes: Seq<u8>)
    requires
        machine_wf(m),
    ensures
        spec_accept(m, bytes) matches Some((next, _)) ==> machine_wf(next) && m.offset
            <= next.offset && next.command == m.command && (next.phase == Phase::Complete
            ==> next.offset == next.command.len()),
        spec_start(m) matches Some((next, _)) ==> machine_wf(next) && m.offset <= next.offset,
{
}

} // verus!
