//! The decisions behind the public entry points: reader identity, backend selection, the
//! automatic `6Cxx`/`61xx` transmit policy, presence changes, and transaction nesting.

use vstd::prelude::*;
use vstd::string::StringSliceAdditionalSpecFns;

use crate::diagnostics::{BackendKind, Capabilities};
use crate::error::{Error, ErrorKind, Result};
use crate::text::{lower_hex, push_lower_hex, string_from_chars};
use crate::model::{
    command_with_expected, header_command, Command, CommandView, Response, ResponseView,
};

verus! {

/// The FNV-1a 64-bit offset basis.
pub const FNV_OFFSET: u64 = 0xcbf2_9ce4_8422_2325;

/// The FNV-1a 64-bit prime.
pub const FNV_PRIME: u64 = 0x0000_0100_0000_01B3;

/// One FNV-1a step: mix a byte in, then multiply by the prime modulo 2^64.
pub open spec fn fnv_step(hash: u64, byte: u8) -> u64 {
    (((hash ^ (byte as u64)) as nat * FNV_PRIME as nat) % 0x1_0000_0000_0000_0000nat) as u64
}

/// Fold FNV-1a steps over a byte sequence.
pub open spec fn fnv_fold(hash: u64, bytes: Seq<u8>) -> u64
    decreases bytes.len(),
{
    if bytes.len() == 0 {
        hash
    } else {
        fnv_step(fnv_fold(hash, bytes.drop_last()), bytes.last())
    }
}

/// The tag each backend mixes in before the reader name.
pub open spec fn backend_tag(backend: BackendKind) -> u8 {
    match backend {
        BackendKind::NativeUsb => 1,
        BackendKind::Pcsc => 2,
        BackendKind::Virtual => 3,
    }
}

/// The identity of a reader called `name` (as UTF-8) under `backend`.
pub open spec fn reader_id_hash(backend: BackendKind, name: Seq<u8>) -> u64 {
    fnv_fold(fnv_step(FNV_OFFSET, backend_tag(backend)), name)
}

/// A stable identifier within one machine and backend configuration.
#[derive(Clone, Copy, Debug, PartialEq, Eq, Hash, PartialOrd, Ord, Structural)]
pub struct ReaderId(u64);

impl View for ReaderId {
    type V = u64;

    closed spec fn view(&self) -> u64 {
        self.0
    }
}

fn fnv_mix(hash: u64, byte: u8) -> (next: u64)
    ensures
        next == fnv_step(hash, byte),
{
    (hash ^ byte as u64).wrapping_mul(FNV_PRIME)
}

impl ReaderId {
    /// The deterministic identity of a reader name within one backend.
    pub fn from_name(backend: BackendKind, name: &str) -> (id: Self)
        ensures
            id@ == reader_id_hash(backend, name.spec_bytes()),
    {
        let tag: u8 = match backend {
            BackendKind::NativeUsb => 1,
            BackendKind::Pcsc => 2,
            BackendKind::Virtual => 3,
        };
        let bytes = name.as_bytes();
        let mut hash = fnv_mix(FNV_OFFSET, tag);
        let mut index: usize = 0;
        while index < bytes.len()
            invariant
                index <= bytes@.len(),
                hash == fnv_fold(fnv_step(FNV_OFFSET, tag), bytes@.subrange(0, index as int)),
            decreases bytes@.len() - index,
        {
            assert(bytes@.subrange(0, index as int + 1).drop_last() =~= bytes@.subrange(
                0,
                index as int,
            ));
            hash = fnv_mix(hash, bytes[index]);
            index = index + 1;
        }
        assert(bytes@.subrange(0, bytes@.len() as int) =~= bytes@);
        ReaderId(hash)
    }

    /// The raw 64-bit identity.
    pub fn as_u64(self) -> (value: u64)
        ensures
            value == self@,
    {
        self.0
    }

    /// The identity as sixteen lower-case hexadecimal digits, as it is displayed.
    pub fn to_hex(self) -> (text: String)
        ensures
            text@ == lower_hex(self@ as nat, 16),
    {
        let mut chars: Vec<char> = Vec::new();
        push_lower_hex(&mut chars, self.0, 16);
        assert(chars@ =~= lower_hex(self@ as nat, 16));
        string_from_chars(chars.as_slice())
    }
}


/// The multiplicative inverse of the FNV prime modulo 2^64.
pub const FNV_PRIME_INVERSE: u64 = 0xce96_5057_aff6_957b;

/// One FNV-1a step is injective in the running hash.
pub proof fn lemma_fnv_step_injective(a: u64, b: u64, byte: u8)
    requires
        fnv_step(a, byte) == fnv_step(b, byte),
    ensures
        a == b,
{
    let x = a ^ (byte as u64);
    let y = b ^ (byte as u64);
    assert(((x as nat * FNV_PRIME as nat) % 0x1_0000_0000_0000_0000nat) as u64 == ((y as nat
        * FNV_PRIME as nat) % 0x1_0000_0000_0000_0000nat) as u64);
    lemma_prime_has_inverse(x);
    lemma_prime_has_inverse(y);
    assert(x == y);
    assert(a == x ^ (byte as u64)) by (bit_vector)
        requires
            x == a ^ (byte as u64),
    ;
    assert(b == y ^ (byte as u64)) by (bit_vector)
        requires
            y == b ^ (byte as u64),
    ;
}

/// Multiplying by the FNV prime and then by its inverse, modulo 2^64, is the identity.
pub proof fn lemma_prime_has_inverse(x: u64)
    ensures
        ((((x as nat * FNV_PRIME as nat) % 0x1_0000_0000_0000_0000nat) * FNV_PRIME_INVERSE as nat)
            % 0x1_0000_0000_0000_0000nat) == x as nat,
{
    let m: int = 0x1_0000_0000_0000_0000;
    let p: int = FNV_PRIME as int;
    let q: int = FNV_PRIME_INVERSE as int;
    assert((p * q) % m == 1) by (nonlinear_arith)
        requires
            p == 0x0000_0100_0000_01B3,
            q == 0xce96_5057_aff6_957b,
            m == 0x1_0000_0000_0000_0000,
    ;
    vstd::arithmetic::div_mod::lemma_mul_mod_noop_left(x as int * p, q, m);
    vstd::arithmetic::mul::lemma_mul_is_associative(x as int, p, q);
    vstd::arithmetic::div_mod::lemma_mul_mod_noop_right(x as int, p * q, m);
    vstd::arithmetic::div_mod::lemma_small_mod(x as nat, m as nat);
}

/// Folding FNV-1a steps over the same bytes keeps distinct starting hashes distinct.
pub proof fn lemma_fnv_fold_injective(a: u64, b: u64, bytes: Seq<u8>)
    requires
        a != b,
    ensures
        fnv_fold(a, bytes) != fnv_fold(b, bytes),
    decreases bytes.len(),
{
    if bytes.len() > 0 {
        lemma_fnv_fold_injective(a, b, bytes.drop_last());
        if fnv_fold(a, bytes) == fnv_fold(b, bytes) {
            lemma_fnv_step_injective(
                fnv_fold(a, bytes.drop_last()),
                fnv_fold(b, bytes.drop_last()),
                bytes.last(),
            );
        }
    }
}

/// Reader identities are backend scoped: the same reader name under two different backends
/// never yields the same identity.
pub proof fn reader_ids_are_backend_scoped(first: BackendKind, second: BackendKind, name: Seq<u8>)
    requires
        first != second,
    ensures
        reader_id_hash(first, name) != reader_id_hash(second, name),
{
    let a = FNV_OFFSET ^ (backend_tag(first) as u64);
    let b = FNV_OFFSET ^ (backend_tag(second) as u64);
    let t1 = backend_tag(first);
    let t2 = backend_tag(second);
    assert(t1 != t2);
    assert(t1 != t2 ==> FNV_OFFSET ^ (t1 as u64) != FNV_OFFSET ^ (t2 as u64)) by (bit_vector);
    if fnv_step(FNV_OFFSET, t1) == fnv_step(FNV_OFFSET, t2) {
        lemma_prime_has_inverse(a);
        lemma_prime_has_inverse(b);
    }
    lemma_fnv_fold_injective(fnv_step(FNV_OFFSET, t1), fnv_step(FNV_OFFSET, t2), name);
}

/// One reader as a backend enumerates it.
#[derive(Clone, Debug)]
pub struct ReaderRecord {
    pub id: ReaderId,
    pub name: String,
    pub backend: BackendKind,
    pub capabilities: Capabilities,
    pub selector: String,
}

/// A record carries the identifier that its backend and selector determine.
pub open spec fn reader_identity(record: ReaderRecord) -> bool {
    record.id@ == reader_id_hash(record.backend, vstd::utf8::encode_utf8(record.selector@))
}

/// A reader is known by its backend and selector alone: two records of one backend with one
/// selector carry the same identifier, so a reader listed again, or connected through its
/// record, keeps its id.
pub proof fn reader_ids_follow_backend_and_selector(first: ReaderRecord, second: ReaderRecord)
    requires
        reader_identity(first),
        reader_identity(second),
        first.backend == second.backend,
        first.selector@ == second.selector@,
    ensures
        first.id == second.id,
{
    assert(first.id.0 == second.id.0);
}

// ---------------------------------------------------------------------------------------
// Backend selection
// ---------------------------------------------------------------------------------------

/// The platform-preferred backend: native USB on Linux, PC/SC elsewhere.
pub fn platform_default(is_linux: bool) -> (backend: BackendKind)
    ensures
        backend == if is_linux {
            BackendKind::NativeUsb
        } else {
            BackendKind::Pcsc
        },
{
    if is_linux {
        BackendKind::NativeUsb
    } else {
        BackendKind::Pcsc
    }
}

/// The intentionally small configuration surface for opening a context.
#[derive(Clone, Copy, Debug, Default, PartialEq, Eq, Structural)]
pub struct ContextBuilder {
    backend: Option<BackendKind>,
}

impl ContextBuilder {
    /// The explicitly selected backend, if any.
    pub closed spec fn selected(&self) -> Option<BackendKind> {
        self.backend
    }

    /// Start with the platform-preferred backend.
    pub fn new() -> (builder: Self)
        ensures
            builder.selected() is None,
    {
        ContextBuilder { backend: None }
    }

    /// Select one built-in backend explicitly.
    pub fn backend(self, backend: BackendKind) -> (builder: Self)
        ensures
            builder.selected() == Some(backend),
    {
        ContextBuilder { backend: Some(backend) }
    }

    /// The built-in backend to open, given the platform default; virtual contexts are only
    /// opened from a testing scenario.
    pub fn resolve(self, platform: BackendKind) -> (result: Result<BackendKind>)
        ensures
            match result {
                Ok(backend) => backend != BackendKind::Virtual && backend == match self.selected() {
                    Some(selected) => selected,
                    None => platform,
                },
                Err(error) => error.category() == ErrorKind::InvalidInput && error.text()
                    == "virtual contexts are created with ccidkit::testing::open"@ && match self.selected() {
                    Some(selected) => selected == BackendKind::Virtual,
                    None => platform == BackendKind::Virtual,
                },
            },
    {
        let backend = match self.backend {
            Some(selected) => selected,
            None => platform,
        };
        match backend {
            BackendKind::Virtual => Err(
                Error::new(
                    ErrorKind::InvalidInput,
                    "virtual contexts are created with ccidkit::testing::open",
                ),
            ),
            other => Ok(other),
        }
    }
}

// ---------------------------------------------------------------------------------------
// Automatic transmit: 6Cxx correction and 61xx GET RESPONSE chaining
// ---------------------------------------------------------------------------------------

/// The most GET RESPONSE commands one automatic transmit issues.
pub const MAX_GET_RESPONSE: u32 = 32;

/// Where an automatic transmit stands.
#[derive(Clone, Copy, Debug, PartialEq, Eq, Structural)]
pub enum AutoStage {
    /// Waiting for the reply to the original command.
    Initial,
    /// Waiting for the reply to the command with the corrected Le.
    Corrected,
    /// Waiting for the reply to a GET RESPONSE.
    Chaining,
    /// The response was delivered.
    Finished,
}

/// The state of an automatic transmit.
pub struct AutoView {
    pub original: CommandView,
    pub stage: AutoStage,
    pub data: Seq<u8>,
    pub get_responses: nat,
}

/// What to do after a reply.
pub enum AutoStepView {
    Send(CommandView),
    Done(ResponseView),
}

/// The GET RESPONSE command for a `61xx` status.
pub open spec fn get_response_command(class: u8, available: u8) -> CommandView {
    command_with_expected(
        header_command(seq![class, 0xC0u8, 0u8, 0u8]),
        if available == 0 {
            256
        } else {
            available as nat
        },
    )
}

/// Decide after the collected data and the latest status: any status but `61xx` ends the
/// exchange with the collected data; a `61xx` status asks for a GET RESPONSE, unless 32 were
/// already sent.
pub open spec fn auto_chain(m: AutoView, data: Seq<u8>, status: u16) -> Option<
    (AutoView, AutoStepView),
> {
    if status / 256 != 0x61 {
        Some(
            (
                AutoView { stage: AutoStage::Finished, data, ..m },
                AutoStepView::Done(ResponseView { data, status }),
            ),
        )
    } else if m.get_responses >= 32 {
        None
    } else {
        Some(
            (
                AutoView {
                    stage: AutoStage::Chaining,
                    data,
                    get_responses: m.get_responses + 1,
                    ..m
                },
                AutoStepView::Send(get_response_command(m.original.class, (status % 256) as u8)),
            ),
        )
    }
}

/// The transition on one reply: the next state and step, or `None` when the card chained
/// more than 32 GET RESPONSE statuses.
pub open spec fn auto_accept(m: AutoView, reply: ResponseView) -> Option<(AutoView, AutoStepView)> {
    let sw1 = reply.status / 256;
    let sw2 = reply.status % 256;
    match m.stage {
        AutoStage::Initial => if sw1 == 0x6C {
            Some(
                (
                    AutoView { stage: AutoStage::Corrected, ..m },
                    AutoStepView::Send(
                        command_with_expected(
                            m.original,
                            if sw2 == 0 {
                                256
                            } else {
                                sw2 as nat
                            },
                        ),
                    ),
                ),
            )
        } else {
            auto_chain(m, reply.data, reply.status)
        },
        AutoStage::Corrected => auto_chain(m, reply.data, reply.status),
        _ => auto_chain(m, m.data + reply.data, reply.status),
    }
}

/// How many more exchanges the policy may still start.
pub open spec fn auto_budget(m: AutoView) -> int {
    match m.stage {
        AutoStage::Initial => 33,
        AutoStage::Corrected => 32,
        AutoStage::Chaining => 32 - m.get_responses,
        AutoStage::Finished => 0,
    }
}

/// The next thing an automatic transmit needs.
#[derive(Debug)]
pub enum AutoStep {
    /// Exchange this command and hand its response back.
    Send(Command),
    /// The collected response.
    Done(Response),
}

/// The automatic transmit policy: one `6Cxx` correction, then up to 32 chained `61xx`
/// GET RESPONSE exchanges whose data is concatenated.
#[derive(Debug)]
pub struct AutoTransmit {
    original: Command,
    stage: AutoStage,
    data: Vec<u8>,
    get_responses: u32,
}

impl View for AutoTransmit {
    type V = AutoView;

    closed spec fn view(&self) -> AutoView {
        AutoView {
            original: self.original@,
            stage: self.stage,
            data: self.data@,
            get_responses: self.get_responses as nat,
        }
    }
}

impl AutoTransmit {
    /// Begin with `command`, which is also the first command to exchange.
    pub fn new(command: Command) -> (state: Self)
        ensures
            state@ == (AutoView {
                original: command@,
                stage: AutoStage::Initial,
                data: Seq::empty(),
                get_responses: 0,
            }),
    {
        AutoTransmit { original: command, stage: AutoStage::Initial, data: Vec::new(), get_responses: 0 }
    }

    /// The command to exchange first.
    pub fn first_command(&self) -> (command: Command)
        ensures
            command@ == self@.original,
    {
        self.original.duplicate()
    }

    /// Whether the response was already delivered.
    pub fn is_finished(&self) -> (finished: bool)
        ensures
            finished == (self@.stage == AutoStage::Finished),
    {
        self.stage == AutoStage::Finished
    }

    /// Take the card's reply and decide the next exchange or the final response.
    pub fn accept(&mut self, reply: Response) -> (result: Result<AutoStep>)
        requires
            old(self)@.stage != AutoStage::Finished,
            old(self)@.get_responses <= 32,
        ensures
            final(self)@.get_responses <= 32,
            match auto_accept(old(self)@, reply@) {
                Some((next, step)) => final(self)@ == next && match (result, step) {
                    (Ok(AutoStep::Send(command)), AutoStepView::Send(expected)) => command@
                        == expected,
                    (Ok(AutoStep::Done(response)), AutoStepView::Done(expected)) => response@
                        == expected,
                    _ => false,
                },
                None => result matches Err(error) && error.category() == ErrorKind::Protocol
                    && error.text() == "card returned more than 32 chained GET RESPONSE statuses"@,
            },
    {
        let status = reply.status();
        let sw1 = (status.as_u16() / 256) as u8;
        let sw2 = (status.as_u16() % 256) as u8;
        if self.stage == AutoStage::Initial && sw1 == 0x6C {
            let corrected: usize = if sw2 == 0 {
                256
            } else {
                sw2 as usize
            };
            let command = match self.original.with_replaced_expected_len(corrected) {
                Ok(command) => command,
                Err(error) => {
                    return Err(error);
                },
            };
            self.stage = AutoStage::Corrected;
            return Ok(AutoStep::Send(command));
        }
        let reply_data = reply.into_data();
        if self.stage == AutoStage::Chaining {
            let mut more = reply_data;
            self.data.append(&mut more);
        } else {
            self.data = reply_data;
        }
        if sw1 != 0x61 {
            self.stage = AutoStage::Finished;
            let mut data: Vec<u8> = Vec::new();
            std::mem::swap(&mut data, &mut self.data);
            let response = Response::new(data, status);
            self.data = crate::bytes::copy_range(response.data(), 0, response.data().len());
            assert(self.data@ =~= response@.data);
            return Ok(AutoStep::Done(response));
        }
        if self.get_responses >= MAX_GET_RESPONSE {
            return Err(
                Error::new(
                    ErrorKind::Protocol,
                    "card returned more than 32 chained GET RESPONSE statuses",
                ),
            );
        }
        let expected: usize = if sw2 == 0 {
            256
        } else {
            sw2 as usize
        };
        let class = self.original.class();
        let command = match Command::new(class, 0xC0, 0, 0).with_expected_len(expected) {
            Ok(command) => command,
            Err(error) => {
                return Err(error);
            },
        };
        self.stage = AutoStage::Chaining;
        self.get_responses = self.get_responses + 1;
        Ok(AutoStep::Send(command))
    }
}

/// Every exchange the policy asks for consumes budget, so one automatic transmit performs
/// at most 34 exchanges: the original, one correction, and 32 GET RESPONSE commands.
pub proof fn auto_transmit_is_bounded(m: AutoView, reply: ResponseView)
    requires
        m.stage != AutoStage::Finished,
        m.get_responses <= 32,
    ensures
        auto_budget(m) <= 33,
        auto_accept(m, reply) matches Some((next, AutoStepView::Send(_))) ==> 0 <= auto_budget(
            next,
        ) < auto_budget(m),
        auto_accept(m, reply) matches Some((next, AutoStepView::Done(_))) ==> next.stage
            == AutoStage::Finished,
{
}

/// A status other than `6Cxx` on the first reply, and other than `61xx` afterwards, is
/// delivered as it came: the caller sees every status word as data.
pub proof fn auto_transmit_returns_final_status(m: AutoView, reply: ResponseView)
    requires
        m.stage != AutoStage::Finished,
        m.get_responses <= 32,
        reply.status / 256 != 0x61,
        !(m.stage == AutoStage::Initial && reply.status / 256 == 0x6C),
    ensures
        auto_accept(m, reply) matches Some((_, AutoStepView::Done(response))) && response.status
            == reply.status,
{
}

/// The steps an automatic transmit takes on a run of replies, one step per reply, or `None`
/// when a reply is refused.
pub open spec fn auto_run(m: AutoView, replies: Seq<ResponseView>) -> Option<Seq<AutoStepView>>
    decreases replies.len(),
{
    if replies.len() == 0 {
        Some(Seq::empty())
    } else {
        match auto_accept(m, replies[0]) {
            None => None,
            Some((next, step)) => match auto_run(next, replies.drop_first()) {
                None => None,
                Some(steps) => Some(seq![step] + steps),
            },
        }
    }
}

/// The data of a run of replies, in order.
pub open spec fn chained_data(replies: Seq<ResponseView>) -> Seq<u8>
    decreases replies.len(),
{
    if replies.len() == 0 {
        Seq::empty()
    } else {
        replies[0].data + chained_data(replies.drop_first())
    }
}

/// The GET RESPONSE commands that answer a run of `61xx` replies.
pub open spec fn get_responses_for(class: u8, replies: Seq<ResponseView>) -> Seq<AutoStepView> {
    replies.map_values(
        |r: ResponseView| AutoStepView::Send(get_response_command(class, (r.status % 256) as u8)),
    )
}

/// A chain: `61xx` replies, then one reply with any other status.
pub open spec fn is_chain(replies: Seq<ResponseView>) -> bool {
    &&& replies.len() >= 1
    &&& forall|i: int| 0 <= i < replies.len() - 1 ==> #[trigger] replies[i].status / 256 == 0x61
    &&& replies.last().status / 256 != 0x61
}

/// What a chain comes to: a GET RESPONSE for each `61xx` reply, then the response that
/// joins the data of every reply, with the last reply's status.
pub open spec fn chain_steps(class: u8, prefix: Seq<u8>, replies: Seq<ResponseView>) -> Seq<
    AutoStepView,
> {
    get_responses_for(class, replies.drop_last()) + seq![
        AutoStepView::Done(
            ResponseView { data: prefix + chained_data(replies), status: replies.last().status },
        ),
    ]
}

proof fn lemma_chain_run(m: AutoView, replies: Seq<ResponseView>)
    requires
        m.stage == AutoStage::Chaining,
        is_chain(replies),
        m.get_responses + replies.len() <= 33,
    ensures
        auto_run(m, replies) == Some(chain_steps(m.original.class, m.data, replies)),
    decreases replies.len(),
{
    let first = replies[0];
    let rest = replies.drop_first();
    if replies.len() == 1 {
        assert(first.status / 256 != 0x61);
        assert(auto_run(auto_accept(m, first)->Some_0.0, rest) == Some(Seq::<AutoStepView>::empty()));
        assert(chained_data(rest) =~= Seq::<u8>::empty());
        assert(chained_data(replies) == first.data + chained_data(rest));
        assert(chained_data(replies) =~= first.data);
        assert(get_responses_for(m.original.class, replies.drop_last()) =~= Seq::<AutoStepView>::empty());
        assert(auto_run(m, replies) =~= Some(chain_steps(m.original.class, m.data, replies)));
    } else {
        assert(first.status / 256 == 0x61);
        let next = AutoView {
            stage: AutoStage::Chaining,
            data: m.data + first.data,
            get_responses: m.get_responses + 1,
            ..m
        };
        assert(auto_accept(m, first) == Some((next, AutoStepView::Send(get_response_command(m.original.class, (first.status % 256) as u8)))));
        assert forall|i: int| 0 <= i < rest.len() - 1 implies #[trigger] rest[i].status / 256 == 0x61 by {
            assert(rest[i] == replies[i + 1]);
        }
        assert(rest.last() == replies.last());
        lemma_chain_run(next, rest);
        assert(m.data + first.data + chained_data(rest) =~= m.data + chained_data(replies));
        assert(get_responses_for(m.original.class, replies.drop_last()) =~= seq![
            AutoStepView::Send(get_response_command(m.original.class, (first.status % 256) as u8)),
        ] + get_responses_for(m.original.class, rest.drop_last()));
        assert(auto_run(m, replies) =~= Some(chain_steps(m.original.class, m.data, replies)));
    }
}

/// A chain of at most 33 replies (so at most 32 GET RESPONSE commands) to the original command (whose first status is not `6Cxx`)
/// or to its corrected form: the policy sends a GET RESPONSE for each `61xx` status, with
/// the Le it names, and delivers the data of every reply joined in order with the last
/// status, whatever that status is.
pub proof fn auto_transmit_collects_a_chain(m: AutoView, replies: Seq<ResponseView>)
    requires
        m.stage == AutoStage::Corrected || (m.stage == AutoStage::Initial && replies.len() >= 1
            && replies[0].status / 256 != 0x6C),
        m.get_responses == 0,
        is_chain(replies),
        replies.len() <= 33,
    ensures
        auto_run(m, replies) == Some(chain_steps(m.original.class, Seq::empty(), replies)),
{
    let first = replies[0];
    let rest = replies.drop_first();
    if replies.len() == 1 {
        assert(first.status / 256 != 0x61);
        assert(chained_data(rest) =~= Seq::<u8>::empty());
        assert(chained_data(replies) == first.data + chained_data(rest));
        assert(chained_data(replies) =~= first.data);
        assert(get_responses_for(m.original.class, replies.drop_last()) =~= Seq::<AutoStepView>::empty());
        assert(Seq::<u8>::empty() + chained_data(replies) =~= first.data);
        assert(auto_run(auto_accept(m, first)->Some_0.0, rest) == Some(Seq::<AutoStepView>::empty()));
        assert(auto_run(m, replies) =~= Some(chain_steps(m.original.class, Seq::empty(), replies)));
    } else {
        assert(first.status / 256 == 0x61);
        let next = AutoView {
            stage: AutoStage::Chaining,
            data: first.data,
            get_responses: 1,
            ..m
        };
        assert(auto_accept(m, first) == Some((next, AutoStepView::Send(get_response_command(m.original.class, (first.status % 256) as u8)))));
        assert forall|i: int| 0 <= i < rest.len() - 1 implies #[trigger] rest[i].status / 256 == 0x61 by {
            assert(rest[i] == replies[i + 1]);
        }
        assert(rest.last() == replies.last());
        lemma_chain_run(next, rest);
        assert(auto_run(next, rest) == Some(chain_steps(m.original.class, first.data, rest)));
        assert(auto_run(m, replies) == Some(
            seq![AutoStepView::Send(get_response_command(m.original.class, (first.status % 256) as u8))]
                + chain_steps(m.original.class, first.data, rest),
        ));
        assert(chained_data(replies) == first.data + chained_data(rest));
        assert(first.data + chained_data(rest) =~= Seq::<u8>::empty() + chained_data(replies));
        assert(get_responses_for(m.original.class, replies.drop_last()) =~= seq![
            AutoStepView::Send(get_response_command(m.original.class, (first.status % 256) as u8)),
        ] + get_responses_for(m.original.class, rest.drop_last()));
        assert(auto_run(m, replies) =~= Some(chain_steps(m.original.class, Seq::empty(), replies)));
    }
}

/// A wrong-length status on the first reply is corrected exactly once: the original command
/// is sent again with the Le the status names (256 for `6C00`), and what follows is the
/// chain of replies to it, a further `6Cxx` status being delivered as it came.
pub proof fn auto_transmit_corrects_once(
    command: CommandView,
    first: ResponseView,
    replies: Seq<ResponseView>,
)
    requires
        first.status / 256 == 0x6C,
        is_chain(replies),
        replies.len() <= 33,
    ensures
        ({
            let start = AutoView {
                original: command,
                stage: AutoStage::Initial,
                data: Seq::empty(),
                get_responses: 0,
            };
            let corrected = command_with_expected(
                command,
                if first.status % 256 == 0 {
                    256
                } else {
                    (first.status % 256) as nat
                },
            );
            auto_run(start, seq![first] + replies) == Some(
                seq![AutoStepView::Send(corrected)] + chain_steps(
                    command.class,
                    Seq::empty(),
                    replies,
                ),
            )
        }),
{
    let start = AutoView {
        original: command,
        stage: AutoStage::Initial,
        data: Seq::empty(),
        get_responses: 0,
    };
    let next = AutoView { stage: AutoStage::Corrected, ..start };
    auto_transmit_collects_a_chain(next, replies);
    assert((seq![first] + replies).drop_first() =~= replies);
    assert((seq![first] + replies)[0] == first);
}

// ---------------------------------------------------------------------------------------
// Presence changes and transaction nesting
// ---------------------------------------------------------------------------------------

/// A change the monitor reports.
#[derive(Clone, Copy, Debug, PartialEq, Eq, Structural)]
pub enum PresenceChange {
    ReaderAdded(ReaderId),
    ReaderRemoved(ReaderId),
    CardInserted(ReaderId),
    CardRemoved(ReaderId),
}

/// A scripted card-presence event of a virtual reader.
#[derive(Clone, Copy, Debug, PartialEq, Eq, Structural)]
pub enum VirtualEvent {
    Inserted,
    Removed,
}

/// `id` is the least identity in `ids` that is missing from `other`.
pub open spec fn least_missing(ids: Seq<ReaderId>, other: Seq<ReaderId>, id: ReaderId) -> bool {
    &&& ids.contains(id)
    &&& !other.contains(id)
    &&& forall|i: int| 0 <= i < ids.len() && !other.contains(ids[i]) ==> id@ <= ids[i]@
}

/// Whether some identity in `ids` is missing from `other`.
pub open spec fn some_missing(ids: Seq<ReaderId>, other: Seq<ReaderId>) -> bool {
    exists|i: int| 0 <= i < ids.len() && !other.contains(ids[i])
}

fn contains_id(ids: &Vec<ReaderId>, id: ReaderId) -> (found: bool)
    ensures
        found == ids@.contains(id),
{
    let mut index: usize = 0;
    while index < ids.len()
        invariant
            index <= ids@.len(),
            forall|i: int| 0 <= i < index ==> ids@[i] != id,
        decreases ids@.len() - index,
    {
        if ids[index].0 == id.0 {
            assert(ids@[index as int] == id);
            return true;
        }
        index = index + 1;
    }
    false
}

fn least_missing_id(ids: &Vec<ReaderId>, other: &Vec<ReaderId>) -> (found: Option<ReaderId>)
    ensures
        match found {
            Some(id) => least_missing(ids@, other@, id),
            None => !some_missing(ids@, other@),
        },
{
    let mut best: Option<ReaderId> = None;
    let mut index: usize = 0;
    while index < ids.len()
        invariant
            index <= ids@.len(),
            match best {
                Some(id) => ids@.contains(id) && !other@.contains(id) && forall|i: int|
                    0 <= i < index && !other@.contains(ids@[i]) ==> id@ <= ids@[i]@,
                None => forall|i: int| 0 <= i < index ==> other@.contains(ids@[i]),
            },
        decreases ids@.len() - index,
    {
        let candidate = ids[index];
        if !contains_id(other, candidate) {
            best = match best {
                Some(id) => if candidate.0 < id.0 {
                    Some(candidate)
                } else {
                    Some(id)
                },
                None => Some(candidate),
            };
        }
        index = index + 1;
    }
    best
}

/// The change between the readers known before and the readers enumerated now: the least
/// removed identity first, then the least added one.
pub fn reader_set_change(known: &Vec<ReaderId>, current: &Vec<ReaderId>) -> (change: Option<
    PresenceChange,
>)
    ensures
        match change {
            Some(PresenceChange::ReaderRemoved(id)) => least_missing(known@, current@, id),
            Some(PresenceChange::ReaderAdded(id)) => !some_missing(known@, current@)
                && least_missing(current@, known@, id),
            Some(_) => false,
            None => !some_missing(known@, current@) && !some_missing(current@, known@),
        },
{
    match least_missing_id(known, current) {
        Some(id) => Some(PresenceChange::ReaderRemoved(id)),
        None => match least_missing_id(current, known) {
            Some(id) => Some(PresenceChange::ReaderAdded(id)),
            None => None,
        },
    }
}

/// `id` is the least identity in `ids`.
pub open spec fn least_id(ids: Seq<ReaderId>, id: ReaderId) -> bool {
    ids.contains(id) && forall|i: int| 0 <= i < ids.len() ==> id@ <= ids[i]@
}

/// A scripted presence event, reported for the first known reader.
pub fn virtual_presence_change(event: VirtualEvent, known: &Vec<ReaderId>) -> (change: Option<
    PresenceChange,
>)
    ensures
        match change {
            Some(PresenceChange::CardInserted(id)) => event == VirtualEvent::Inserted && least_id(
                known@,
                id,
            ),
            Some(PresenceChange::CardRemoved(id)) => event == VirtualEvent::Removed && least_id(
                known@,
                id,
            ),
            Some(_) => false,
            None => known@.len() == 0,
        },
{
    let none: Vec<ReaderId> = Vec::new();
    match least_missing_id(known, &none) {
        Some(id) => Some(
            match event {
                VirtualEvent::Inserted => PresenceChange::CardInserted(id),
                VirtualEvent::Removed => PresenceChange::CardRemoved(id),
            },
        ),
        None => {
            assert(known@.len() > 0 ==> !none@.contains(known@[0]));
            None
        },
    }
}

/// A job queued for a card's ordered worker.
#[derive(Clone, Copy, Debug, PartialEq, Eq, Structural)]
pub enum JobKind {
    Transmit,
    Reset,
    Begin,
    End,
}

/// What the worker does with a job.
#[derive(Clone, Copy, Debug, PartialEq, Eq, Structural)]
pub enum JobRoute {
    /// Perform the exchange or reset now.
    Run,
    /// Open a transaction bracket and serve jobs inside it.
    StartTransaction,
    /// Refuse: a transaction is already active.
    RefuseNested,
    /// Close the active transaction bracket.
    EndTransaction,
    /// Nothing to do.
    Ignore,
}

/// Transactions do not nest, and an end marker outside a transaction is a no-op.
pub fn route_job(in_transaction: bool, job: JobKind) -> (route: JobRoute)
    ensures
        route == match job {
            JobKind::Transmit | JobKind::Reset => JobRoute::Run,
            JobKind::Begin => if in_transaction {
                JobRoute::RefuseNested
            } else {
                JobRoute::StartTransaction
            },
            JobKind::End => if in_transaction {
                JobRoute::EndTransaction
            } else {
                JobRoute::Ignore
            },
        },
{
    match job {
        JobKind::Transmit | JobKind::Reset => JobRoute::Run,
        JobKind::Begin => if in_transaction {
            JobRoute::RefuseNested
        } else {
            JobRoute::StartTransaction
        },
        JobKind::End => if in_transaction {
            JobRoute::EndTransaction
        } else {
            JobRoute::Ignore
        },
    }
}

/// The error a refused nested transaction reports.
pub fn nested_transaction_error() -> (error: Error)
    ensures
        error.category() == ErrorKind::Busy,
        error.text() == "a transaction is already active on this card"@,
{
    Error::new(ErrorKind::Busy, "a transaction is already active on this card")
}

/// The error reported once a card's worker has stopped.
pub fn card_worker_closed() -> (error: Error)
    ensures
        error.category() == ErrorKind::CardGone,
        error.text() == "card command worker has stopped"@,
{
    Error::new(ErrorKind::CardGone, "card command worker has stopped")
}

} // verus!
