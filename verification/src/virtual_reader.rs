//! The deterministic virtual reader: one named reader and one scripted card.

use vstd::prelude::*;

use crate::diagnostics::{BackendKind, Capabilities, CapabilitiesView, ExchangeLevel};
use crate::error::{kind_description, Error, ErrorKind, Result};
use crate::facade::{reader_id_hash, reader_identity, ReaderId, ReaderRecord, VirtualEvent};
use crate::model::{encode_command, Atr, Command, CommandView, Response, ResponseView};
use crate::testing::{ExchangeStep, Scenario, ScenarioView, ScriptEvent, StepView};
use crate::text::{hex_list, is_blank, push_hex_list, text_is_blank};

verus! {

/// The capabilities every virtual reader reports.
pub open spec fn virtual_capabilities() -> CapabilitiesView {
    CapabilitiesView {
        slots: 1,
        maximum_message_length: 65538,
        exchange_level: ExchangeLevel::ExtendedApdu,
        supports_t0: true,
        supports_t1: true,
    }
}

/// The capabilities every virtual reader reports.
pub fn capabilities() -> (capabilities: Capabilities)
    ensures
        capabilities@ == virtual_capabilities(),
{
    Capabilities::new(1, 65_538, ExchangeLevel::ExtendedApdu, true, true)
}

/// The state of a virtual reader: its remaining script and whether a card is present.
#[derive(Debug)]
pub struct VirtualState {
    scenario: Scenario,
    present: bool,
}

/// The content of a virtual reader's state.
pub struct VirtualView {
    pub scenario: ScenarioView,
    pub present: bool,
}

impl View for VirtualState {
    type V = VirtualView;

    closed spec fn view(&self) -> VirtualView {
        VirtualView { scenario: self.scenario@, present: self.present }
    }
}

/// What one exchange with the virtual card produced.
#[derive(Debug)]
pub enum VirtualReply {
    /// The exchange finished with this result.
    Finished(Result<Response>),
    /// The script hangs here until the caller cancels the exchange.
    Hang,
}

/// The outcome of one scripted exchange: the next state, and either the response, the
/// category of the failure, or `None` for a hang.
pub open spec fn virtual_transmit(state: VirtualView, command: CommandView) -> (
    VirtualView,
    Option<std::result::Result<ResponseView, ErrorKind>>,
) {
    if !state.present {
        (state, Some(Err(ErrorKind::CardGone)))
    } else if state.scenario.exchanges.len() == 0 {
        (state, Some(Err(ErrorKind::Protocol)))
    } else {
        let rest = VirtualView {
            scenario: ScenarioView {
                exchanges: state.scenario.exchanges.drop_first(),
                ..state.scenario
            },
            ..state
        };
        match state.scenario.exchanges[0] {
            StepView::Respond(expected, response) => if expected == command {
                (rest, Some(Ok(response)))
            } else {
                (rest, Some(Err(ErrorKind::Protocol)))
            },
            StepView::Fail(kind) => (rest, Some(Err(kind))),
            StepView::Remove => (VirtualView { present: false, ..rest }, Some(Err(ErrorKind::CardGone))),
            StepView::Hang => (rest, None),
        }
    }
}

/// What a failed scripted exchange says.
pub open spec fn virtual_transmit_error(state: VirtualView, command: CommandView) -> Seq<char> {
    if !state.present {
        kind_description(ErrorKind::CardGone)
    } else if state.scenario.exchanges.len() == 0 {
        "virtual scenario has no exchange remaining"@
    } else {
        match state.scenario.exchanges[0] {
            StepView::Respond(expected, _) => "virtual scenario expected "@ + hex_list(
                encode_command(expected),
            ) + ", received "@ + hex_list(encode_command(command)),
            StepView::Fail(kind) => kind_description(kind),
            _ => kind_description(ErrorKind::CardGone),
        }
    }
}

impl VirtualState {
    /// A virtual reader whose card is present exactly when the scenario inserted one.
    pub fn new(scenario: Scenario) -> (state: Self)
        ensures
            state@ == (VirtualView { scenario: scenario@, present: scenario@.atr is Some }),
    {
        let present = scenario.atr().is_some();
        VirtualState { scenario, present }
    }

    /// Enumerate the single virtual reader; a blank name is refused.
    pub fn readers(&self) -> (result: Result<Vec<ReaderRecord>>)
        ensures
            match result {
                Ok(records) => !is_blank(self@.scenario.name) && records@.len() == 1
                    && records@[0].id@ == reader_id_hash(
                    BackendKind::Virtual,
                    vstd::utf8::encode_utf8(self@.scenario.name),
                ) && records@[0].name@ == self@.scenario.name && records@[0].selector@
                    == self@.scenario.name && records@[0].backend == BackendKind::Virtual
                    && records@[0].capabilities@ == virtual_capabilities()
                    && reader_identity(records@[0]),
                Err(error) => is_blank(self@.scenario.name) && error.category()
                    == ErrorKind::InvalidInput,
            },
    {
        let name = self.scenario.reader_name();
        if text_is_blank(name) {
            return Err(Error::new(ErrorKind::InvalidInput, "virtual reader name cannot be empty"));
        }
        let mut records: Vec<ReaderRecord> = Vec::new();
        records.push(
            ReaderRecord {
                id: ReaderId::from_name(BackendKind::Virtual, name),
                name: name.to_owned(),
                backend: BackendKind::Virtual,
                capabilities: capabilities(),
                selector: name.to_owned(),
            },
        );
        Ok(records)
    }

    /// Connect to the card: its ATR when a card is present.
    pub fn connect(&self) -> (result: Result<Atr>)
        ensures
            match result {
                Ok(atr) => self@.present && self@.scenario.atr == Some(atr@),
                Err(error) => !(self@.present && self@.scenario.atr is Some) && error.category()
                    == ErrorKind::CardAbsent && error.text() == kind_description(ErrorKind::CardAbsent),
            },
    {
        if !self.present {
            return Err(Error::from_kind(ErrorKind::CardAbsent));
        }
        match self.scenario.atr() {
            Some(atr) => Ok(atr),
            None => Err(Error::from_kind(ErrorKind::CardAbsent)),
        }
    }

    /// Perform the next scripted exchange for `command`.
    pub fn transmit(&mut self, command: &Command) -> (reply: VirtualReply)
        ensures
            final(self)@ == virtual_transmit(old(self)@, command@).0,
            match (virtual_transmit(old(self)@, command@).1, reply) {
                (None, VirtualReply::Hang) => true,
                (Some(Ok(expected)), VirtualReply::Finished(Ok(response))) => response@ == expected,
                (Some(Err(kind)), VirtualReply::Finished(Err(error))) => error.category() == kind
                    && error.text() == virtual_transmit_error(old(self)@, command@),
                _ => false,
            },
    {
        if !self.present {
            return VirtualReply::Finished(Err(Error::from_kind(ErrorKind::CardGone)));
        }
        match self.scenario.next_exchange() {
            Some(ExchangeStep::Respond { command: expected, response }) => {
                if expected.same_as(command) {
                    VirtualReply::Finished(Ok(response))
                } else {
                    let mut message = "virtual scenario expected ".to_owned();
                    push_hex_list(&mut message, expected.to_bytes().as_slice());
                    message.append(", received ");
                    push_hex_list(&mut message, command.to_bytes().as_slice());
                    VirtualReply::Finished(Err(Error::with_message(ErrorKind::Protocol, message)))
                }
            },
            Some(ExchangeStep::Fail(kind)) => VirtualReply::Finished(Err(Error::from_kind(kind))),
            Some(ExchangeStep::Remove) => {
                self.present = false;
                VirtualReply::Finished(Err(Error::from_kind(ErrorKind::CardGone)))
            },
            Some(ExchangeStep::Hang) => VirtualReply::Hang,
            None => VirtualReply::Finished(
                Err(Error::new(ErrorKind::Protocol, "virtual scenario has no exchange remaining")),
            ),
        }
    }

    /// Reset the card: its ATR again while it is present.
    pub fn reset(&self) -> (result: Result<Atr>)
        ensures
            match result {
                Ok(atr) => self@.present && self@.scenario.atr == Some(atr@),
                Err(error) => !(self@.present && self@.scenario.atr is Some) && error.category()
                    == ErrorKind::CardGone && error.text() == kind_description(ErrorKind::CardGone),
            },
    {
        if !self.present {
            return Err(Error::from_kind(ErrorKind::CardGone));
        }
        match self.scenario.atr() {
            Some(atr) => Ok(atr),
            None => Err(Error::from_kind(ErrorKind::CardGone)),
        }
    }

    /// Take the next scripted presence event.
    pub fn next_event(&mut self) -> (event: Option<VirtualEvent>)
        ensures
            match event {
                Some(e) => old(self)@.scenario.events.len() > 0 && e == (match old(
                    self,
                )@.scenario.events[0] {
                    ScriptEvent::Inserted => VirtualEvent::Inserted,
                    ScriptEvent::Removed => VirtualEvent::Removed,
                }) && final(self)@ == (VirtualView {
                    scenario: ScenarioView {
                        events: old(self)@.scenario.events.drop_first(),
                        ..old(self)@.scenario
                    },
                    ..old(self)@
                }),
                None => old(self)@.scenario.events.len() == 0 && final(self)@ == old(self)@,
            },
    {
        match self.scenario.next_event() {
            Some(ScriptEvent::Inserted) => Some(VirtualEvent::Inserted),
            Some(ScriptEvent::Removed) => Some(VirtualEvent::Removed),
            None => None,
        }
    }
}

} // verus!
