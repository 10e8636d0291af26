//! Deterministic scripts for testing card applications without hardware.

use vstd::prelude::*;

use std::collections::VecDeque;

use crate::error::ErrorKind;
use crate::model::{Atr, AtrView, Command, CommandView, Response, ResponseView};

verus! {

/// One scripted exchange.
#[derive(Clone, Debug)]
pub enum ExchangeStep {
    /// Require `command` and return `response`.
    Respond { command: Command, response: Response },
    /// Fail with one portable error category.
    Fail(ErrorKind),
    /// Remove the card.
    Remove,
    /// Wait until the exchange is cancelled.
    Hang,
}

/// The content of a scripted exchange.
pub enum StepView {
    Respond(CommandView, ResponseView),
    Fail(ErrorKind),
    Remove,
    Hang,
}

impl View for ExchangeStep {
    type V = StepView;

    open spec fn view(&self) -> StepView {
        match self {
            ExchangeStep::Respond { command, response } => StepView::Respond(command@, response@),
            ExchangeStep::Fail(kind) => StepView::Fail(*kind),
            ExchangeStep::Remove => StepView::Remove,
            ExchangeStep::Hang => StepView::Hang,
        }
    }
}

/// A scripted presence event.
#[derive(Clone, Copy, Debug, PartialEq, Eq, Structural)]
pub enum ScriptEvent {
    Inserted,
    Removed,
}

/// The content of a scenario.
pub struct ScenarioView {
    pub name: Seq<char>,
    pub atr: Option<AtrView>,
    pub exchanges: Seq<StepView>,
    pub events: Seq<ScriptEvent>,
}

/// The view of an optional ATR.
pub open spec fn atr_option_view(atr: Option<Atr>) -> Option<AtrView> {
    match atr {
        Some(a) => Some(a@),
        None => None,
    }
}

/// The views of queued steps.
pub open spec fn step_views(steps: Seq<ExchangeStep>) -> Seq<StepView> {
    steps.map_values(|step: ExchangeStep| step@)
}

/// A consuming script for one virtual reader and card.
#[derive(Clone, Debug)]
pub struct Scenario {
    name: String,
    atr: Option<Atr>,
    exchanges: VecDeque<ExchangeStep>,
    events: VecDeque<ScriptEvent>,
}

impl View for Scenario {
    type V = ScenarioView;

    closed spec fn view(&self) -> ScenarioView {
        ScenarioView {
            name: self.name@,
            atr: atr_option_view(self.atr),
            exchanges: step_views(self.exchanges@),
            events: self.events@,
        }
    }
}

impl Scenario {
    /// Start an empty scenario containing one named virtual reader and no card.
    pub fn new() -> (scenario: Self)
        ensures
            scenario@.name == "ccidkit virtual reader"@,
            scenario@.atr is None,
            scenario@.exchanges == Seq::<StepView>::empty(),
            scenario@.events == Seq::<ScriptEvent>::empty(),
    {
        let scenario = Scenario {
            name: "ccidkit virtual reader".to_owned(),
            atr: None,
            exchanges: VecDeque::new(),
            events: VecDeque::new(),
        };
        assert(step_views(scenario.exchanges@) =~= Seq::<StepView>::empty());
        scenario
    }

    /// Set the reader name used by enumeration and diagnostics.
    pub fn reader(self, name: &str) -> (scenario: Self)
        ensures
            scenario@ == (ScenarioView { name: name@, ..self@ }),
    {
        Scenario { name: name.to_owned(), ..self }
    }

    /// Make a card with `atr` initially present and queue an insertion event.
    pub fn insert(self, atr: Atr) -> (scenario: Self)
        ensures
            scenario@ == (ScenarioView {
                atr: Some(atr@),
                events: self@.events.push(ScriptEvent::Inserted),
                ..self@
            }),
    {
        let mut scenario = self;
        scenario.atr = Some(atr);
        scenario.events.push_back(ScriptEvent::Inserted);
        scenario
    }

    /// Remove the card at the next exchange and queue a removal event.
    pub fn remove(self) -> (scenario: Self)
        ensures
            scenario@ == (ScenarioView {
                exchanges: self@.exchanges.push(StepView::Remove),
                events: self@.events.push(ScriptEvent::Removed),
                ..self@
            }),
    {
        let mut scenario = self;
        scenario.exchanges.push_back(ExchangeStep::Remove);
        scenario.events.push_back(ScriptEvent::Removed);
        assert(step_views(scenario.exchanges@) =~= step_views(self.exchanges@).push(
            StepView::Remove,
        ));
        scenario
    }

    /// Require `command` at the next exchange and return `response`.
    pub fn respond(self, command: Command, response: Response) -> (scenario: Self)
        ensures
            scenario@ == (ScenarioView {
                exchanges: self@.exchanges.push(StepView::Respond(command@, response@)),
                ..self@
            }),
    {
        let mut scenario = self;
        let ghost step = StepView::Respond(command@, response@);
        scenario.exchanges.push_back(ExchangeStep::Respond { command, response });
        assert(step_views(scenario.exchanges@) =~= step_views(self.exchanges@).push(step));
        scenario
    }

    /// Produce one portable error category at the next exchange.
    pub fn fail(self, kind: ErrorKind) -> (scenario: Self)
        ensures
            scenario@ == (ScenarioView {
                exchanges: self@.exchanges.push(StepView::Fail(kind)),
                ..self@
            }),
    {
        let mut scenario = self;
        scenario.exchanges.push_back(ExchangeStep::Fail(kind));
        assert(step_views(scenario.exchanges@) =~= step_views(self.exchanges@).push(
            StepView::Fail(kind),
        ));
        scenario
    }

    /// Make the next exchange wait until it is cancelled.
    pub fn hang(self) -> (scenario: Self)
        ensures
            scenario@ == (ScenarioView {
                exchanges: self@.exchanges.push(StepView::Hang),
                ..self@
            }),
    {
        let mut scenario = self;
        scenario.exchanges.push_back(ExchangeStep::Hang);
        assert(step_views(scenario.exchanges@) =~= step_views(self.exchanges@).push(
            StepView::Hang,
        ));
        scenario
    }

    /// The reader name.
    pub fn reader_name(&self) -> (name: &str)
        ensures
            name@ == self@.name,
    {
        self.name.as_str()
    }

    /// A copy of the card's ATR, if a card was inserted.
    pub fn atr(&self) -> (atr: Option<Atr>)
        ensures
            atr_option_view(atr) == self@.atr,
    {
        match &self.atr {
            Some(atr) => Some(atr.duplicate()),
            None => None,
        }
    }

    /// Take the next scripted exchange.
    pub fn next_exchange(&mut self) -> (step: Option<ExchangeStep>)
        ensures
            match step {
                Some(s) => old(self)@.exchanges.len() > 0 && s@ == old(self)@.exchanges[0]
                    && final(self)@ == (ScenarioView {
                    exchanges: old(self)@.exchanges.drop_first(),
                    ..old(self)@
                }),
                None => old(self)@.exchanges.len() == 0 && final(self)@ == old(self)@,
            },
    {
        let step = self.exchanges.pop_front();
        proof {
            if step is Some {
                assert(step_views(self.exchanges@) =~= step_views(
                    old(self).exchanges@,
                ).drop_first());
            }
        }
        step
    }

    /// Take the next scripted presence event.
    pub fn next_event(&mut self) -> (event: Option<ScriptEvent>)
        ensures
            match event {
                Some(e) => old(self)@.events.len() > 0 && e == old(self)@.events[0] && final(self)@ == (ScenarioView { events: old(self)@.events.drop_first(), ..old(self)@ }),
                None => old(self)@.events.len() == 0 && final(self)@ == old(self)@,
            },
    {
        self.events.pop_front()
    }
}

impl Default for Scenario {
    fn default() -> (scenario: Self)
        ensures
            scenario@.name == "ccidkit virtual reader"@,
            scenario@.atr is None,
            scenario@.exchanges == Seq::<StepView>::empty(),
            scenario@.events == Seq::<ScriptEvent>::empty(),
    {
        Scenario::new()
    }
}

} // verus!
