//! Stable observation values for reader bring-up and reproducible bug reports.

use vstd::prelude::*;

use std::collections::VecDeque;

use crate::bytes::copy_range;
use crate::facade::ReaderId;

verus! {

/// A built-in route to a reader.
#[derive(Clone, Copy, Debug, PartialEq, Eq, Hash, Structural)]
#[non_exhaustive]
pub enum BackendKind {
    /// Direct USB CCID.
    NativeUsb,
    /// The platform PC/SC service.
    Pcsc,
    /// A deterministic in-memory reader.
    Virtual,
}

/// The unit a reader accepts in its transfer command.
#[derive(Clone, Copy, Debug, PartialEq, Eq, Hash, Structural)]
#[non_exhaustive]
pub enum ExchangeLevel {
    /// Complete short APDUs.
    ShortApdu,
    /// Complete short and extended APDUs.
    ExtendedApdu,
    /// Transport protocol data units; the native adapter drives negotiated T=1/LRC.
    Tpdu,
    /// Individual card-protocol characters, which are deliberately rejected.
    Character,
}

/// Portable facts learned from a reader without exposing backend descriptor types.
#[derive(Clone, Copy, Debug, PartialEq, Eq, Structural)]
pub struct Capabilities {
    slots: u8,
    maximum_message_length: u32,
    exchange_level: ExchangeLevel,
    supports_t0: bool,
    supports_t1: bool,
}

/// The content of a capability record.
pub struct CapabilitiesView {
    pub slots: u8,
    pub maximum_message_length: u32,
    pub exchange_level: ExchangeLevel,
    pub supports_t0: bool,
    pub supports_t1: bool,
}

impl View for Capabilities {
    type V = CapabilitiesView;

    closed spec fn view(&self) -> CapabilitiesView {
        CapabilitiesView {
            slots: self.slots,
            maximum_message_length: self.maximum_message_length,
            exchange_level: self.exchange_level,
            supports_t0: self.supports_t0,
            supports_t1: self.supports_t1,
        }
    }
}

impl Capabilities {
    /// Assemble a capability record.
    pub fn new(
        slots: u8,
        maximum_message_length: u32,
        exchange_level: ExchangeLevel,
        supports_t0: bool,
        supports_t1: bool,
    ) -> (capabilities: Self)
        ensures
            capabilities@ == (CapabilitiesView {
                slots,
                maximum_message_length,
                exchange_level,
                supports_t0,
                supports_t1,
            }),
    {
        Capabilities { slots, maximum_message_length, exchange_level, supports_t0, supports_t1 }
    }

    /// Number of independently addressable card slots.
    pub fn slots(&self) -> (slots: u8)
        ensures
            slots == self@.slots,
    {
        self.slots
    }

    /// Largest complete CCID or APDU message reported by the reader.
    pub fn maximum_message_length(&self) -> (length: u32)
        ensures
            length == self@.maximum_message_length,
    {
        self.maximum_message_length
    }

    /// Reader exchange granularity.
    pub fn exchange_level(&self) -> (level: ExchangeLevel)
        ensures
            level == self@.exchange_level,
    {
        self.exchange_level
    }

    /// Whether protocol T=0 is supported.
    pub fn supports_t0(&self) -> (supported: bool)
        ensures
            supported == self@.supports_t0,
    {
        self.supports_t0
    }

    /// Whether protocol T=1 is supported.
    pub fn supports_t1(&self) -> (supported: bool)
        ensures
            supported == self@.supports_t1,
    {
        self.supports_t1
    }
}

/// The protocol layer at which a trace frame was observed.
#[derive(Clone, Copy, Debug, PartialEq, Eq, Hash, Structural)]
#[non_exhaustive]
pub enum Layer {
    /// Command or response APDU.
    Apdu,
    /// Complete CCID bulk message.
    Ccid,
}

/// Direction relative to the host application.
#[derive(Clone, Copy, Debug, PartialEq, Eq, Hash, Structural)]
#[non_exhaustive]
pub enum Direction {
    /// Host to reader or card.
    Out,
    /// Reader or card to host.
    In,
}

/// One immutable, timestamp-free protocol frame.
#[derive(Clone, Debug, PartialEq, Eq)]
pub struct TraceFrame {
    layer: Layer,
    direction: Direction,
    backend: BackendKind,
    reader: ReaderId,
    bytes: Vec<u8>,
}

/// The content of a trace frame.
pub struct TraceFrameView {
    pub layer: Layer,
    pub direction: Direction,
    pub backend: BackendKind,
    pub reader: ReaderId,
    pub bytes: Seq<u8>,
}

impl View for TraceFrame {
    type V = TraceFrameView;

    closed spec fn view(&self) -> TraceFrameView {
        TraceFrameView {
            layer: self.layer,
            direction: self.direction,
            backend: self.backend,
            reader: self.reader,
            bytes: self.bytes@,
        }
    }
}

impl TraceFrame {
    /// Record one frame.
    pub fn new(
        layer: Layer,
        direction: Direction,
        backend: BackendKind,
        reader: ReaderId,
        bytes: Vec<u8>,
    ) -> (frame: Self)
        ensures
            frame@ == (TraceFrameView { layer, direction, backend, reader, bytes: bytes@ }),
    {
        TraceFrame { layer, direction, backend, reader, bytes }
    }

    /// Layer at which the bytes were captured.
    pub fn layer(&self) -> (layer: Layer)
        ensures
            layer == self@.layer,
    {
        self.layer
    }

    /// Direction relative to the host.
    pub fn direction(&self) -> (direction: Direction)
        ensures
            direction == self@.direction,
    {
        self.direction
    }

    /// Backend that produced the frame.
    pub fn backend(&self) -> (backend: BackendKind)
        ensures
            backend == self@.backend,
    {
        self.backend
    }

    /// Reader associated with the frame.
    pub fn reader(&self) -> (reader: ReaderId)
        ensures
            reader == self@.reader,
    {
        self.reader
    }

    /// Exact frame bytes. APDU traces may contain secrets and are opt-in.
    pub fn bytes(&self) -> (bytes: &[u8])
        ensures
            bytes@ == self@.bytes,
    {
        self.bytes.as_slice()
    }

    /// An independent copy with the same content.
    pub fn duplicate(&self) -> (copy: Self)
        ensures
            copy@ == self@,
    {
        let bytes = copy_range(self.bytes.as_slice(), 0, self.bytes.len());
        assert(bytes@ =~= self.bytes@);
        TraceFrame {
            layer: self.layer,
            direction: self.direction,
            backend: self.backend,
            reader: self.reader,
            bytes,
        }
    }
}

/// One item from a bounded trace subscription.
#[derive(Clone, Debug, PartialEq, Eq)]
#[non_exhaustive]
pub enum TraceEvent {
    /// A captured protocol frame.
    Frame(TraceFrame),
    /// Frames were dropped because this subscriber did not drain fast enough.
    Overflow {
        /// Number of frames dropped since the previous delivered event.
        dropped: u64,
    },
}

/// The content of a trace event.
pub enum TraceEventView {
    Frame(TraceFrameView),
    Overflow(u64),
}

impl View for TraceEvent {
    type V = TraceEventView;

    open spec fn view(&self) -> TraceEventView {
        match self {
            TraceEvent::Frame(frame) => TraceEventView::Frame(frame@),
            TraceEvent::Overflow { dropped } => TraceEventView::Overflow(*dropped),
        }
    }
}

impl TraceEvent {
    /// An independent copy with the same content.
    pub fn duplicate(&self) -> (copy: Self)
        ensures
            copy@ == self@,
    {
        match self {
            TraceEvent::Frame(frame) => TraceEvent::Frame(frame.duplicate()),
            TraceEvent::Overflow { dropped } => TraceEvent::Overflow { dropped: *dropped },
        }
    }
}

// ---------------------------------------------------------------------------------------
// Trace broadcast
// ---------------------------------------------------------------------------------------

/// How many undelivered events one subscription holds before it starts dropping frames.
pub const TRACE_CAPACITY: usize = 128;

/// What one subscription holds.
pub struct SubscriberView {
    pub id: u64,
    pub queue: Seq<TraceEventView>,
    pub dropped: u64,
    pub connected: bool,
}

/// What the broadcast point holds: its subscriptions in subscription order, and the next
/// identifier it hands out.
pub struct TraceHubView {
    pub subscribers: Seq<SubscriberView>,
    pub next_id: u64,
}

/// The views of a queue of events.
pub open spec fn event_views(events: Seq<TraceEvent>) -> Seq<TraceEventView> {
    events.map_values(|event: TraceEvent| event@)
}

/// A drop count raised by one, saturating at its largest value.
pub open spec fn count_one_more(dropped: u64) -> u64 {
    if dropped == u64::MAX {
        u64::MAX
    } else {
        (dropped + 1) as u64
    }
}

/// One subscription after an event is offered to it, or `None` when it is disconnected
/// and leaves. A subscription that owes an overflow notice delivers the notice first; an
/// event that does not fit, behind the notice or because the notice itself does not fit,
/// is counted as dropped.
pub open spec fn deliver(s: SubscriberView, event: TraceEventView) -> Option<SubscriberView> {
    if !s.connected {
        None
    } else if s.dropped != 0 && s.queue.len() >= TRACE_CAPACITY {
        Some(SubscriberView { dropped: count_one_more(s.dropped), ..s })
    } else {
        let noticed = if s.dropped != 0 {
            SubscriberView {
                queue: s.queue.push(TraceEventView::Overflow(s.dropped)),
                dropped: 0,
                ..s
            }
        } else {
            s
        };
        if noticed.queue.len() >= TRACE_CAPACITY {
            Some(SubscriberView { dropped: count_one_more(noticed.dropped), ..noticed })
        } else {
            Some(SubscriberView { queue: noticed.queue.push(event), ..noticed })
        }
    }
}

/// How many frames a queue accounts for: each queued frame, and the count of each queued
/// overflow notice.
pub open spec fn accounted_frames(queue: Seq<TraceEventView>) -> int
    decreases queue.len(),
{
    if queue.len() == 0 {
        0
    } else {
        accounted_frames(queue.drop_last()) + match queue.last() {
            TraceEventView::Frame(_) => 1int,
            TraceEventView::Overflow(dropped) => dropped as int,
        }
    }
}

/// How many frames a subscription accounts for: those its queue accounts for, and those it
/// still owes a notice of.
pub open spec fn accounted(s: SubscriberView) -> int {
    accounted_frames(s.queue) + s.dropped
}

proof fn lemma_accounted_push(queue: Seq<TraceEventView>, event: TraceEventView)
    ensures
        accounted_frames(queue.push(event)) == accounted_frames(queue) + match event {
            TraceEventView::Frame(_) => 1int,
            TraceEventView::Overflow(dropped) => dropped as int,
        },
{
    assert(queue.push(event).drop_last() =~= queue);
}

/// No frame is lost uncounted: offering a frame to a connected subscription raises what it
/// accounts for by exactly one, whether the frame is queued or counted as dropped (unless
/// the drop count has reached its largest value); a subscription that owes a notice and has
/// room for both queues the notice of what it owes, then the frame.
pub proof fn a_frame_is_queued_or_counted(s: SubscriberView, frame: TraceFrameView)
    requires
        s.connected,
        s.dropped < u64::MAX,
    ensures
        deliver(s, TraceEventView::Frame(frame)) matches Some(next) && accounted(next) == accounted(
            s,
        ) + 1 && next.id == s.id && next.connected,
        s.dropped != 0 && s.queue.len() + 2 <= TRACE_CAPACITY ==> deliver(
            s,
            TraceEventView::Frame(frame),
        ) == Some(
            SubscriberView {
                queue: s.queue.push(TraceEventView::Overflow(s.dropped)).push(
                    TraceEventView::Frame(frame),
                ),
                dropped: 0,
                ..s
            },
        ),
{
    let event = TraceEventView::Frame(frame);
    lemma_accounted_push(s.queue, event);
    if s.dropped != 0 {
        let noticed = s.queue.push(TraceEventView::Overflow(s.dropped));
        lemma_accounted_push(s.queue, TraceEventView::Overflow(s.dropped));
        lemma_accounted_push(noticed, event);
    }
}

/// All subscriptions after an event is offered to each, in order; the disconnected ones
/// leave.
pub open spec fn deliver_all(subscribers: Seq<SubscriberView>, event: TraceEventView) -> Seq<
    SubscriberView,
>
    decreases subscribers.len(),
{
    if subscribers.len() == 0 {
        Seq::empty()
    } else {
        let rest = deliver_all(subscribers.drop_last(), event);
        match deliver(subscribers.last(), event) {
            Some(s) => rest.push(s),
            None => rest,
        }
    }
}

/// A well-formed broadcast point: identifiers are distinct, below the next one, and every
/// queue is within capacity.
pub open spec fn hub_wf(hub: TraceHubView) -> bool {
    &&& forall|i: int, j: int|
        0 <= i < j < hub.subscribers.len() ==> hub.subscribers[i].id
            < hub.subscribers[j].id
    &&& forall|i: int| 0 <= i < hub.subscribers.len() ==> hub.subscribers[i].id < hub.next_id
    &&& forall|i: int|
        0 <= i < hub.subscribers.len() ==> hub.subscribers[i].queue.len() <= TRACE_CAPACITY
}

/// The position of the subscription with this identifier.
pub open spec fn position_of(subscribers: Seq<SubscriberView>, id: u64) -> Option<int> {
    if exists|i: int| 0 <= i < subscribers.len() && subscribers[i].id == id {
        Some(choose|i: int| 0 <= i < subscribers.len() && subscribers[i].id == id)
    } else {
        None
    }
}

struct Subscriber {
    id: u64,
    queue: VecDeque<TraceEvent>,
    dropped: u64,
    connected: bool,
}

impl View for Subscriber {
    type V = SubscriberView;

    closed spec fn view(&self) -> SubscriberView {
        SubscriberView {
            id: self.id,
            queue: event_views(self.queue@),
            dropped: self.dropped,
            connected: self.connected,
        }
    }
}

spec fn subscriber_views(subscribers: Seq<Subscriber>) -> Seq<SubscriberView> {
    subscribers.map_values(|s: Subscriber| s@)
}

/// The broadcast point shared by a context and its cards.
pub struct TraceHub {
    subscribers: Vec<Subscriber>,
    next_id: u64,
}

impl View for TraceHub {
    type V = TraceHubView;

    closed spec fn view(&self) -> TraceHubView {
        TraceHubView {
            subscribers: subscriber_views(self.subscribers@),
            next_id: self.next_id,
        }
    }
}

proof fn lemma_push_view(queue: Seq<TraceEvent>, event: TraceEvent)
    ensures
        event_views(queue.push(event)) == event_views(queue).push(event@),
{
    assert(event_views(queue.push(event)) =~= event_views(queue).push(event@));
}

impl Subscriber {
    /// Offer one event to this subscription.
    fn deliver(self, event: &TraceEvent) -> (result: Option<Subscriber>)
        requires
            self@.queue.len() <= TRACE_CAPACITY,
        ensures
            match deliver(self@, event@) {
                Some(view) => result matches Some(s) && s@ == view,
                None => result is None,
            },
    {
        let mut s = self;
        if !s.connected {
            return None;
        }
        if s.dropped != 0 && s.queue.len() >= TRACE_CAPACITY {
            s.dropped = if s.dropped == u64::MAX {
                u64::MAX
            } else {
                s.dropped + 1
            };
            return Some(s);
        }
        if s.dropped != 0 {
            proof {
                lemma_push_view(s.queue@, TraceEvent::Overflow { dropped: s.dropped });
            }
            s.queue.push_back(TraceEvent::Overflow { dropped: s.dropped });
            s.dropped = 0;
        }
        if s.queue.len() >= TRACE_CAPACITY {
            s.dropped = if s.dropped == u64::MAX {
                u64::MAX
            } else {
                s.dropped + 1
            };
        } else {
            let copy = event.duplicate();
            proof {
                lemma_push_view(s.queue@, copy);
            }
            s.queue.push_back(copy);
        }
        Some(s)
    }
}

impl TraceHub {
    /// A broadcast point without subscriptions.
    pub fn new() -> (hub: Self)
        ensures
            hub@.subscribers == Seq::<SubscriberView>::empty(),
            hub@.next_id == 0,
            hub_wf(hub@),
    {
        let hub = TraceHub { subscribers: Vec::new(), next_id: 0 };
        assert(hub@.subscribers =~= Seq::<SubscriberView>::empty());
        hub
    }

    /// Whether another subscription can be given an identifier.
    pub fn can_subscribe(&self) -> (possible: bool)
        ensures
            possible == (self@.next_id < u64::MAX),
    {
        self.next_id < u64::MAX
    }

    /// Open a subscription with an empty queue; it is identified by the returned number.
    pub fn subscribe(&mut self) -> (id: u64)
        requires
            hub_wf(old(self)@),
            old(self)@.next_id < u64::MAX,
        ensures
            id == old(self)@.next_id,
            final(self)@.next_id == id + 1,
            final(self)@.subscribers == old(self)@.subscribers.push(
                SubscriberView { id, queue: Seq::empty(), dropped: 0, connected: true },
            ),
            hub_wf(final(self)@),
    {
        let id = self.next_id;
        let subscriber = Subscriber { id, queue: VecDeque::new(), dropped: 0, connected: true };
        assert(subscriber@.queue =~= Seq::<TraceEventView>::empty());
        self.subscribers.push(subscriber);
        self.next_id = id + 1;
        assert(self@.subscribers =~= old(self)@.subscribers.push(
            SubscriberView { id, queue: Seq::empty(), dropped: 0, connected: true },
        ));
        id
    }

    /// Offer an event to every subscription, in subscription order; disconnected
    /// subscriptions leave.
    pub fn emit(&mut self, event: &TraceEvent)
        requires
            hub_wf(old(self)@),
        ensures
            final(self)@ == (TraceHubView {
                subscribers: deliver_all(old(self)@.subscribers, event@),
                next_id: old(self)@.next_id,
            }),
            hub_wf(final(self)@),
    {
        let ghost hub0 = self@;
        let ghost before = self@.subscribers;
        let mut pending: Vec<Subscriber> = Vec::new();
        std::mem::swap(&mut pending, &mut self.subscribers);
        let mut kept: Vec<Subscriber> = Vec::new();
        let ghost mut done: int = 0;
        assert(subscriber_views(pending@) == before);
        while pending.len() > 0
            invariant
                hub_wf(hub0),
                hub0.subscribers == before,
                hub0.next_id == self.next_id,
                0 <= done <= before.len(),
                subscriber_views(pending@) == before.subrange(done, before.len() as int),
                pending.len() == before.len() - done,
                subscriber_views(kept@) == deliver_all(before.take(done), event@),
                forall|k: int, m: int|
                    0 <= k < m < kept.len() ==> kept@[k]@.id < kept@[m]@.id,
                forall|k: int, m: int|
                    0 <= k < kept.len() && done <= m < before.len() ==> kept@[k]@.id < before[m].id,
                forall|k: int| 0 <= k < kept.len() ==> kept@[k]@.id < self.next_id,
                forall|k: int| 0 <= k < kept.len() ==> kept@[k]@.queue.len() <= TRACE_CAPACITY,
            decreases pending.len(),
        {
            let ghost pending_before = pending@;
            assert(subscriber_views(pending_before)[0] == pending_before[0]@);
            let subscriber = pending.remove(0);
            assert(subscriber@ == before[done]);
            assert(hub0.subscribers[done].queue.len() <= TRACE_CAPACITY);
            assert forall|i: int| 0 <= i < pending.len() implies #[trigger] subscriber_views(pending@)[i] == before[done + 1 + i] by {
                assert(pending@[i] == pending_before[i + 1]);
                assert(subscriber_views(pending_before)[i + 1] == before.subrange(
                    done,
                    before.len() as int,
                )[i + 1]);
            }
            assert(before.take(done + 1).drop_last() =~= before.take(done));
            assert(before.take(done + 1).last() == before[done]);
            let ghost kept_before = kept@;
            match subscriber.deliver(event) {
                Some(next) => {
                    kept.push(next);
                    assert(subscriber_views(kept@) =~= subscriber_views(kept_before).push(next@));
                },
                None => {},
            }
            proof {
                done = done + 1;
            }
            assert(subscriber_views(pending@) =~= before.subrange(
                done,
                before.len() as int,
            ));
        }
        assert(before.take(done) =~= before);
        self.subscribers = kept;
        assert(self@.subscribers == deliver_all(before, event@));
    }

    /// Take the oldest event waiting for a subscription, if any.
    pub fn receive(&mut self, id: u64) -> (event: Option<TraceEvent>)
        requires
            hub_wf(old(self)@),
        ensures
            hub_wf(final(self)@),
            final(self)@.next_id == old(self)@.next_id,
            match position_of(old(self)@.subscribers, id) {
                Some(i) => {
                    let s = old(self)@.subscribers[i];
                    if s.queue.len() == 0 {
                        event is None && final(self)@ == old(self)@
                    } else {
                        event matches Some(e) && e@ == s.queue[0] && final(self)@.subscribers
                            == old(self)@.subscribers.update(
                            i,
                            SubscriberView { queue: s.queue.drop_first(), ..s },
                        )
                    }
                },
                None => event is None && final(self)@ == old(self)@,
            },
    {
        let mut index: usize = 0;
        while index < self.subscribers.len()
            invariant
                self@ == old(self)@,
                hub_wf(self@),
                index <= self.subscribers.len(),
                forall|k: int| 0 <= k < index ==> self.subscribers@[k]@.id != id,
            decreases self.subscribers.len() - index,
        {
            if self.subscribers[index].id == id {
                assert(self@.subscribers[index as int].id == id);
                assert(position_of(old(self)@.subscribers, id) == Some(index as int));
                if self.subscribers[index].queue.len() == 0 {
                    assert(self@.subscribers[index as int].queue.len() == 0);
                    return None;
                }
                let mut subscriber = self.subscribers.remove(index);
                let ghost q0 = subscriber.queue@;
                let event = subscriber.queue.pop_front();
                let ghost q = subscriber.queue@;
                assert(q =~= q0.drop_first());
                assert(event_views(q) =~= event_views(q0).drop_first());
                self.subscribers.insert(index, subscriber);
                assert(self@.subscribers =~= old(self)@.subscribers.update(
                    index as int,
                    SubscriberView {
                        queue: old(self)@.subscribers[index as int].queue.drop_first(),
                        ..old(self)@.subscribers[index as int]
                    },
                ));
                return event;
            }
            index = index + 1;
        }
        assert(position_of(old(self)@.subscribers, id) is None);
        None
    }

    /// Close a subscription: it leaves at the next emitted event.
    pub fn unsubscribe(&mut self, id: u64)
        requires
            hub_wf(old(self)@),
        ensures
            hub_wf(final(self)@),
            final(self)@.next_id == old(self)@.next_id,
            match position_of(old(self)@.subscribers, id) {
                Some(i) => final(self)@.subscribers == old(self)@.subscribers.update(
                    i,
                    SubscriberView { connected: false, ..old(self)@.subscribers[i] },
                ),
                None => final(self)@ == old(self)@,
            },
    {
        let mut index: usize = 0;
        while index < self.subscribers.len()
            invariant
                self@ == old(self)@,
                hub_wf(self@),
                index <= self.subscribers.len(),
                forall|k: int| 0 <= k < index ==> self.subscribers@[k]@.id != id,
            decreases self.subscribers.len() - index,
        {
            if self.subscribers[index].id == id {
                assert(self@.subscribers[index as int].id == id);
                assert(position_of(old(self)@.subscribers, id) == Some(index as int));
                let mut subscriber = self.subscribers.remove(index);
                subscriber.connected = false;
                self.subscribers.insert(index, subscriber);
                assert(self@.subscribers =~= old(self)@.subscribers.update(
                    index as int,
                    SubscriberView { connected: false, ..old(self)@.subscribers[index as int] },
                ));
                return ;
            }
            index = index + 1;
        }
        assert(position_of(old(self)@.subscribers, id) is None);
    }
}

} // verus!
