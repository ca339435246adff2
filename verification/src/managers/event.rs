use std::collections::VecDeque;
use vstd::prelude::*;

verus! {

/// The parts of the engine that send and receive events.
#[derive(Clone, Copy, Debug, PartialEq, Eq, Structural)]
pub enum EventTransmitter {
    ECManager,
    ResourceManager,
    SceneManager,
    EventManager,
    SystemsEtc,
}

/// What an event carries.
#[derive(Clone, Copy, Debug, PartialEq, Eq, Structural)]
pub enum EventData {
    SetBoundingBox,
}

/// A message from one part of the engine to another.
#[derive(Clone, Copy, Debug, PartialEq, Eq, Structural)]
pub struct Event {
    pub source: EventTransmitter,
    pub dest: EventTransmitter,
    pub data: EventData,
}

/// A part of the engine that events can be delivered to.
pub trait EventReceiver {
    fn receive_event(&mut self, event: Event);
}

/// A queue of events, delivered in the order they were pushed.
pub struct EventManager {
    queue: VecDeque<Event>,
}

impl EventManager {
    /// The events waiting, in the order they will be delivered.
    pub closed spec fn pending(&self) -> Seq<Event> {
        self.queue@.reverse()
    }

    pub fn new() -> (m: EventManager)
        ensures
            m.pending() == Seq::<Event>::empty(),
    {
        let m = Self { queue: VecDeque::new() };
        assert(m.queue@.reverse() =~= Seq::<Event>::empty());
        m
    }

    /// Queues `event` behind the events already waiting.
    pub fn push_event(&mut self, event: Event)
        ensures
            final(self).pending() == old(self).pending().push(event),
    {
        self.queue.push_front(event);
        proof {
            let o = old(self).queue@;
            assert(self.queue@ == seq![event] + o);
            assert(self.queue@.reverse() =~= o.reverse().push(event));
        }
    }

    /// Takes all waiting events out of the queue, and returns them in the
    /// order of delivery.
    pub fn pump_events(&mut self) -> (delivered: Vec<Event>)
        ensures
            delivered@ == old(self).pending(),
            final(self).pending() == Seq::<Event>::empty(),
    {
        let mut delivered: Vec<Event> = Vec::new();
        while self.queue.len() > 0
            invariant
                delivered@ + self.queue@.reverse() == old(self).queue@.reverse(),
            decreases self.queue@.len(),
        {
            let ghost q = self.queue@;
            if let Some(event) = self.queue.pop_back() {
                proof {
                    assert(q == self.queue@.push(event));
                    assert(q.reverse() =~= seq![event] + self.queue@.reverse());
                    assert(delivered@.push(event) + self.queue@.reverse() =~= delivered@ + q.reverse());
                }
                delivered.push(event);
            }
        }
        proof {
            assert(self.queue@.reverse() =~= Seq::<Event>::empty());
            assert(delivered@ =~= delivered@ + self.queue@.reverse());
        }
        delivered
    }

    /// Events pushed one after another come out of the queue in that order.
    pub proof fn lemma_delivered_in_push_order(
        m0: &Self,
        m1: &Self,
        m2: &Self,
        a: Event,
        b: Event,
    )
        requires
            m1.pending() == m0.pending().push(a),
            m2.pending() == m1.pending().push(b),
        ensures
            m2.pending() == m0.pending() + seq![a, b],
    {
        assert(m2.pending() =~= m0.pending() + seq![a, b]);
    }

    /// Any number of events pushed one after another (`states[i + 1]` is
    /// `states[i]` after pushing `events[i]`) wait behind the events already
    /// waiting, in push order; `pump_events` then delivers them in that order.
    pub proof fn lemma_pushes_wait_in_order(states: Seq<Self>, events: Seq<Event>)
        requires
            states.len() == events.len() + 1,
            forall|i: int|
                0 <= i < events.len() ==> #[trigger] states[i + 1].pending() == states[i].pending().push(
                    events[i],
                ),
        ensures
            states.last().pending() == states[0].pending() + events,
        decreases events.len(),
    {
        if events.len() == 0 {
            assert(states[0].pending() + events =~= states[0].pending());
        } else {
            let n = events.len() - 1;
            Self::lemma_pushes_wait_in_order(states.drop_last(), events.drop_last());
            assert(states.drop_last().last() == states[n]);
            assert(states[n + 1].pending() == states[n].pending().push(events[n]));
            assert(states[0].pending() + events =~= (states[0].pending() + events.drop_last()).push(
                events[n],
            ));
        }
    }
}

} // verus!
