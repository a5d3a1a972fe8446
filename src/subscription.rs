use vstd::prelude::*;

use crate::collection::Collection;
use crate::schema::PullResponse;

verus! {

/// Where a subscription stands between two outside operations.
#[derive(Clone, Copy, PartialEq, Eq, Debug, Structural)]
pub enum SubState {
    /// Nothing has been asked of the server yet.
    Init,
    /// A pull is in flight.
    Pulling,
    /// An acknowledgement of `last_cursor` is in flight.
    Acknowledging,
    /// Caught up: waiting for the next push notification.
    Waiting,
    /// The push stream is gone; the sequence of batches is over.
    Ended,
}

/// The outside operation that the driver runs next. Its completion is the
/// next `Event` handed to `Subscription::step`.
#[derive(Clone, Copy, PartialEq, Eq, Debug, Structural)]
pub enum Command {
    Pull,
    Ack(u64),
    Wait,
    Stop,
}

/// The completion of an outside operation.
#[derive(Clone, Debug)]
pub enum Event {
    /// The consumer asked for the first batch.
    Start,
    Pulled(PullResponse),
    PullFailed,
    Acked,
    AckFailed,
    /// The push stream yielded an event; its content is not looked at.
    Notified,
    StreamClosed,
    StreamFailed,
}

/// What the consumer is handed after a step.
#[derive(Clone, Debug)]
pub enum Emit {
    /// Nothing yet: run the command and step again.
    Nothing,
    /// The next item of the sequence.
    Batch(PullResponse),
    /// The error of the operation that just completed is the next item.
    Failure,
    /// The sequence is over.
    End,
}

#[derive(Clone, Debug)]
pub struct Output {
    pub emit: Emit,
    pub command: Command,
}

/// The decision state of a subscription.
#[derive(Clone, Copy, PartialEq, Eq, Debug, Structural)]
pub struct Engine {
    pub state: SubState,
    /// The cursor of the most recent successful pull.
    pub last_cursor: Option<u64>,
    /// Whether the most recent successful pull reported the collection caught up.
    pub is_finished: bool,
}

impl Engine {
    pub open spec fn initial() -> Engine {
        Engine { state: SubState::Init, last_cursor: None, is_finished: false }
    }

    /// An acknowledgement is only ever in flight for a cursor that a pull returned.
    pub open spec fn wf(self) -> bool {
        self.state == SubState::Acknowledging ==> self.last_cursor is Some
    }

    /// `ev` is a possible completion of the operation that `self` has in flight.
    pub open spec fn accepts(self, ev: Event) -> bool {
        match self.state {
            SubState::Init => ev is Start,
            SubState::Pulling => ev is Pulled || ev is PullFailed,
            SubState::Acknowledging => ev is Acked || ev is AckFailed,
            SubState::Waiting => ev is Notified || ev is StreamClosed || ev is StreamFailed,
            SubState::Ended => false,
        }
    }

    /// The transition taken on `ev`, with what is handed out and run next.
    pub open spec fn next(self, ev: Event) -> (Engine, Output) {
        match ev {
            Event::Start => (
                Engine { state: SubState::Pulling, ..self },
                Output { emit: Emit::Nothing, command: Command::Pull },
            ),
            Event::Pulled(batch) => (
                Engine {
                    state: SubState::Acknowledging,
                    last_cursor: Some(batch.cursor),
                    is_finished: batch.finished,
                },
                Output {
                    emit: if batch.messages@.len() > 0 {
                        Emit::Batch(batch)
                    } else {
                        Emit::Nothing
                    },
                    command: Command::Ack(batch.cursor),
                },
            ),
            Event::PullFailed => (self, Output { emit: Emit::Failure, command: Command::Pull }),
            Event::Acked => if self.is_finished {
                (
                    Engine { state: SubState::Waiting, ..self },
                    Output { emit: Emit::Nothing, command: Command::Wait },
                )
            } else {
                (
                    Engine { state: SubState::Pulling, ..self },
                    Output { emit: Emit::Nothing, command: Command::Pull },
                )
            },
            Event::AckFailed => (
                self,
                Output { emit: Emit::Failure, command: Command::Ack(self.last_cursor.unwrap()) },
            ),
            Event::Notified => (
                Engine { state: SubState::Pulling, ..self },
                Output { emit: Emit::Nothing, command: Command::Pull },
            ),
            Event::StreamClosed => (
                Engine { state: SubState::Ended, ..self },
                Output { emit: Emit::End, command: Command::Stop },
            ),
            Event::StreamFailed => (
                Engine { state: SubState::Ended, ..self },
                Output { emit: Emit::Failure, command: Command::Stop },
            ),
        }
    }
}

/// The engine after taking `evs` in order from `e`, with every output on the way.
pub open spec fn run(e: Engine, evs: Seq<Event>) -> (Engine, Seq<Output>)
    decreases evs.len(),
{
    if evs.len() == 0 {
        (e, seq![])
    } else {
        let (mid, outs) = run(e, evs.drop_last());
        let (last, o) = mid.next(evs.last());
        (last, outs.push(o))
    }
}

/// Each event of `evs` completes the operation that was in flight when it came.
pub open spec fn driven(e: Engine, evs: Seq<Event>) -> bool {
    forall|i: int| 0 <= i < evs.len() ==> (#[trigger] run(e, evs.take(i))).0.accepts(evs[i])
}

/// The cursor of the last successful pull among `evs`.
pub open spec fn last_pulled(evs: Seq<Event>) -> Option<u64>
    decreases evs.len(),
{
    if evs.len() == 0 {
        None
    } else {
        match evs.last() {
            Event::Pulled(b) => Some(b.cursor),
            _ => last_pulled(evs.drop_last()),
        }
    }
}

proof fn lemma_run_prefix(e: Engine, evs: Seq<Event>)
    requires
        e.wf(),
        driven(e, evs),
        e.last_cursor == None::<u64>,
    ensures
        run(e, evs).0.wf(),
        run(e, evs).0.last_cursor == last_pulled(evs),
        run(e, evs).1.len() == evs.len(),
        forall|i: int| 0 <= i < evs.len() ==> #[trigger] run(e, evs).1[i] == run(e, evs.take(i + 1)).1[i],
    decreases evs.len(),
{
    if evs.len() > 0 {
        let pre = evs.drop_last();
        assert forall|i: int| 0 <= i < pre.len() implies (#[trigger] run(e, pre.take(i))).0.accepts(pre[i]) by {
            assert(pre.take(i) =~= evs.take(i));
            assert(run(e, evs.take(i)).0.accepts(evs[i]));
        }
        lemma_run_prefix(e, pre);
        assert(evs.take(pre.len() as int) =~= pre);
        assert(run(e, evs.take(pre.len() as int)).0.accepts(evs[pre.len() as int]));
        assert forall|i: int| 0 <= i < evs.len() implies #[trigger] run(e, evs).1[i] == run(e, evs.take(i + 1)).1[i] by {
            if i < pre.len() {
                assert(pre.take(i + 1) =~= evs.take(i + 1));
            } else {
                assert(evs.take(i + 1) =~= evs);
            }
        }
    }
}

/// From a new subscription driven by its own commands, every acknowledgement
/// asks for the cursor of the most recent successful pull.
pub proof fn lemma_ack_only_latest_cursor(evs: Seq<Event>, i: int, c: u64)
    requires
        driven(Engine::initial(), evs),
        0 <= i < evs.len(),
        run(Engine::initial(), evs).1[i].command == Command::Ack(c),
    ensures
        last_pulled(evs.take(i + 1)) == Some(c),
{
    let e = Engine::initial();
    lemma_run_prefix(e, evs);
    let pre = evs.take(i + 1);
    assert forall|k: int| 0 <= k < pre.len() implies (#[trigger] run(e, pre.take(k))).0.accepts(pre[k]) by {
        assert(pre.take(k) =~= evs.take(k));
        assert(run(e, evs.take(k)).0.accepts(evs[k]));
    }
    lemma_run_prefix(e, pre);
    let before = evs.take(i);
    assert(pre.drop_last() =~= before);
    assert forall|k: int| 0 <= k < before.len() implies (#[trigger] run(e, before.take(k))).0.accepts(before[k]) by {
        assert(before.take(k) =~= evs.take(k));
        assert(run(e, evs.take(k)).0.accepts(evs[k]));
    }
    lemma_run_prefix(e, before);
    assert(run(e, evs.take(i)).0.accepts(evs[i]));
}

/// A waiting subscription answers one notification, whatever it held, with
/// exactly one pull and nothing handed out.
pub proof fn lemma_notification_pulls_once(e: Engine)
    requires
        e.state == SubState::Waiting,
    ensures
        e.accepts(Event::Notified),
        e.next(Event::Notified).0 == (Engine { state: SubState::Pulling, ..e }),
        e.next(Event::Notified).1.command == Command::Pull,
        e.next(Event::Notified).1.emit is Nothing,
{
}

/// When the push stream closes while waiting, the sequence ends without an
/// error, and no event is taken after that.
pub proof fn lemma_stream_end_terminates(e: Engine, later: Event)
    requires
        e.state == SubState::Waiting,
    ensures
        e.accepts(Event::StreamClosed),
        e.next(Event::StreamClosed).1.emit is End,
        e.next(Event::StreamClosed).1.command == Command::Stop,
        !e.next(Event::StreamClosed).0.accepts(later),
{
}

/// A batch is handed out only by the pull that returned it, and never empty.
pub proof fn lemma_batches_come_from_pulls(e: Engine, ev: Event)
    ensures
        e.next(ev).1.emit matches Emit::Batch(b) ==> ev == Event::Pulled(b) && b.messages@.len() > 0,
{
}


/// The pull / acknowledge / wait cycle of one named subscription.
pub struct Subscription {
    name: String,
    collection: Collection,
    engine: Engine,
}

impl View for Subscription {
    type V = Engine;

    closed spec fn view(&self) -> Engine {
        self.engine
    }
}

impl Subscription {
    #[verifier::type_invariant]
    spec fn inv(&self) -> bool {
        self.engine.wf()
    }

    pub closed spec fn name_spec(&self) -> Seq<char> {
        self.name@
    }

    pub closed spec fn collection_spec(&self) -> Collection {
        self.collection
    }

    pub fn new(collection: &Collection, name: String) -> (r: Subscription)
        ensures
            r.name_spec() == name@,
            r.collection_spec().name_spec() == collection.name_spec(),
            r.collection_spec().client_spec().endpoint_spec()
                == collection.client_spec().endpoint_spec(),
            r@ == Engine::initial(),
    {
        let c = Collection::new(collection.client().copy(), collection.name());
        Subscription {
            name,
            collection: c,
            engine: Engine { state: SubState::Init, last_cursor: None, is_finished: false },
        }
    }

    pub fn name(&self) -> (r: &str)
        ensures
            r@ == self.name_spec(),
    {
        self.name.as_str()
    }

    pub fn collection(&self) -> (r: &Collection)
        ensures
            *r == self.collection_spec(),
    {
        &self.collection
    }

    pub fn engine(&self) -> (r: Engine)
        ensures
            r == self@,
            r.wf(),
    {
        proof {
            use_type_invariant(self);
        }
        self.engine
    }

    /// Whether `ev` completes the operation that is in flight.
    pub fn accepts(&self, ev: &Event) -> (r: bool)
        ensures
            r == self@.accepts(*ev),
    {
        match self.engine.state {
            SubState::Init => matches!(ev, Event::Start),
            SubState::Pulling => matches!(ev, Event::Pulled(_) | Event::PullFailed),
            SubState::Acknowledging => matches!(ev, Event::Acked | Event::AckFailed),
            SubState::Waiting => matches!(
                ev,
                Event::Notified | Event::StreamClosed | Event::StreamFailed
            ),
            SubState::Ended => false,
        }
    }

    /// Takes the completion `ev` of the operation in flight; returns what to
    /// hand the consumer and which operation to run next.
    pub fn step(&mut self, ev: Event) -> (r: Output)
        requires
            old(self)@.accepts(ev),
        ensures
            (final(self)@, r) == old(self)@.next(ev),
            final(self)@.wf(),
            final(self).name_spec() == old(self).name_spec(),
            final(self).collection_spec() == old(self).collection_spec(),
    {
        proof {
            use_type_invariant(&*self);
        }
        let e = self.engine;
        match ev {
            Event::Start => {
                self.engine = Engine { state: SubState::Pulling, ..e };
                Output { emit: Emit::Nothing, command: Command::Pull }
            },
            Event::Pulled(batch) => {
                let cursor = batch.cursor;
                self.engine = Engine {
                    state: SubState::Acknowledging,
                    last_cursor: Some(cursor),
                    is_finished: batch.finished,
                };
                let emit = if batch.messages.len() > 0 {
                    Emit::Batch(batch)
                } else {
                    Emit::Nothing
                };
                Output { emit, command: Command::Ack(cursor) }
            },
            Event::PullFailed => Output { emit: Emit::Failure, command: Command::Pull },
            Event::Acked => {
                if e.is_finished {
                    self.engine = Engine { state: SubState::Waiting, ..e };
                    Output { emit: Emit::Nothing, command: Command::Wait }
                } else {
                    self.engine = Engine { state: SubState::Pulling, ..e };
                    Output { emit: Emit::Nothing, command: Command::Pull }
                }
            },
            Event::AckFailed => {
                let cursor = match e.last_cursor {
                    Some(c) => c,
                    None => 0,
                };
                Output { emit: Emit::Failure, command: Command::Ack(cursor) }
            },
            Event::Notified => {
                self.engine = Engine { state: SubState::Pulling, ..e };
                Output { emit: Emit::Nothing, command: Command::Pull }
            },
            Event::StreamClosed => {
                self.engine = Engine { state: SubState::Ended, ..e };
                Output { emit: Emit::End, command: Command::Stop }
            },
            Event::StreamFailed => {
                self.engine = Engine { state: SubState::Ended, ..e };
                Output { emit: Emit::Failure, command: Command::Stop }
            },
        }
    }
}

} // verus!
