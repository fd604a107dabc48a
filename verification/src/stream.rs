//! One tab's event stream, from the connection to its end.

use vstd::prelude::*;
use vstd::string::*;

use crate::event::{
    frame, next_frame, Arrival, Event, CONNECTED, EVENTS_HEAD, SSE_HEARTBEAT_MS,
};

verus! {

/// How far a stream has come.
#[derive(Debug, Clone, Copy, PartialEq, Eq, Structural)]
pub enum Stream {
    /// Its head is being written.
    Opening,
    /// Its first frame is being written.
    Greeting,
    /// Events are written as they come.
    Flowing,
    /// The tab is gone, or no more events will come.
    Ended,
}

/// What happens to a stream.
#[derive(Debug, Clone, Copy, PartialEq, Eq, Structural)]
pub enum Input {
    /// What was to be written is written, or could not be.
    Written(bool),
    /// Waiting for an event is over.
    Arrived(Arrival),
}

/// What a stream does next.
#[derive(Debug, Clone, PartialEq, Eq)]
pub enum Task {
    /// Write this, and flush it.
    Write(String),
    /// Wait for an event, no longer than this many milliseconds.
    Wait(u64),
    /// Close the connection.
    Close,
}

/// What a [`Task`] says.
#[verifier::ext_equal]
pub enum TaskView {
    Write(Seq<char>),
    Wait(u64),
    Close,
}

impl View for Task {
    type V = TaskView;

    open spec fn view(&self) -> TaskView {
        match self {
            Task::Write(text) => TaskView::Write(text@),
            Task::Wait(millis) => TaskView::Wait(*millis),
            Task::Close => TaskView::Close,
        }
    }
}

/// What follows from an input: how far the stream has come then, and what it
/// does next. A write that fails ends it.
pub open spec fn flow(stream: Stream, input: Input) -> (Stream, TaskView) {
    match (stream, input) {
        (Stream::Opening, Input::Written(true)) => (Stream::Greeting, TaskView::Write(CONNECTED@)),
        (Stream::Greeting, Input::Written(true)) => (
            Stream::Flowing,
            TaskView::Wait(SSE_HEARTBEAT_MS),
        ),
        (Stream::Flowing, Input::Written(true)) => (
            Stream::Flowing,
            TaskView::Wait(SSE_HEARTBEAT_MS),
        ),
        (Stream::Flowing, Input::Arrived(Arrival::Event(event))) => (
            Stream::Flowing,
            TaskView::Write(frame(event)),
        ),
        (Stream::Flowing, Input::Arrived(Arrival::Quiet)) => (
            Stream::Flowing,
            TaskView::Write(frame(Event::Ping)),
        ),
        _ => (Stream::Ended, TaskView::Close),
    }
}

impl Stream {
    /// Open a stream.
    pub fn open() -> (begun: (Stream, Task))
        ensures
            begun.0 == Stream::Opening,
            begun.1@ == TaskView::Write(EVENTS_HEAD@),
            begun.1 matches Task::Write(text) && text@
                == "HTTP/1.1 200 OK\r\nContent-Type: text/event-stream\r\nCache-Control: no-cache\r\nConnection: keep-alive\r\n\r\n"@,
    {
        (Stream::Opening, Task::Write(String::from_str(EVENTS_HEAD)))
    }

    /// Go on with what happened.
    pub fn step(self, input: Input) -> (then: (Stream, Task))
        ensures
            (then.0, then.1@) == flow(self, input),
            (self is Opening && input == Input::Written(true)) ==> then.0 is Greeting && (then.1
                matches Task::Write(text) && text@ == ": connected\n\n"@),
            (self is Greeting || self is Flowing) && input == Input::Written(true) ==> then == (
                Stream::Flowing,
                Task::Wait(10_000),
            ),
            self is Flowing ==> (input matches Input::Arrived(Arrival::Event(event)) ==> then.0
                is Flowing && (then.1 matches Task::Write(text) && text@ == frame(event))),
            self is Flowing && input == Input::Arrived(Arrival::Quiet) ==> then.0 is Flowing && (
            then.1 matches Task::Write(text) && text@ == ": ping\n\n"@),
            input == Input::Written(false) || input == Input::Arrived(Arrival::Closed) || self
                is Ended || (input is Arrived && !(self is Flowing)) ==> then == (Stream::Ended, Task::Close),
    {
        match (self, input) {
            (Stream::Opening, Input::Written(true)) => (
                Stream::Greeting,
                Task::Write(String::from_str(CONNECTED)),
            ),
            (Stream::Greeting, Input::Written(true)) => (
                Stream::Flowing,
                Task::Wait(SSE_HEARTBEAT_MS),
            ),
            (Stream::Flowing, Input::Written(true)) => (
                Stream::Flowing,
                Task::Wait(SSE_HEARTBEAT_MS),
            ),
            (Stream::Flowing, Input::Arrived(arrival)) => match next_frame(arrival) {
                Some(text) => (Stream::Flowing, Task::Write(text)),
                None => (Stream::Ended, Task::Close),
            },
            _ => (Stream::Ended, Task::Close),
        }
    }
}

/// What a stream writes in the course of its inputs.
pub open spec fn written(stream: Stream, inputs: Seq<Input>) -> Seq<char>
    decreases inputs.len(),
{
    if inputs.len() == 0 {
        seq![]
    } else {
        let (then, task) = flow(stream, inputs[0]);
        let now = match task {
            TaskView::Write(text) => text,
            _ => seq![],
        };
        now + written(then, inputs.skip(1))
    }
}

/// What happens to a stream whose tab stays: waiting ends in one arrival after
/// another, and what is to be written is written.
pub open spec fn delivery(arrivals: Seq<Arrival>) -> Seq<Input>
    decreases arrivals.len(),
{
    if arrivals.len() == 0 {
        seq![]
    } else {
        seq![Input::Arrived(arrivals[0]), Input::Written(true)] + delivery(arrivals.skip(1))
    }
}

/// What a tab hears of `arrivals`: each event, and a heartbeat for each silence,
/// until there are no more events to come.
pub open spec fn heard(arrivals: Seq<Arrival>) -> Seq<char>
    decreases arrivals.len(),
{
    if arrivals.len() == 0 {
        seq![]
    } else {
        match arrivals[0] {
            Arrival::Event(event) => frame(event) + heard(arrivals.skip(1)),
            Arrival::Quiet => frame(Event::Ping) + heard(arrivals.skip(1)),
            Arrival::Closed => seq![],
        }
    }
}

/// A stream that has ended writes nothing more.
pub proof fn an_ended_stream_is_silent(inputs: Seq<Input>)
    ensures
        written(Stream::Ended, inputs) == Seq::<char>::empty(),
    decreases inputs.len(),
{
    if inputs.len() > 0 {
        an_ended_stream_is_silent(inputs.skip(1));
    }
}

/// A tab that stays connected hears every event and a heartbeat for every
/// silence, in order, and nothing else.
pub proof fn a_tab_hears_every_event_in_order(arrivals: Seq<Arrival>)
    ensures
        written(Stream::Flowing, delivery(arrivals)) == heard(arrivals),
        written(
            Stream::Opening,
            seq![Input::Written(true), Input::Written(true)] + delivery(arrivals),
        ) == CONNECTED@ + heard(arrivals),
    decreases arrivals.len(),
{
    let inputs = delivery(arrivals);
    reveal_with_fuel(written, 3);
    if arrivals.len() > 0 {
        a_tab_hears_every_event_in_order(arrivals.skip(1));
        let rest = delivery(arrivals.skip(1));
        assert(inputs[0] == Input::Arrived(arrivals[0]));
        assert(inputs.skip(1)[0] == Input::Written(true));
        assert(inputs.skip(1).skip(1) == rest);
        let none = Seq::<char>::empty();
        match arrivals[0] {
            Arrival::Event(event) => {
                assert(written(Stream::Flowing, inputs) == frame(event) + (none + written(
                    Stream::Flowing,
                    rest,
                )));
            },
            Arrival::Quiet => {
                assert(written(Stream::Flowing, inputs) == frame(Event::Ping) + (none + written(
                    Stream::Flowing,
                    rest,
                )));
            },
            Arrival::Closed => {
                an_ended_stream_is_silent(inputs.skip(1));
            },
        }
    }
    let whole = seq![Input::Written(true), Input::Written(true)] + inputs;
    assert(whole.skip(1)[0] == Input::Written(true));
    assert(whole.skip(1).skip(1) == inputs);
    assert(written(Stream::Opening, whole) == CONNECTED@ + (Seq::<char>::empty() + written(
        Stream::Flowing,
        inputs,
    )));
}

/// Whatever a stream writes next, it writes behind what it wrote before, and
/// what a tab hears of more arrivals begins with what it hears of fewer.
pub proof fn a_tab_hears_one_thing_after_another(arrivals: Seq<Arrival>, event: Event)
    requires
        forall|i: int| 0 <= i < arrivals.len() ==> !(#[trigger] arrivals[i] is Closed),
    ensures
        heard(Seq::empty()) == Seq::<char>::empty(),
        heard(arrivals.push(Arrival::Event(event))) == heard(arrivals) + frame(event),
        heard(arrivals.push(Arrival::Quiet)) == heard(arrivals) + ": ping\n\n"@,
        heard(arrivals.push(Arrival::Closed)) == heard(arrivals),
        delivery(arrivals.push(Arrival::Event(event))) == delivery(arrivals) + seq![
            Input::Arrived(Arrival::Event(event)),
            Input::Written(true),
        ],
    decreases arrivals.len(),
{
    if arrivals.len() > 0 {
        let rest = arrivals.skip(1);
        assert(!(arrivals[0] is Closed));
        assert forall|i: int| 0 <= i < rest.len() implies !(#[trigger] rest[i] is Closed) by {
            assert(rest[i] == arrivals[i + 1]);
        }
        a_tab_hears_one_thing_after_another(rest, event);
        assert(arrivals.push(Arrival::Event(event)).skip(1) == rest.push(Arrival::Event(event)));
        assert(arrivals.push(Arrival::Quiet).skip(1) == rest.push(Arrival::Quiet));
        assert(arrivals.push(Arrival::Closed).skip(1) == rest.push(Arrival::Closed));
        let first = match arrivals[0] {
            Arrival::Event(e) => frame(e),
            _ => frame(Event::Ping),
        };
        assert(heard(arrivals) == first + heard(rest));
        assert(heard(arrivals.push(Arrival::Event(event))) == first + (heard(rest) + frame(event)));
        assert(heard(arrivals.push(Arrival::Quiet)) == first + (heard(rest) + ": ping\n\n"@));
    } else {
        reveal_with_fuel(heard, 2);
        reveal_with_fuel(delivery, 2);
        assert(arrivals.push(Arrival::Event(event)).skip(1) == Seq::<Arrival>::empty());
        assert(arrivals.push(Arrival::Quiet).skip(1) == Seq::<Arrival>::empty());
    }
}

/// A stream writes what its steps bring, one after another, and its tasks say
/// what they hold.
pub proof fn a_stream_goes_step_by_step(
    stream: Stream,
    input: Input,
    more: Seq<Input>,
    task: Task,
)
    ensures
        written(stream, Seq::empty()) == Seq::<char>::empty(),
        flow(stream, input).1 matches TaskView::Write(text) ==> written(stream, seq![input] + more)
            == text + written(flow(stream, input).0, more),
        !(flow(stream, input).1 is Write) ==> written(stream, seq![input] + more) == written(
            flow(stream, input).0,
            more,
        ),
        task matches Task::Write(text) ==> task@ == TaskView::Write(text@),
        task matches Task::Wait(millis) ==> task@ == TaskView::Wait(millis),
        task is Close <==> task@ is Close,
{
    assert((seq![input] + more).skip(1) == more);
    let rest = written(flow(stream, input).0, more);
    assert(Seq::<char>::empty() + rest == rest);
}

/// A stream writes its head, its greeting, and then each event as it arrives,
/// or a heartbeat after ten seconds of silence; it ends where it cannot write,
/// where no more events will come, or where an event comes too early.
pub proof fn a_stream_writes_each_arrival(stream: Stream, event: Event, input: Input)
    ensures
        flow(Stream::Opening, Input::Written(true)) == (
            Stream::Greeting,
            TaskView::Write(": connected\n\n"@),
        ),
        stream is Greeting || stream is Flowing ==> flow(stream, Input::Written(true)) == (
            Stream::Flowing,
            TaskView::Wait(10_000),
        ),
        flow(Stream::Flowing, Input::Arrived(Arrival::Event(event))) == (
            Stream::Flowing,
            TaskView::Write(frame(event)),
        ),
        flow(Stream::Flowing, Input::Arrived(Arrival::Quiet)) == (
            Stream::Flowing,
            TaskView::Write(": ping\n\n"@),
        ),
        input == Input::Written(false) || input == Input::Arrived(Arrival::Closed) || stream is Ended
            || (input is Arrived && !(stream is Flowing)) ==> flow(stream, input) == (
            Stream::Ended,
            TaskView::Close,
        ),
{
}

} // verus!
