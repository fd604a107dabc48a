//! What preview tabs hear about, as Server-Sent Events.

use vstd::prelude::*;
use vstd::string::*;

use crate::decimal::{
    decimal, different_numbers_look_different, is_digit, lemma_decimal_digits, push_decimal,
};

verus! {

/// How long an event stream is quiet before a heartbeat, in milliseconds.
/// Heartbeats let the server notice a disconnected client on the next write.
pub const SSE_HEARTBEAT_MS: u64 = 10_000;

/// What starts an event stream: a response without a length, so that the
/// browser reads events as they come until the connection closes.
pub const EVENTS_HEAD: &'static str = "HTTP/1.1 200 OK\r\nContent-Type: text/event-stream\r\nCache-Control: no-cache\r\nConnection: keep-alive\r\n\r\n";

/// The first frame of an event stream.
pub const CONNECTED: &'static str = ": connected\n\n";

/// Something every open preview tab should hear about.
#[derive(Debug, Clone, Copy, PartialEq, Eq, Structural)]
pub enum Event {
    /// The current document changed on disk, or another document became current.
    Reload,
    /// An image the current document shows changed on disk.
    Images,
    /// Scroll to the block containing this 1-based source line.
    Scroll(u32),
    /// A heartbeat comment, sent now to find out which tabs have closed.
    Ping,
}

/// An event as a named Server-Sent Event.
pub open spec fn frame(event: Event) -> Seq<char> {
    match event {
        Event::Reload => "event: reload\ndata:\n\n"@,
        Event::Images => "event: images\ndata:\n\n"@,
        Event::Scroll(line) => "event: scroll\ndata: "@ + decimal(line as nat) + "\n\n"@,
        Event::Ping => ": ping\n\n"@,
    }
}

/// Encode an event as a named Server-Sent Event.
pub fn sse_frame(event: Event) -> (text: String)
    ensures
        text@ == frame(event),
        text@ == match event {
            Event::Reload => "event: reload\ndata:\n\n"@,
            Event::Images => "event: images\ndata:\n\n"@,
            Event::Scroll(line) => "event: scroll\ndata: "@ + decimal(line as nat) + "\n\n"@,
            Event::Ping => ": ping\n\n"@,
        },
{
    match event {
        Event::Reload => String::from_str("event: reload\ndata:\n\n"),
        Event::Images => String::from_str("event: images\ndata:\n\n"),
        Event::Scroll(line) => {
            let mut text = String::from_str("event: scroll\ndata: ");
            push_decimal(&mut text, line as u64);
            text.append("\n\n");
            text
        },
        Event::Ping => String::from_str(": ping\n\n"),
    }
}

/// What waiting for the next event brought.
#[derive(Debug, Clone, Copy, PartialEq, Eq, Structural)]
pub enum Arrival {
    /// An event.
    Event(Event),
    /// Nothing for as long as a heartbeat takes.
    Quiet,
    /// The end of all events.
    Closed,
}

/// The frame to write to a tab after waiting for an event, or `None` where the
/// stream ends. Silence makes a heartbeat, which is how a dead connection is
/// noticed.
pub fn next_frame(arrival: Arrival) -> (text: Option<String>)
    ensures
        match arrival {
            Arrival::Event(event) => text is Some && text->0@ == frame(event),
            Arrival::Quiet => text is Some && text->0@ == frame(Event::Ping),
            Arrival::Closed => text is None,
        },
{
    match arrival {
        Arrival::Event(event) => Some(sse_frame(event)),
        Arrival::Quiet => Some(sse_frame(Event::Ping)),
        Arrival::Closed => None,
    }
}

/// Whether a blank line ends at the character behind index `i`.
pub open spec fn blank_line_at(text: Seq<char>, i: int) -> bool {
    0 <= i && i + 1 < text.len() && text[i] == '\n' && text[i + 1] == '\n'
}

/// Every frame is one event of the stream: a blank line ends it, and it holds
/// no other.
pub proof fn a_frame_is_one_event(event: Event)
    ensures
        blank_line_at(frame(event), frame(event).len() - 2),
        forall|i: int| i != frame(event).len() - 2 ==> !#[trigger] blank_line_at(frame(event), i),
{
    reveal_strlit("event: reload\ndata:\n\n");
    reveal_strlit("event: images\ndata:\n\n");
    reveal_strlit("event: scroll\ndata: ");
    reveal_strlit("\n\n");
    reveal_strlit(": ping\n\n");
    if let Event::Scroll(line) = event {
        let digits = decimal(line as nat);
        lemma_decimal_digits(line as nat);
        assert forall|i: int| i != frame(event).len() - 2 implies !#[trigger] blank_line_at(
            frame(event),
            i,
        ) by {
            if 20 <= i < 20 + digits.len() {
                assert(frame(event)[i] == digits[i - 20]);
                assert(is_digit(digits[i - 20]));
            } else if i == 19 {
                assert(frame(event)[19] == ' ');
            }
        }
    }
}

/// Different events have different frames, so a tab can tell them apart, down
/// to the line.
pub proof fn frames_tell_events_apart(a: Event, b: Event)
    requires
        frame(a) == frame(b),
    ensures
        a == b,
{
    reveal_strlit("event: reload\ndata:\n\n");
    reveal_strlit("event: images\ndata:\n\n");
    reveal_strlit("event: scroll\ndata: ");
    reveal_strlit("\n\n");
    reveal_strlit(": ping\n\n");
    assert forall|event: Event| (#[trigger] frame(event))[0] == (if event is Ping {
        ':'
    } else {
        'e'
    }) && (event is Ping || frame(event)[7] == (match event {
        Event::Reload => 'r',
        Event::Images => 'i',
        _ => 's',
    })) by {
        if let Event::Scroll(line) = event {
            let head = "event: scroll\ndata: "@;
            assert(frame(event)[0] == head[0] && frame(event)[7] == head[7]);
        }
    }
    if let (Event::Scroll(m), Event::Scroll(n)) = (a, b) {
        assert(frame(a).subrange(20, frame(a).len() - 2) == decimal(m as nat));
        assert(frame(b).subrange(20, frame(b).len() - 2) == decimal(n as nat));
        different_numbers_look_different(m as nat, n as nat);
    }
}

/// Each event is a named event with its data, and a heartbeat is a comment.
pub proof fn a_frame_names_its_event(line: u32)
    ensures
        frame(Event::Reload) == "event: reload\ndata:\n\n"@,
        frame(Event::Images) == "event: images\ndata:\n\n"@,
        frame(Event::Scroll(line)) == "event: scroll\ndata: "@ + decimal(line as nat) + "\n\n"@,
        frame(Event::Ping) == ": ping\n\n"@,
{
}

} // verus!
