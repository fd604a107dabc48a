//! One connection on the control socket, from the line that came in to the
//! reply: what has to be looked up for it in which order, and what it does to
//! the session.

use vstd::prelude::*;
use vstd::string::*;

use crate::control::{
    command_in, farewell, incoming, leaving, CommandView, ControlSocket, Farewell, Incoming, Reply,
    ReplyView, Request, RequestView,
};
use crate::event::Event;
use crate::path::{has_root, FilePath};
use crate::server::{probe, socket_view, Config, ConfigView, Probe, PROBE_GAP_MS};
use crate::session::{opened, well_formed, Session, SessionView};

verus! {

/// How far a call has come: what it is waiting for.
#[derive(Debug)]
pub enum CallPhase {
    /// Whether the path of the request is a file.
    Check(Request),
    /// How many tabs are connected, after this many pings.
    Count(u8),
    /// For the goodbye to be said.
    Goodbye,
    /// What is at the socket's path now.
    Leaving,
    /// Nothing.
    Done,
}

/// What a [`CallPhase`] says.
#[verifier::ext_equal]
pub enum CallPhaseView {
    Check(RequestView),
    Count(u8),
    Goodbye,
    Leaving,
    Done,
}

impl View for CallPhase {
    type V = CallPhaseView;

    open spec fn view(&self) -> CallPhaseView {
        match self {
            CallPhase::Check(request) => CallPhaseView::Check(request@),
            CallPhase::Count(sent) => CallPhaseView::Count(*sent),
            CallPhase::Goodbye => CallPhaseView::Goodbye,
            CallPhase::Leaving => CallPhaseView::Leaving,
            CallPhase::Done => CallPhaseView::Done,
        }
    }
}

/// One connection on the control socket.
#[derive(Debug)]
pub struct Call {
    /// The server's base URL.
    url: String,
    /// The server's control socket.
    socket: Option<ControlSocket>,
    /// Whether the process ends when the server goes away.
    exit_on_quit: bool,
    phase: CallPhase,
}

/// What a [`Call`] holds.
#[verifier::ext_equal]
pub struct CallView {
    pub url: Seq<char>,
    pub socket: Option<(Seq<u8>, u64)>,
    pub exit_on_quit: bool,
    pub phase: CallPhaseView,
}

impl View for Call {
    type V = CallView;

    closed spec fn view(&self) -> CallView {
        CallView {
            url: self.url@,
            socket: socket_view(self.socket),
            exit_on_quit: self.exit_on_quit,
            phase: self.phase@,
        }
    }
}

/// What a call needs next.
#[derive(Debug)]
pub enum CallNeed {
    /// Whether the path is a file.
    IsFile(FilePath),
    /// How many tabs are connected, after a ping to all of them if there is to
    /// be one, and a pause of this many milliseconds.
    Count { ping: bool, pause_ms: u64 },
    /// This reply.
    Reply(Reply),
    /// The reply [`Reply::Bye`], as far as it can be sent.
    Goodbye,
    /// The inode of what is at the path, if anything is.
    Inode(FilePath),
    /// That the server goes away.
    Leave(Farewell),
    /// Nothing: the call was not waiting for this.
    Ignore,
}

/// What a [`CallNeed`] says.
#[verifier::ext_equal]
pub enum CallNeedView {
    IsFile(Seq<u8>),
    Count { ping: bool, pause_ms: u64 },
    Reply(ReplyView),
    Goodbye,
    Inode(Seq<u8>),
    Leave(Farewell),
    Ignore,
}

impl View for CallNeed {
    type V = CallNeedView;

    open spec fn view(&self) -> CallNeedView {
        match self {
            CallNeed::IsFile(path) => CallNeedView::IsFile(path@),
            CallNeed::Count { ping, pause_ms } => CallNeedView::Count {
                ping: *ping,
                pause_ms: *pause_ms,
            },
            CallNeed::Reply(reply) => CallNeedView::Reply(reply@),
            CallNeed::Goodbye => CallNeedView::Goodbye,
            CallNeed::Inode(path) => CallNeedView::Inode(path@),
            CallNeed::Leave(plan) => CallNeedView::Leave(*plan),
            CallNeed::Ignore => CallNeedView::Ignore,
        }
    }
}

/// What came of a need.
#[derive(Debug, Clone, Copy, PartialEq, Eq, Structural)]
pub enum CallGot {
    IsFile(bool),
    Active(usize),
    /// The goodbye was said, or could not be.
    Said,
    Inode(Option<u64>),
}

/// What a line on the control socket needs first, and how far the call has come
/// with that.
pub open spec fn called(line: Seq<char>) -> (CallPhaseView, CallNeedView) {
    match command_in(line) {
        Ok(CommandView::Open(request)) => (
            CallPhaseView::Check(request),
            CallNeedView::IsFile(request.path),
        ),
        Ok(CommandView::Quit) => (CallPhaseView::Goodbye, CallNeedView::Goodbye),
        Err(reason) => (
            CallPhaseView::Done,
            CallNeedView::Reply(ReplyView::Refused("bad request: "@ + reason)),
        ),
    }
}

/// What a call needs next, how far it has come with that, what becomes of the
/// session, and what the tabs hear.
pub open spec fn continued(call: CallView, got: CallGot, session: SessionView) -> (
    CallView,
    CallNeedView,
    SessionView,
    Seq<Event>,
) {
    match (call.phase, got) {
        (CallPhaseView::Check(request), CallGot::IsFile(is_file)) => match opened(
            session,
            request,
            is_file,
        ) {
            Ok((next, events)) => (
                CallView { phase: CallPhaseView::Count(0), ..call },
                CallNeedView::Count { ping: false, pause_ms: 0 },
                next,
                events,
            ),
            Err(reason) => (
                CallView { phase: CallPhaseView::Done, ..call },
                CallNeedView::Reply(ReplyView::Refused(reason)),
                session,
                seq![],
            ),
        },
        (CallPhaseView::Count(sent), CallGot::Active(active)) => if sent < 2 && active > 0 {
            (
                CallView { phase: CallPhaseView::Count((sent + 1) as u8), ..call },
                CallNeedView::Count { ping: true, pause_ms: PROBE_GAP_MS },
                session,
                seq![],
            )
        } else {
            (
                CallView { phase: CallPhaseView::Done, ..call },
                CallNeedView::Reply(ReplyView::Accepted { url: call.url, clients: active }),
                session,
                seq![],
            )
        },
        (CallPhaseView::Goodbye, CallGot::Said) => match call.socket {
            Some((path, _)) => (
                CallView { phase: CallPhaseView::Leaving, ..call },
                CallNeedView::Inode(path),
                session,
                seq![],
            ),
            None => (
                CallView { phase: CallPhaseView::Done, ..call },
                CallNeedView::Leave(leaving(None, None, call.exit_on_quit)),
                session,
                seq![],
            ),
        },
        (CallPhaseView::Leaving, CallGot::Inode(found)) => (
            CallView { phase: CallPhaseView::Done, ..call },
            CallNeedView::Leave(leaving(found, call.socket, call.exit_on_quit)),
            session,
            seq![],
        ),
        _ => (call, CallNeedView::Ignore, session, seq![]),
    }
}

/// The call that a line on the control socket begins, for a server that runs as
/// `config` says.
pub open spec fn call_begun(line: Seq<char>, config: ConfigView) -> CallView {
    CallView {
        url: config.url,
        socket: config.control,
        exit_on_quit: config.exit_on_quit,
        phase: called(line).0,
    }
}

impl Call {
    /// Take in a line for a server that runs as `config` says.
    pub fn receive(line: &str, config: &Config) -> (begun: (Call, CallNeed))
        ensures
            begun.0@ == call_begun(line@, config@),
            begun.1@ == called(line@).1,
    {
        let (phase, need) = match incoming(line) {
            Incoming::Open(request) => {
                let path = request.path.clone();
                (CallPhase::Check(request), CallNeed::IsFile(path))
            },
            Incoming::Quit => (CallPhase::Goodbye, CallNeed::Goodbye),
            Incoming::Malformed(reply) => (CallPhase::Done, CallNeed::Reply(reply)),
        };
        let socket = match &config.control {
            Some(socket) => Some(
                ControlSocket { path: socket.path.clone(), inode: socket.inode },
            ),
            None => None,
        };
        let call = Call {
            url: config.url.clone(),
            socket,
            exit_on_quit: config.exit_on_quit,
            phase,
        };
        (call, need)
    }

    /// Go on with what came of the last need.
    pub fn step(&mut self, got: CallGot, session: &mut Session) -> (progress: (
        CallNeed,
        Vec<Event>,
    ))
        ensures
            (final(self)@, progress.0@, final(session)@, progress.1@) == continued(
                old(self)@,
                got,
                old(session)@,
            ),
    {
        let none: Vec<Event> = Vec::new();
        assert(none@ == Seq::<Event>::empty());
        let mut phase = CallPhase::Done;
        std::mem::swap(&mut phase, &mut self.phase);
        match (phase, got) {
            (CallPhase::Check(request), CallGot::IsFile(is_file)) => {
                match session.open(request, is_file) {
                    Ok(events) => {
                        self.phase = CallPhase::Count(0);
                        (CallNeed::Count { ping: false, pause_ms: 0 }, events)
                    },
                    Err(reply) => (CallNeed::Reply(reply), none),
                }
            },
            (CallPhase::Count(sent), CallGot::Active(active)) => match probe(sent, active) {
                Probe::Ping => {
                    self.phase = CallPhase::Count(sent + 1);
                    (CallNeed::Count { ping: true, pause_ms: PROBE_GAP_MS }, none)
                },
                Probe::Done(clients) => (
                    CallNeed::Reply(Reply::Accepted { url: self.url.clone(), clients }),
                    none,
                ),
            },
            (CallPhase::Goodbye, CallGot::Said) => match &self.socket {
                Some(socket) => {
                    let path = socket.path.clone();
                    self.phase = CallPhase::Leaving;
                    (CallNeed::Inode(path), none)
                },
                None => (CallNeed::Leave(farewell(None, None, self.exit_on_quit)), none),
            },
            (CallPhase::Leaving, CallGot::Inode(found)) => {
                let plan = farewell(found, self.socket.as_ref(), self.exit_on_quit);
                (CallNeed::Leave(plan), none)
            },
            (phase, _) => {
                self.phase = phase;
                (CallNeed::Ignore, none)
            },
        }
    }
}

/// Only an absolute path that names a file is accepted; after any other request
/// the session is as it was, and no tab hears of it.
pub proof fn a_refused_call_changes_nothing(call: CallView, got: CallGot, session: SessionView)
    ensures
        ({
            let (then, need, after, events) = continued(call, got, session);
            &&& need matches CallNeedView::Reply(reply) ==> reply is Refused ==> after == session
                && events.len() == 0
            &&& then.phase is Count && call.phase is Check ==> {
                &&& call.phase matches CallPhaseView::Check(request) && has_root(request.path)
                &&& got == CallGot::IsFile(true)
            }
            &&& well_formed(session) ==> well_formed(after)
        }),
{
}

/// How often the tabs are pinged in the course of a call.
pub open spec fn pings(call: CallView, gots: Seq<CallGot>, session: SessionView) -> int
    decreases gots.len(),
{
    if gots.len() == 0 {
        0
    } else {
        let (then, need, after, events) = continued(call, gots[0], session);
        let now: int = if need matches CallNeedView::Count { ping, .. } && ping {
            1
        } else {
            0
        };
        now + pings(then, gots.skip(1), after)
    }
}

/// How many pings a call has left.
spec fn pings_left(phase: CallPhaseView) -> int {
    match phase {
        CallPhaseView::Check(_) => 2,
        CallPhaseView::Count(sent) => if sent < 2 {
            2 - sent
        } else {
            0
        },
        _ => 0,
    }
}

/// A call never pings more often than it has pings left.
proof fn lemma_pings(call: CallView, gots: Seq<CallGot>, session: SessionView)
    ensures
        pings(call, gots, session) <= pings_left(call.phase),
    decreases gots.len(),
{
    if gots.len() > 0 {
        let (then, need, after, events) = continued(call, gots[0], session);
        lemma_pings(then, gots.skip(1), after);
    }
}

/// Two pings at most go out before a call is answered, however many tabs seem
/// to be connected.
pub proof fn a_call_pings_at_most_twice(
    line: Seq<char>,
    config: ConfigView,
    gots: Seq<CallGot>,
    session: SessionView,
)
    ensures
        pings(call_begun(line, config), gots, session) <= 2,
{
    lemma_pings(call_begun(line, config), gots, session);
}

/// The server goes away only when it was asked to, and only after it has said
/// goodbye, as far as it could. It removes what is at its socket's path exactly
/// if that is still the socket that it bound, and ends the process exactly if it
/// runs so. The session stays as it is, and no tab hears of it.
pub proof fn a_server_says_goodbye_before_it_goes(
    line: Seq<char>,
    call: CallView,
    got: CallGot,
    session: SessionView,
)
    ensures
        called(line).0 is Goodbye <==> (command_in(line) matches Ok(command) && command is Quit),
        called(line).0 is Goodbye ==> called(line).1 is Goodbye,
        called(line).0 !is Leaving && called(line).1 !is Leave,
        ({
            let (then, need, after, events) = continued(call, got, session);
            &&& then.phase is Goodbye ==> then == call
            &&& then.phase is Leaving ==> then == call || call.phase is Goodbye && got is Said
            &&& need matches CallNeedView::Leave(plan) ==> {
                &&& call.phase is Leaving || call.phase is Goodbye && got is Said
                &&& plan.remove ==> call.socket is Some && got == CallGot::Inode(
                    Some((call.socket->0).1),
                )
                &&& call.socket is Some && got == CallGot::Inode(Some((call.socket->0).1))
                    ==> plan.remove
                &&& plan.exit == call.exit_on_quit
                &&& after == session && events.len() == 0
            }
        }),
{
}

/// Over a whole call that asks to show a document: its path is looked up, the
/// session is opened there, the tabs are counted, and the reply says the
/// server's URL and the last count, or why the request was refused.
pub proof fn an_open_call_is_answered(
    line: Seq<char>,
    config: ConfigView,
    request: RequestView,
    is_file: bool,
    session: SessionView,
)
    requires
        command_in(line) == Ok::<CommandView, Seq<char>>(CommandView::Open(request)),
    ensures
        called(line).1 == CallNeedView::IsFile(request.path),
        ({
            let call = call_begun(line, config);
            let (then, need, after, events) = continued(call, CallGot::IsFile(is_file), session);
            match opened(session, request, is_file) {
                Ok((next, heard)) => {
                    &&& need == (CallNeedView::Count { ping: false, pause_ms: 0 })
                    &&& then.phase == CallPhaseView::Count(0)
                    &&& after == next && events == heard
                },
                Err(reason) => {
                    &&& need == CallNeedView::Reply(ReplyView::Refused(reason))
                    &&& then.phase is Done
                    &&& after == session && events.len() == 0
                },
            }
        }),
{
}

/// Tabs that seem to be connected are pinged, twice at most and a moment apart;
/// then, or as soon as there are none, the reply says how many there are, and
/// the URL of the server.
pub proof fn the_reply_says_how_many_tabs_there_are(
    call: CallView,
    sent: u8,
    active: usize,
    session: SessionView,
)
    requires
        call.phase == CallPhaseView::Count(sent),
    ensures
        ({
            let (then, need, after, events) = continued(call, CallGot::Active(active), session);
            &&& after == session && events.len() == 0
            &&& sent < 2 && active > 0 ==> need == (CallNeedView::Count {
                ping: true,
                pause_ms: 25,
            }) && then.phase == CallPhaseView::Count((sent + 1) as u8)
            &&& sent >= 2 || active == 0 ==> then.phase is Done && need == CallNeedView::Reply(
                ReplyView::Accepted { url: call.url, clients: active },
            )
        }),
{
}

/// A call goes by how the server runs, whatever comes of it; a line that is no
/// command is answered with the reason at once.
pub proof fn a_call_goes_by_the_configuration(
    line: Seq<char>,
    config: ConfigView,
    got: CallGot,
    session: SessionView,
)
    ensures
        ({
            let call = call_begun(line, config);
            &&& call.url == config.url
            &&& call.socket == config.control
            &&& call.exit_on_quit == config.exit_on_quit
            &&& call.phase == called(line).0
        }),
        forall|call: CallView|
            {
                let then = (#[trigger] continued(call, got, session)).0;
                then.url == call.url && then.socket == call.socket && then.exit_on_quit
                    == call.exit_on_quit
            },
        command_in(line) matches Ok(CommandView::Open(request)) ==> called(line).0
            == CallPhaseView::Check(request),
        command_in(line) matches Ok(CommandView::Quit) ==> called(line).0 is Goodbye && called(
            line,
        ).1 is Goodbye,
        command_in(line) matches Err(reason) ==> called(line).0 is Done && called(line).1
            == CallNeedView::Reply(ReplyView::Refused("bad request: "@ + reason)),
{
}

/// Over a whole call that asks the server to go: once the goodbye is said, what
/// is at the socket's path is looked up, if there is a socket; and the server
/// leaves.
pub proof fn a_quit_call_ends_the_server(
    call: CallView,
    found: Option<u64>,
    session: SessionView,
)
    ensures
        call.phase is Goodbye ==> ({
            let (then, need, after, events) = continued(call, CallGot::Said, session);
            &&& call.socket is Some ==> then.phase is Leaving && need == CallNeedView::Inode(
                (call.socket->0).0,
            )
            &&& call.socket is None ==> then.phase is Done && (need matches CallNeedView::Leave(
                plan,
            ) && !plan.remove && plan.exit == call.exit_on_quit)
            &&& after == session && events.len() == 0
        }),
        call.phase is Leaving ==> ({
            let (then, need, after, events) = continued(call, CallGot::Inode(found), session);
            &&& then.phase is Done
            &&& need matches CallNeedView::Leave(plan) && plan.exit == call.exit_on_quit && (
            plan.remove <==> call.socket is Some && found == Some((call.socket->0).1))
            &&& after == session && events.len() == 0
        }),
{
}

/// What a call does not wait for changes nothing.
pub proof fn a_call_ignores_what_it_does_not_await(
    call: CallView,
    got: CallGot,
    session: SessionView,
)
    requires
        call.phase is Check ==> !(got is IsFile),
        call.phase is Count ==> !(got is Active),
        call.phase is Goodbye ==> !(got is Said),
        call.phase is Leaving ==> !(got is Inode),
    ensures
        continued(call, got, session) == (
            call,
            CallNeedView::Ignore,
            session,
            Seq::<Event>::empty(),
        ),
{
}

/// What a call needs is said as it is, and its pings are counted one by one.
pub proof fn call_needs_say_what_they_hold(
    need: CallNeed,
    call: CallView,
    got: CallGot,
    gots: Seq<CallGot>,
    session: SessionView,
)
    ensures
        need matches CallNeed::IsFile(path) ==> need@ == CallNeedView::IsFile(path@),
        need matches CallNeed::Count { ping, pause_ms } ==> need@ == (CallNeedView::Count {
            ping,
            pause_ms,
        }),
        need matches CallNeed::Reply(reply) ==> need@ == CallNeedView::Reply(reply@),
        need matches CallNeed::Inode(path) ==> need@ == CallNeedView::Inode(path@),
        need matches CallNeed::Leave(plan) ==> need@ == CallNeedView::Leave(plan),
        need is Goodbye <==> need@ is Goodbye,
        need is Ignore <==> need@ is Ignore,
        pings(call, Seq::empty(), session) == 0,
        ({
            let (then, asked, after, events) = continued(call, got, session);
            pings(call, seq![got] + gots, session) == pings(then, gots, after) + (if asked
                matches CallNeedView::Count { ping, .. } && ping {
                1int
            } else {
                0
            })
        }),
{
    assert((seq![got] + gots).skip(1) == gots);
}

} // verus!
