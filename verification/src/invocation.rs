//! One run of the program, from its command line to its exit or to a server:
//! what it does in which order, and what it makes of what came of it.
//!
//! Sync mode only tells a running server to show the file and scroll. Quit mode
//! asks a running server to exit. Restart mode quits, waits for the socket, then
//! opens. Open mode hands the file to a running server, or starts one.

use vstd::prelude::*;
use vstd::string::*;

use crate::cli::{
    alone, announce, classify, expand_home, failure, failure_text, file_text, home_path, is_past,
    local_url, page_at, path_view, quit_outcome, restart_plan, reuse, reuse_of, sent_view,
    socket_warning, sync_target, text_view, unreachable_server, wait_for_exit, without_control,
    Announcement, Args, ArgsView, Launch, LaunchView, Mode, Restart, Reuse, ReuseView, Stop,
    Waiting, LINGERING, OPEN_TIMEOUT_MS, REFUSED, RESTART_STEP_MS, RESTART_TIMEOUT_MS,
    SYNC_TIMEOUT_MS,
};
use crate::control::{
    reply_in, reply_is_one_line, reply_line, reply_reads_back, Command, CommandView, ControlSocket,
    Reply, ReplyView, Request, RequestView, SendError, SendErrorView,
};
use crate::decimal::{decimal, is_digit, lemma_decimal_digits};
use crate::idle::IDLE_GRACE;
use crate::path::FilePath;
use crate::render::names_markdown;
use crate::server::{socket_view, Config, ConfigView};
use crate::text::lossy_text;
use vstd::utf8::encode_utf8;

verus! {

/// How far a run has come: what it is waiting for.
#[derive(Debug)]
pub enum Phase {
    /// Sync mode, for its file to be resolved.
    SyncResolve,
    /// Sync mode, for the socket's directory to be checked.
    SyncCheck(FilePath),
    /// Sync mode, for the server to answer.
    SyncSend,
    /// Quit or Restart mode, for the socket's directory to be checked.
    StopCheck,
    /// Quit or Restart mode, for the server to answer.
    StopSend,
    /// Restart mode, for the server to be gone.
    StopWait,
    /// Opening, for the file to be resolved.
    OpenResolve,
    /// Opening, for the socket's directory to be checked.
    OpenCheck(FilePath),
    /// Opening, for the server to answer.
    OpenSend(FilePath),
    /// Opening, for the socket to be bound.
    OpenBind(FilePath),
    /// Opening, for a port to be bound.
    OpenListen(FilePath, Option<ControlSocket>),
    /// Nothing.
    Done,
}

/// What a [`Phase`] says.
#[verifier::ext_equal]
pub enum PhaseView {
    SyncResolve,
    SyncCheck(Seq<u8>),
    SyncSend,
    StopCheck,
    StopSend,
    StopWait,
    OpenResolve,
    OpenCheck(Seq<u8>),
    OpenSend(Seq<u8>),
    OpenBind(Seq<u8>),
    OpenListen(Seq<u8>, Option<(Seq<u8>, u64)>),
    Done,
}

impl View for Phase {
    type V = PhaseView;

    open spec fn view(&self) -> PhaseView {
        match self {
            Phase::SyncResolve => PhaseView::SyncResolve,
            Phase::SyncCheck(path) => PhaseView::SyncCheck(path@),
            Phase::SyncSend => PhaseView::SyncSend,
            Phase::StopCheck => PhaseView::StopCheck,
            Phase::StopSend => PhaseView::StopSend,
            Phase::StopWait => PhaseView::StopWait,
            Phase::OpenResolve => PhaseView::OpenResolve,
            Phase::OpenCheck(file) => PhaseView::OpenCheck(file@),
            Phase::OpenSend(file) => PhaseView::OpenSend(file@),
            Phase::OpenBind(file) => PhaseView::OpenBind(file@),
            Phase::OpenListen(file, socket) => PhaseView::OpenListen(file@, socket_view(*socket)),
            Phase::Done => PhaseView::Done,
        }
    }
}

/// What a run does next.
#[derive(Debug)]
pub enum Action {
    /// Make the path absolute and resolve its symlinks.
    Resolve(FilePath),
    /// Make sure that nobody else has access to the socket's directory.
    CheckDir,
    /// Send a command to the server on the socket, and wait no longer than
    /// this many milliseconds.
    Send(Command, u64),
    /// See whether the old server still listens, after a pause of this many
    /// milliseconds.
    Look { pause_ms: u64 },
    /// Bind the socket.
    Bind,
    /// Bind a local port, after printing a warning if there is one.
    Listen(Option<String>),
    /// Announce the preview, and serve the file.
    Serve(FilePath, Config, Announcement),
    /// Open a browser tab, print to stdout and to stderr, and exit.
    Exit { code: i32, browse: Option<String>, out: Option<String>, err: Option<String> },
    /// Nothing: the run was not waiting for this.
    Ignore,
}

/// What an [`Action`] says.
#[verifier::ext_equal]
pub enum ActionView {
    Resolve(Seq<u8>),
    CheckDir,
    Send(CommandView, u64),
    Look { pause_ms: u64 },
    Bind,
    Listen(Option<Seq<char>>),
    Serve { file: Seq<u8>, config: ConfigView, browse: Option<Seq<char>>, print: Option<Seq<char>> },
    Exit {
        code: i32,
        browse: Option<Seq<char>>,
        out: Option<Seq<char>>,
        err: Option<Seq<char>>,
    },
    Ignore,
}

impl View for Action {
    type V = ActionView;

    open spec fn view(&self) -> ActionView {
        match self {
            Action::Resolve(path) => ActionView::Resolve(path@),
            Action::CheckDir => ActionView::CheckDir,
            Action::Send(command, timeout) => ActionView::Send(command@, *timeout),
            Action::Look { pause_ms } => ActionView::Look { pause_ms: *pause_ms },
            Action::Bind => ActionView::Bind,
            Action::Listen(warning) => ActionView::Listen(text_view(*warning)),
            Action::Serve(file, config, announcement) => ActionView::Serve {
                file: file@,
                config: config@,
                browse: text_view(announcement.browse),
                print: text_view(announcement.print),
            },
            Action::Exit { code, browse, out, err } => ActionView::Exit {
                code: *code,
                browse: text_view(*browse),
                out: text_view(*out),
                err: text_view(*err),
            },
            Action::Ignore => ActionView::Ignore,
        }
    }
}

/// What came of an action.
#[derive(Debug)]
pub enum Outcome {
    /// The resolved path, or what the system says.
    Resolved(Result<FilePath, String>),
    /// Nothing against the directory, or what is wrong with it.
    Checked(Result<(), String>),
    /// The server's reply, or why there is none.
    Sent(Result<Reply, SendError>),
    /// Whether the old server still listens, and for how many milliseconds it
    /// has been waited for.
    Looked { listening: bool, waited_ms: u64 },
    /// The inode of the socket, or what the system says.
    Bound(Result<u64, String>),
    /// The port, or what the system says.
    Port(Result<u16, String>),
}

/// What an [`Outcome`] says.
#[verifier::ext_equal]
pub enum OutcomeView {
    Resolved(Result<Seq<u8>, Seq<char>>),
    Checked(Result<(), Seq<char>>),
    Sent(Result<ReplyView, SendErrorView>),
    Looked { listening: bool, waited_ms: u64 },
    Bound(Result<u64, Seq<char>>),
    Port(Result<u16, Seq<char>>),
}

impl View for Outcome {
    type V = OutcomeView;

    open spec fn view(&self) -> OutcomeView {
        match self {
            Outcome::Resolved(Ok(path)) => OutcomeView::Resolved(Ok(path@)),
            Outcome::Resolved(Err(text)) => OutcomeView::Resolved(Err(text@)),
            Outcome::Checked(Ok(_)) => OutcomeView::Checked(Ok(())),
            Outcome::Checked(Err(text)) => OutcomeView::Checked(Err(text@)),
            Outcome::Sent(result) => OutcomeView::Sent(sent_view(*result)),
            Outcome::Looked { listening, waited_ms } => OutcomeView::Looked {
                listening: *listening,
                waited_ms: *waited_ms,
            },
            Outcome::Bound(Ok(inode)) => OutcomeView::Bound(Ok(*inode)),
            Outcome::Bound(Err(text)) => OutcomeView::Bound(Err(text@)),
            Outcome::Port(Ok(port)) => OutcomeView::Port(Ok(*port)),
            Outcome::Port(Err(text)) => OutcomeView::Port(Err(text@)),
        }
    }
}

/// One run of the program.
#[derive(Debug)]
pub struct Invocation {
    mode: Mode,
    /// The file as it was named.
    file: String,
    /// The file with its `~` expanded.
    target: FilePath,
    line: Option<u32>,
    no_open: bool,
    /// Whether stdout is a terminal.
    terminal: bool,
    /// Whether the system has control sockets.
    controlled: bool,
    /// Where the control socket lives.
    socket: FilePath,
    phase: Phase,
}

/// What an [`Invocation`] holds.
#[verifier::ext_equal]
pub struct InvocationView {
    pub mode: Mode,
    pub file: Seq<char>,
    pub target: Seq<u8>,
    pub line: Option<u32>,
    pub no_open: bool,
    pub terminal: bool,
    pub controlled: bool,
    pub socket: Seq<u8>,
    pub phase: PhaseView,
}

impl View for Invocation {
    type V = InvocationView;

    closed spec fn view(&self) -> InvocationView {
        InvocationView {
            mode: self.mode,
            file: self.file@,
            target: self.target@,
            line: self.line,
            no_open: self.no_open,
            terminal: self.terminal,
            controlled: self.controlled,
            socket: self.socket@,
            phase: self.phase@,
        }
    }
}

/// An exit without a word.
pub open spec fn silence() -> ActionView {
    ActionView::Exit { code: 0, browse: None, out: None, err: None }
}

/// An exit with a failure.
pub open spec fn failing(text: Seq<char>) -> ActionView {
    ActionView::Exit { code: 1, browse: None, out: None, err: Some(text) }
}

/// The warning that the control socket cannot be used.
pub open spec fn socket_warning_text(socket: Seq<u8>, reason: Seq<char>) -> Seq<char> {
    failure_text(
        "cannot use "@ + lossy_text(socket) + " ("@ + reason + "); running a standalone preview"@,
    )
}

/// A run in another phase.
pub open spec fn at(run: InvocationView, phase: PhaseView) -> InvocationView {
    InvocationView { phase, ..run }
}

/// What the settings of a new server are.
pub open spec fn new_config(port: u16, control: Option<(Seq<u8>, u64)>) -> ConfigView {
    ConfigView {
        url: "http://127.0.0.1:"@ + decimal(port as nat) + "/"@,
        idle_grace: Some(IDLE_GRACE),
        control,
        exit_on_quit: true,
    }
}

/// What follows when a running server was asked to quit and it is gone, or is
/// going, or there was none.
pub open spec fn after_stop(run: InvocationView, gone: bool) -> (InvocationView, ActionView) {
    if run.mode == Mode::Restart {
        if gone {
            (at(run, PhaseView::OpenResolve), ActionView::Resolve(run.target))
        } else {
            (at(run, PhaseView::StopWait), ActionView::Look { pause_ms: 0 })
        }
    } else {
        let report = if gone {
            "no preview server running"@
        } else {
            "stopped the preview server"@
        };
        (
            at(run, PhaseView::Done),
            ActionView::Exit {
                code: 0,
                browse: None,
                out: if run.terminal {
                    Some(report)
                } else {
                    None
                },
                err: None,
            },
        )
    }
}

/// What follows from an outcome: how far the run has come then, and what it
/// does next.
pub open spec fn next(run: InvocationView, outcome: OutcomeView) -> (InvocationView, ActionView) {
    match (run.phase, outcome) {
        (PhaseView::SyncResolve, OutcomeView::Resolved(Ok(path))) => (
            at(run, PhaseView::SyncCheck(path)),
            ActionView::CheckDir,
        ),
        (PhaseView::SyncResolve, OutcomeView::Resolved(Err(_))) => (
            at(run, PhaseView::Done),
            silence(),
        ),
        (PhaseView::SyncCheck(path), OutcomeView::Checked(Ok(_))) => (
            at(run, PhaseView::SyncSend),
            ActionView::Send(
                CommandView::Open(RequestView { path, line: run.line }),
                SYNC_TIMEOUT_MS,
            ),
        ),
        (PhaseView::SyncCheck(_), OutcomeView::Checked(Err(_))) => (
            at(run, PhaseView::Done),
            silence(),
        ),
        (PhaseView::SyncSend, OutcomeView::Sent(_)) => (at(run, PhaseView::Done), silence()),
        (PhaseView::StopCheck, OutcomeView::Checked(Ok(_))) => (
            at(run, PhaseView::StopSend),
            ActionView::Send(CommandView::Quit, OPEN_TIMEOUT_MS),
        ),
        (PhaseView::StopCheck, OutcomeView::Checked(Err(reason))) => if run.mode == Mode::Restart {
            after_stop(run, true)
        } else {
            (
                at(run, PhaseView::Done),
                failing(failure_text("control socket is unusable: "@ + reason)),
            )
        },
        (PhaseView::StopSend, OutcomeView::Sent(Ok(ReplyView::Bye))) => after_stop(run, false),
        (PhaseView::StopSend, OutcomeView::Sent(Err(SendErrorView::NoServer))) => after_stop(
            run,
            true,
        ),
        (PhaseView::StopSend, OutcomeView::Sent(_)) => (
            at(run, PhaseView::Done),
            failing(failure_text(REFUSED@)),
        ),
        (PhaseView::StopWait, OutcomeView::Looked { listening, waited_ms }) => if !listening {
            after_stop(run, true)
        } else if waited_ms >= RESTART_TIMEOUT_MS {
            (at(run, PhaseView::Done), failing(failure_text(LINGERING@)))
        } else {
            (run, ActionView::Look { pause_ms: RESTART_STEP_MS })
        },
        (PhaseView::OpenResolve, OutcomeView::Resolved(Ok(file))) => if run.controlled {
            (at(run, PhaseView::OpenCheck(file)), ActionView::CheckDir)
        } else {
            (at(run, PhaseView::OpenListen(file, None)), ActionView::Listen(None))
        },
        (PhaseView::OpenResolve, OutcomeView::Resolved(Err(text))) => (
            at(run, PhaseView::Done),
            failing(failure_text("cannot open "@ + run.file + ": "@ + text)),
        ),
        (PhaseView::OpenCheck(file), OutcomeView::Checked(Ok(_))) => (
            at(run, PhaseView::OpenSend(file)),
            ActionView::Send(
                CommandView::Open(RequestView { path: file, line: run.line }),
                OPEN_TIMEOUT_MS,
            ),
        ),
        (PhaseView::OpenCheck(file), OutcomeView::Checked(Err(reason))) => (
            at(run, PhaseView::OpenListen(file, None)),
            ActionView::Listen(Some(socket_warning_text(run.socket, reason))),
        ),
        (PhaseView::OpenSend(file), OutcomeView::Sent(sent)) => match reuse_of(
            sent,
            run.no_open,
            run.line,
        ) {
            ReuseView::Print(url) => (
                at(run, PhaseView::Done),
                ActionView::Exit { code: 0, browse: None, out: Some(url), err: None },
            ),
            ReuseView::Browse(url) => (
                at(run, PhaseView::Done),
                ActionView::Exit { code: 0, browse: Some(url), out: None, err: None },
            ),
            ReuseView::Shown => (at(run, PhaseView::Done), silence()),
            ReuseView::Fail(text) => (at(run, PhaseView::Done), failing(text)),
            ReuseView::Bind => (at(run, PhaseView::OpenBind(file)), ActionView::Bind),
            ReuseView::Standalone(text) => (
                at(run, PhaseView::OpenListen(file, None)),
                ActionView::Listen(Some(text)),
            ),
        },
        (PhaseView::OpenBind(file), OutcomeView::Bound(Ok(inode))) => (
            at(run, PhaseView::OpenListen(file, Some((run.socket, inode)))),
            ActionView::Listen(None),
        ),
        (PhaseView::OpenBind(file), OutcomeView::Bound(Err(reason))) => (
            at(run, PhaseView::OpenListen(file, None)),
            ActionView::Listen(Some(socket_warning_text(run.socket, reason))),
        ),
        (PhaseView::OpenListen(file, control), OutcomeView::Port(Ok(port))) => {
            let config = new_config(port, control);
            (
                at(run, PhaseView::Done),
                ActionView::Serve {
                    file,
                    config,
                    browse: if run.no_open {
                        None
                    } else {
                        Some(page_at(config.url, run.line))
                    },
                    print: if run.no_open || run.terminal {
                        Some(config.url)
                    } else {
                        None
                    },
                },
            )
        },
        (PhaseView::OpenListen(_, _), OutcomeView::Port(Err(text))) => (
            at(run, PhaseView::Done),
            failing(failure_text("cannot bind local port: "@ + text)),
        ),
        _ => (run, ActionView::Ignore),
    }
}

/// What a run that has nothing more to do than this starts with.
pub open spec fn run_of(
    args: ArgsView,
    home: Option<Seq<u8>>,
    socket: Seq<u8>,
    terminal: bool,
    phase: PhaseView,
) -> InvocationView {
    InvocationView {
        mode: args.mode,
        file: file_text(args),
        target: home_path(file_text(args), home),
        line: args.line,
        no_open: args.no_open,
        terminal,
        controlled: true,
        socket,
        phase,
    }
}

/// What a run does first.
pub open spec fn first_action(launch: LaunchView, home: Option<Seq<u8>>) -> ActionView {
    match launch {
        LaunchView::Answer(text) => ActionView::Exit {
            code: 0,
            browse: None,
            out: Some(text),
            err: None,
        },
        LaunchView::Silent => silence(),
        LaunchView::Misuse(text) => ActionView::Exit {
            code: 2,
            browse: None,
            out: None,
            err: Some(text),
        },
        LaunchView::Refuse(text) => failing(text),
        LaunchView::Sync(args) => if args.file is Some && names_markdown(
            encode_utf8(args.file->0),
        ) {
            ActionView::Resolve(home_path(args.file->0, home))
        } else {
            silence()
        },
        LaunchView::Quit => ActionView::CheckDir,
        LaunchView::Restart(args) => ActionView::CheckDir,
        LaunchView::Open(args) => ActionView::Resolve(home_path(file_text(args), home)),
    }
}

/// How far a run has come with that.
pub open spec fn first_phase(launch: LaunchView, home: Option<Seq<u8>>) -> PhaseView {
    match launch {
        LaunchView::Sync(_) => if first_action(launch, home) is Resolve {
            PhaseView::SyncResolve
        } else {
            PhaseView::Done
        },
        LaunchView::Quit | LaunchView::Restart(_) => PhaseView::StopCheck,
        LaunchView::Open(_) => PhaseView::OpenResolve,
        _ => PhaseView::Done,
    }
}

/// The arguments that a run goes by.
pub open spec fn launch_args(launch: LaunchView) -> ArgsView {
    match launch {
        LaunchView::Sync(args) => args,
        LaunchView::Restart(args) => args,
        LaunchView::Open(args) => args,
        _ => ArgsView { file: None, line: None, mode: Mode::Quit, no_open: false },
    }
}

/// What follows when a running server was asked to quit: this is in `stop`.
fn after_stop_action(run: &mut Invocation, stop: Stop) -> (action: Action)
    requires
        stop is Unusable ==> old(run)@.phase is StopCheck,
    ensures
        stop is Stopped ==> (final(run)@, action@) == after_stop(old(run)@, false),
        stop is NoServer ==> (final(run)@, action@) == after_stop(old(run)@, true),
        stop is Refused ==> (final(run)@, action@) == (
            at(old(run)@, PhaseView::Done),
            failing(failure_text(REFUSED@)),
        ),
        stop matches Stop::Unusable(reason) ==> (final(run)@, action@) == if old(run)@.mode
            == Mode::Restart {
            after_stop(old(run)@, true)
        } else {
            (at(old(run)@, PhaseView::Done), failing(failure_text(reason@)))
        },
{
    if run.mode == Mode::Restart {
        match restart_plan(&stop) {
            Restart::Await => {
                run.phase = Phase::StopWait;
                Action::Look { pause_ms: 0 }
            },
            Restart::Open => {
                run.phase = Phase::OpenResolve;
                Action::Resolve(run.target.clone())
            },
            Restart::Fail(text) => {
                run.phase = Phase::Done;
                Action::Exit { code: 1, browse: None, out: None, err: Some(text) }
            },
        }
    } else {
        run.phase = Phase::Done;
        match quit_outcome(stop) {
            Ok(report) => {
                let out = if run.terminal {
                    Some(report)
                } else {
                    None
                };
                Action::Exit { code: 0, browse: None, out, err: None }
            },
            Err(text) => Action::Exit { code: 1, browse: None, out: None, err: Some(text) },
        }
    }
}

/// An exit without a word.
fn exit_silently() -> (action: Action)
    ensures
        action@ == silence(),
{
    Action::Exit { code: 0, browse: None, out: None, err: None }
}

/// An exit with a failure.
fn exit_failing(text: String) -> (action: Action)
    ensures
        action@ == failing(text@),
{
    Action::Exit { code: 1, browse: None, out: None, err: Some(text) }
}

impl Invocation {
    /// Start a run: `home` is the user's home directory, `socket` where the
    /// control socket lives, and `terminal` whether stdout is a terminal.
    pub fn begin(
        launch: Launch,
        home: Option<&FilePath>,
        socket: FilePath,
        terminal: bool,
    ) -> (begun: (Invocation, Action))
        ensures
            begun.1@ == first_action(launch@, path_view(home)),
            begun.0@ == run_of(
                launch_args(launch@),
                path_view(home),
                socket@,
                terminal,
                first_phase(launch@, path_view(home)),
            ),
    {
        let none = Args { file: None, line: None, mode: Mode::Quit, no_open: false };
        let (args, phase, action) = match launch {
            Launch::Answer(text) => (
                none,
                Phase::Done,
                Action::Exit { code: 0, browse: None, out: Some(text), err: None },
            ),
            Launch::Silent => (none, Phase::Done, exit_silently()),
            Launch::Misuse(text) => (
                none,
                Phase::Done,
                Action::Exit { code: 2, browse: None, out: None, err: Some(text) },
            ),
            Launch::Refuse(text) => (none, Phase::Done, exit_failing(text)),
            Launch::Sync(args) => match sync_target(&args, home) {
                Some(path) => (args, Phase::SyncResolve, Action::Resolve(path)),
                None => (args, Phase::Done, exit_silently()),
            },
            Launch::Quit => (none, Phase::StopCheck, Action::CheckDir),
            Launch::Restart(args) => (args, Phase::StopCheck, Action::CheckDir),
            Launch::Open(args) => {
                let path = expand_home(args.file_or_empty(), home);
                (args, Phase::OpenResolve, Action::Resolve(path))
            },
        };
        let run = Invocation {
            mode: args.mode,
            file: args.file_or_empty().to_owned(),
            target: expand_home(args.file_or_empty(), home),
            line: args.line,
            no_open: args.no_open,
            terminal,
            controlled: true,
            socket,
            phase,
        };
        (run, action)
    }

    /// Start a run on a system without control sockets.
    pub fn begin_without_control(
        launch: Launch,
        home: Option<&FilePath>,
        terminal: bool,
    ) -> (begun: (Invocation, Action))
        ensures
            begun.1@ == first_action(alone(launch@), path_view(home)),
            begun.0@ == begun_alone(launch@, path_view(home), terminal),
    {
        let nowhere: Vec<u8> = Vec::new();
        assert(nowhere@ == Seq::<u8>::empty());
        let socket = FilePath::from_bytes(nowhere);
        let (mut run, action) = Invocation::begin(
            without_control(launch),
            home,
            socket,
            terminal,
        );
        run.controlled = false;
        (run, action)
    }

    /// Go on with what came of the last action.
    pub fn step(&mut self, outcome: Outcome) -> (action: Action)
        ensures
            (final(self)@, action@) == next(old(self)@, outcome@),
    {
        let mut phase = Phase::Done;
        std::mem::swap(&mut phase, &mut self.phase);
        match (phase, outcome) {
            (Phase::SyncResolve, Outcome::Resolved(Ok(path))) => {
                self.phase = Phase::SyncCheck(path);
                Action::CheckDir
            },
            (Phase::SyncResolve, Outcome::Resolved(Err(_))) => exit_silently(),
            (Phase::SyncCheck(path), Outcome::Checked(Ok(_))) => {
                self.phase = Phase::SyncSend;
                Action::Send(Command::Open(Request { path, line: self.line }), SYNC_TIMEOUT_MS)
            },
            (Phase::SyncCheck(_), Outcome::Checked(Err(_))) => exit_silently(),
            (Phase::SyncSend, Outcome::Sent(_)) => exit_silently(),
            (Phase::StopCheck, Outcome::Checked(checked)) => {
                self.phase = Phase::StopCheck;
                match checked {
                    Ok(_) => {
                        self.phase = Phase::StopSend;
                        Action::Send(Command::Quit, OPEN_TIMEOUT_MS)
                    },
                    Err(reason) => after_stop_action(self, unreachable_server(reason.as_str())),
                }
            },
            (Phase::StopSend, Outcome::Sent(result)) => {
                self.phase = Phase::StopSend;
                after_stop_action(self, classify(result))
            },
            (Phase::StopWait, Outcome::Looked { listening, waited_ms }) => {
                self.phase = Phase::StopWait;
                match wait_for_exit(listening, is_past(waited_ms)) {
                    Waiting::Open => after_stop_action(self, Stop::NoServer),
                    Waiting::Pause => Action::Look { pause_ms: RESTART_STEP_MS },
                    Waiting::Fail(text) => {
                        self.phase = Phase::Done;
                        exit_failing(text)
                    },
                }
            },
            (Phase::OpenResolve, Outcome::Resolved(Ok(file))) => {
                if self.controlled {
                    self.phase = Phase::OpenCheck(file);
                    Action::CheckDir
                } else {
                    self.phase = Phase::OpenListen(file, None);
                    Action::Listen(None)
                }
            },
            (Phase::OpenResolve, Outcome::Resolved(Err(reason))) => {
                let mut text = String::from_str("cannot open ");
                text.append(self.file.as_str());
                text.append(": ");
                text.append(reason.as_str());
                exit_failing(failure(text.as_str()))
            },
            (Phase::OpenCheck(file), Outcome::Checked(Ok(_))) => {
                let path = file.clone();
                self.phase = Phase::OpenSend(file);
                Action::Send(Command::Open(Request { path, line: self.line }), OPEN_TIMEOUT_MS)
            },
            (Phase::OpenCheck(file), Outcome::Checked(Err(reason))) => {
                self.phase = Phase::OpenListen(file, None);
                Action::Listen(Some(socket_warning(&self.socket, reason.as_str())))
            },
            (Phase::OpenSend(file), Outcome::Sent(result)) => {
                match reuse(result, self.no_open, self.line) {
                    Reuse::Print(url) => Action::Exit {
                        code: 0,
                        browse: None,
                        out: Some(url),
                        err: None,
                    },
                    Reuse::Browse(url) => Action::Exit {
                        code: 0,
                        browse: Some(url),
                        out: None,
                        err: None,
                    },
                    Reuse::Shown => exit_silently(),
                    Reuse::Fail(text) => exit_failing(text),
                    Reuse::Bind => {
                        self.phase = Phase::OpenBind(file);
                        Action::Bind
                    },
                    Reuse::Standalone(text) => {
                        self.phase = Phase::OpenListen(file, None);
                        Action::Listen(Some(text))
                    },
                }
            },
            (Phase::OpenBind(file), Outcome::Bound(Ok(inode))) => {
                let control = ControlSocket { path: self.socket.clone(), inode };
                self.phase = Phase::OpenListen(file, Some(control));
                Action::Listen(None)
            },
            (Phase::OpenBind(file), Outcome::Bound(Err(reason))) => {
                self.phase = Phase::OpenListen(file, None);
                Action::Listen(Some(socket_warning(&self.socket, reason.as_str())))
            },
            (Phase::OpenListen(file, control), Outcome::Port(Ok(port))) => {
                let url = local_url(port);
                let announcement = announce(url.as_str(), self.no_open, self.line, self.terminal);
                let config = Config {
                    url,
                    idle_grace: Some(IDLE_GRACE),
                    control,
                    exit_on_quit: true,
                };
                Action::Serve(file, config, announcement)
            },
            (Phase::OpenListen(_, _), Outcome::Port(Err(reason))) => {
                let text = String::from_str("cannot bind local port: ").concat(reason.as_str());
                exit_failing(failure(text.as_str()))
            },
            (phase, _) => {
                self.phase = phase;
                Action::Ignore
            },
        }
    }
}

/// What a run does in the course of the outcomes that it is given.
pub open spec fn actions(run: InvocationView, outcomes: Seq<OutcomeView>) -> Seq<ActionView>
    decreases outcomes.len(),
{
    if outcomes.len() == 0 {
        seq![]
    } else {
        let (then, action) = next(run, outcomes[0]);
        seq![action] + actions(then, outcomes.skip(1))
    }
}

/// The run that a launch begins.
pub open spec fn begun(
    launch: LaunchView,
    home: Option<Seq<u8>>,
    socket: Seq<u8>,
    terminal: bool,
) -> InvocationView {
    run_of(launch_args(launch), home, socket, terminal, first_phase(launch, home))
}

/// The run that a launch begins on a system without control sockets.
pub open spec fn begun_alone(
    launch: LaunchView,
    home: Option<Seq<u8>>,
    terminal: bool,
) -> InvocationView {
    InvocationView { controlled: false, ..begun(alone(launch), home, seq![], terminal) }
}

/// Whether an action is no more than Sync mode may do: it starts no server,
/// opens no tab, and prints nothing.
pub open spec fn is_unobtrusive(action: ActionView) -> bool {
    match action {
        ActionView::Resolve(_) | ActionView::CheckDir | ActionView::Ignore => true,
        ActionView::Send(command, timeout) => command is Open && timeout == SYNC_TIMEOUT_MS,
        ActionView::Exit { code, browse, out, err } => code == 0 && browse is None && out is None
            && err is None,
        _ => false,
    }
}

/// From a phase of Sync mode on, every action is unobtrusive.
proof fn lemma_sync_actions(run: InvocationView, outcomes: Seq<OutcomeView>, i: int)
    requires
        run.phase is SyncResolve || run.phase is SyncCheck || run.phase is SyncSend || run.phase
            is Done,
        0 <= i < outcomes.len(),
    ensures
        actions(run, outcomes).len() == outcomes.len(),
        is_unobtrusive(actions(run, outcomes)[i]),
    decreases outcomes.len(),
{
    let (then, action) = next(run, outcomes[0]);
    lemma_action_count(run, outcomes);
    if i > 0 {
        lemma_sync_actions(then, outcomes.skip(1), i - 1);
        assert(actions(run, outcomes)[i] == actions(then, outcomes.skip(1))[i - 1]);
    }
}

/// There is an action for each outcome.
proof fn lemma_action_count(run: InvocationView, outcomes: Seq<OutcomeView>)
    ensures
        actions(run, outcomes).len() == outcomes.len(),
    decreases outcomes.len(),
{
    if outcomes.len() > 0 {
        lemma_action_count(next(run, outcomes[0]).0, outcomes.skip(1));
    }
}

/// Sync mode only ever updates a running server: whatever happens, it starts no
/// server, opens no tab and prints nothing, and it exits with success.
pub proof fn sync_is_unobtrusive(
    launch: LaunchView,
    home: Option<Seq<u8>>,
    socket: Seq<u8>,
    terminal: bool,
    outcomes: Seq<OutcomeView>,
    i: int,
)
    requires
        launch is Sync,
        0 <= i < outcomes.len(),
    ensures
        is_unobtrusive(first_action(launch, home)),
        actions(begun(launch, home, socket, terminal), outcomes).len() == outcomes.len(),
        is_unobtrusive(actions(begun(launch, home, socket, terminal), outcomes)[i]),
{
    lemma_sync_actions(begun(launch, home, socket, terminal), outcomes, i);
}

/// Whether an action is no more than Quit mode may do: it starts no server and
/// opens no tab.
pub open spec fn is_quitting(action: ActionView) -> bool {
    match action {
        ActionView::CheckDir | ActionView::Ignore => true,
        ActionView::Send(command, _) => command is Quit,
        ActionView::Exit { browse, .. } => browse is None,
        _ => false,
    }
}

/// From a phase of Quit mode on, every action is one of quitting.
proof fn lemma_quit_actions(run: InvocationView, outcomes: Seq<OutcomeView>, i: int)
    requires
        run.mode == Mode::Quit,
        run.phase is StopCheck || run.phase is StopSend || run.phase is Done,
        0 <= i < outcomes.len(),
    ensures
        actions(run, outcomes).len() == outcomes.len(),
        is_quitting(actions(run, outcomes)[i]),
    decreases outcomes.len(),
{
    let (then, action) = next(run, outcomes[0]);
    lemma_action_count(run, outcomes);
    if i > 0 {
        lemma_quit_actions(then, outcomes.skip(1), i - 1);
        assert(actions(run, outcomes)[i] == actions(then, outcomes.skip(1))[i - 1]);
    }
}

/// Quit mode only ever asks a running server to go: whatever happens, it starts
/// no server and opens no tab.
pub proof fn quit_starts_nothing(
    home: Option<Seq<u8>>,
    socket: Seq<u8>,
    terminal: bool,
    outcomes: Seq<OutcomeView>,
    i: int,
)
    requires
        0 <= i < outcomes.len(),
    ensures
        is_quitting(first_action(LaunchView::Quit, home)),
        actions(begun(LaunchView::Quit, home, socket, terminal), outcomes).len()
            == outcomes.len(),
        is_quitting(actions(begun(LaunchView::Quit, home, socket, terminal), outcomes)[i]),
{
    lemma_quit_actions(begun(LaunchView::Quit, home, socket, terminal), outcomes, i);
}

/// Nothing is sent to a socket before its directory was found to be private,
/// and the socket is bound only where the server there was found missing.
pub proof fn the_directory_is_checked_first(run: InvocationView, outcome: OutcomeView)
    ensures
        next(run, outcome).1 is Send ==> (outcome matches OutcomeView::Checked(checked) && checked
            is Ok),
        next(run, outcome).1 is Bind ==> outcome == OutcomeView::Sent(
            Err(SendErrorView::NoServer),
        ) && run.phase is OpenSend,
{
}

/// Whether an outcome tells that no server can be had on the socket.
pub open spec fn tells_no_server(outcome: OutcomeView) -> bool {
    match outcome {
        OutcomeView::Checked(Err(_)) => true,
        OutcomeView::Sent(Err(err)) => err is NoServer || err is Unusable,
        _ => false,
    }
}

/// A run that is not yet past the server's answer serves only after an outcome
/// that told there is none.
proof fn lemma_serve_after_none(run: InvocationView, outcomes: Seq<OutcomeView>, i: int)
    requires
        run.controlled,
        !(run.phase is OpenBind),
        !(run.phase is OpenListen),
        0 <= i < outcomes.len(),
        actions(run, outcomes)[i] is Serve,
    ensures
        exists|j: int| 0 <= j < i && tells_no_server(#[trigger] outcomes[j]),
    decreases outcomes.len(),
{
    let (then, action) = next(run, outcomes[0]);
    let rest = outcomes.skip(1);
    lemma_action_count(run, outcomes);
    lemma_action_count(then, rest);
    if i > 0 {
        assert(actions(run, outcomes)[i] == actions(then, rest)[i - 1]);
        if then.phase is OpenBind || then.phase is OpenListen {
            assert(tells_no_server(outcomes[0]));
        } else {
            lemma_serve_after_none(then, rest, i - 1);
            let j = choose|j: int| 0 <= j < i - 1 && tells_no_server(#[trigger] rest[j]);
            assert(rest[j] == outcomes[j + 1]);
        }
    }
}

/// Only one server runs per user: a run starts one only after it was told that
/// there is none on the socket, or that there can be none.
pub proof fn a_server_starts_only_where_there_is_none(
    launch: LaunchView,
    home: Option<Seq<u8>>,
    socket: Seq<u8>,
    terminal: bool,
    outcomes: Seq<OutcomeView>,
    i: int,
)
    requires
        0 <= i < outcomes.len(),
        actions(begun(launch, home, socket, terminal), outcomes)[i] is Serve,
    ensures
        exists|j: int| 0 <= j < i && tells_no_server(#[trigger] outcomes[j]),
{
    lemma_serve_after_none(begun(launch, home, socket, terminal), outcomes, i);
}

/// Whether an action touches no control socket.
pub open spec fn is_alone(action: ActionView) -> bool {
    match action {
        ActionView::Resolve(_) | ActionView::Exit { .. } | ActionView::Ignore => true,
        ActionView::Listen(warning) => warning is None,
        ActionView::Serve { config, .. } => config.control is None,
        _ => false,
    }
}

/// From a phase of opening without control sockets on, no action touches one.
proof fn lemma_alone(run: InvocationView, outcomes: Seq<OutcomeView>, i: int)
    requires
        !run.controlled,
        run.phase is OpenResolve || run.phase is Done || (run.phase matches PhaseView::OpenListen(
            _,
            socket,
        ) && socket is None),
        0 <= i < outcomes.len(),
    ensures
        actions(run, outcomes).len() == outcomes.len(),
        is_alone(actions(run, outcomes)[i]),
    decreases outcomes.len(),
{
    let (then, action) = next(run, outcomes[0]);
    lemma_action_count(run, outcomes);
    if i > 0 {
        lemma_alone(then, outcomes.skip(1), i - 1);
        assert(actions(run, outcomes)[i] == actions(then, outcomes.skip(1))[i - 1]);
    }
}

/// On a system without control sockets no run touches one. Sync and Quit mode
/// do nothing there, and Restart mode does what opening does.
pub proof fn no_socket_without_control(
    launch: LaunchView,
    home: Option<Seq<u8>>,
    terminal: bool,
    outcomes: Seq<OutcomeView>,
    i: int,
)
    requires
        0 <= i < outcomes.len(),
    ensures
        is_alone(first_action(alone(launch), home)),
        launch is Sync || launch is Quit ==> first_action(alone(launch), home) == silence(),
        launch matches LaunchView::Restart(args) ==> first_action(alone(launch), home)
            == ActionView::Resolve(home_path(file_text(args), home)),
        actions(begun_alone(launch, home, terminal), outcomes).len() == outcomes.len(),
        is_alone(actions(begun_alone(launch, home, terminal), outcomes)[i]),
{
    lemma_alone(begun_alone(launch, home, terminal), outcomes, i);
}

/// Restart mode opens the file only once the old server is gone, or was found
/// missing. So it never hands the file to the server that it replaces.
pub proof fn a_restart_waits_for_the_old_server(run: InvocationView, outcome: OutcomeView)
    ensures
        next(run, outcome).1 is Resolve ==> run.mode == Mode::Restart && match outcome {
            OutcomeView::Looked { listening, .. } => !listening,
            _ => tells_no_server(outcome),
        },
{
}

/// Restart mode gives up on an old server that still listens exactly once its
/// time is up. Until then it looks again, after a pause.
pub proof fn a_restart_gives_up_after_its_time(run: InvocationView, waited_ms: u64)
    requires
        run.phase is StopWait,
    ensures
        ({
            let (then, action) = next(run, OutcomeView::Looked { listening: true, waited_ms });
            &&& waited_ms >= RESTART_TIMEOUT_MS ==> then.phase is Done && action == failing(
                failure_text(LINGERING@),
            )
            &&& waited_ms < RESTART_TIMEOUT_MS ==> then == run && action == (ActionView::Look {
                pause_ms: RESTART_STEP_MS,
            })
        }),
{
}

/// What is served is a file that was resolved, with the socket that was bound,
/// if one was.
pub proof fn the_bound_socket_is_served(run: InvocationView, outcome: OutcomeView)
    ensures
        next(run, outcome).1 matches ActionView::Serve { file, config, .. } ==> run.phase
            == PhaseView::OpenListen(file, config.control) && outcome is Port,
        next(run, outcome).0.phase matches PhaseView::OpenListen(file, Some(control)) ==> run.phase
            == next(run, outcome).0.phase || (run.phase == PhaseView::OpenBind(file) && outcome
            == OutcomeView::Bound(Ok(control.1)) && control.0 == run.socket),
{
}

/// Quitting succeeds whether or not a server was running.
pub proof fn quitting_needs_no_server(run: InvocationView, outcome: OutcomeView)
    requires
        run.mode == Mode::Quit,
        run.phase is StopSend,
        outcome == OutcomeView::Sent(Ok(ReplyView::Bye)) || outcome == OutcomeView::Sent(
            Err(SendErrorView::NoServer),
        ),
    ensures
        next(run, outcome).1 matches ActionView::Exit { code, .. } && code == 0,
{
}

/// A failure is never silent, and nothing but a failure is printed as one: a
/// run prints to stderr when it exits exactly where its status is not success.
pub proof fn failures_always_print(
    launch: LaunchView,
    home: Option<Seq<u8>>,
    run: InvocationView,
    outcome: OutcomeView,
)
    ensures
        first_action(launch, home) matches ActionView::Exit { code, err, .. } ==> (code != 0
            <==> err is Some),
        next(run, outcome).1 matches ActionView::Exit { code, err, .. } ==> (code != 0 <==> err
            is Some),
{
}

/// Success is silent: once it is under way, a run prints to stdout only on a
/// terminal, or the URL where `--no-open` asks for it.
pub proof fn success_is_silent(run: InvocationView, outcome: OutcomeView)
    requires
        !run.terminal,
        !run.no_open,
    ensures
        next(run, outcome).1 matches ActionView::Exit { out, .. } ==> out is None,
        next(run, outcome).1 matches ActionView::Serve { print, .. } ==> print is None,
{
}

/// A server that this program starts can tell its URL to later runs: its reply
/// is one line, and they read what it says.
pub proof fn a_server_can_tell_its_url(port: u16, control: Option<(Seq<u8>, u64)>, clients: usize)
    ensures
        ({
            let reply = ReplyView::Accepted { url: new_config(port, control).url, clients };
            &&& reply_in(reply_line(reply)) == Ok::<ReplyView, Seq<char>>(reply)
            &&& !reply_line(reply).drop_last().contains('\n')
        }),
{
    let url = new_config(port, control).url;
    let digits = decimal(port as nat);
    reveal_strlit("http://127.0.0.1:");
    reveal_strlit("/");
    lemma_decimal_digits(port as nat);
    assert forall|i: int| 0 <= i < url.len() implies url[i] != '\t' && url[i] != '\n' by {
        if 17 <= i < 17 + digits.len() {
            assert(url[i] == digits[i - 17]);
            assert(is_digit(digits[i - 17]));
        }
    }
    let reply = ReplyView::Accepted { url, clients };
    reply_reads_back(reply);
    reply_is_one_line(reply);
}

/// What is fixed when a run begins: whatever happens, it stays.
proof fn lemma_kept(run: InvocationView, outcome: OutcomeView)
    ensures
        next(run, outcome).0 == at(run, next(run, outcome).0.phase),
{
}

/// What a run sends, serves and opens goes by the line it began with, and by
/// whether it may open a tab.
proof fn lemma_line_reaches(run: InvocationView, outcomes: Seq<OutcomeView>, i: int)
    requires
        0 <= i < outcomes.len(),
    ensures
        actions(run, outcomes).len() == outcomes.len(),
        actions(run, outcomes)[i] matches ActionView::Send(CommandView::Open(request), _)
            ==> request.line == run.line,
        actions(run, outcomes)[i] matches ActionView::Serve { config, browse, .. } ==> (
        browse is None <==> run.no_open) && (browse matches Some(page) ==> page == page_at(
            config.url,
            run.line,
        )),
        actions(run, outcomes)[i] matches ActionView::Exit { browse: Some(page), .. }
            ==> !run.no_open && (outcomes[i] matches OutcomeView::Sent(Ok(ReplyView::Accepted {
            url,
            clients,
        })) && clients == 0 && page == page_at(url, run.line)),
    decreases outcomes.len(),
{
    let (then, action) = next(run, outcomes[0]);
    lemma_action_count(run, outcomes);
    lemma_kept(run, outcomes[0]);
    if i > 0 {
        lemma_line_reaches(then, outcomes.skip(1), i - 1);
        assert(actions(run, outcomes)[i] == actions(then, outcomes.skip(1))[i - 1]);
        assert(outcomes.skip(1)[i - 1] == outcomes[i]);
    }
}

/// In every mode that takes a file, the line of the arguments is the one that
/// reaches the outside: every open request that the run sends carries exactly
/// that line, and wherever it opens a tab, the tab's URL is that of the server,
/// with `#line=N` behind it exactly if the arguments have a line N. A tab is
/// opened only where the arguments allow it.
pub proof fn the_line_reaches_the_outside(
    launch: LaunchView,
    args: ArgsView,
    home: Option<Seq<u8>>,
    socket: Seq<u8>,
    terminal: bool,
    outcomes: Seq<OutcomeView>,
    i: int,
)
    requires
        launch == LaunchView::Open(args) || launch == LaunchView::Restart(args) || launch
            == LaunchView::Sync(args),
        0 <= i < outcomes.len(),
    ensures
        ({
            let done = actions(begun(launch, home, socket, terminal), outcomes);
            &&& done.len() == outcomes.len()
            &&& done[i] matches ActionView::Send(CommandView::Open(request), _) ==> request.line
                == args.line
            &&& done[i] matches ActionView::Serve { config, browse, .. } ==> {
                &&& args.no_open ==> browse is None
                &&& !args.no_open && args.line is None ==> browse == Some(config.url)
                &&& !args.no_open && args.line is Some ==> browse == Some(
                    config.url + "#line="@ + decimal(args.line->0 as nat),
                )
            }
            &&& done[i] matches ActionView::Exit { browse: Some(page), .. } ==> !args.no_open && (
            outcomes[i] matches OutcomeView::Sent(Ok(ReplyView::Accepted { url, clients }))
                && clients == 0 && page == (match args.line {
                Some(n) => url + "#line="@ + decimal(n as nat),
                None => url,
            }))
        }),
{
    lemma_line_reaches(begun(launch, home, socket, terminal), outcomes, i);
}

/// On a system without control sockets, too, the line of the arguments is the
/// one that the tab opens at.
pub proof fn the_line_reaches_the_tab_without_control(
    launch: LaunchView,
    args: ArgsView,
    home: Option<Seq<u8>>,
    terminal: bool,
    outcomes: Seq<OutcomeView>,
    i: int,
)
    requires
        launch == LaunchView::Open(args) || launch == LaunchView::Restart(args),
        0 <= i < outcomes.len(),
    ensures
        actions(begun_alone(launch, home, terminal), outcomes)[i] matches ActionView::Serve {
            config,
            browse,
            ..
        } ==> {
            &&& args.no_open ==> browse is None
            &&& !args.no_open && args.line is None ==> browse == Some(config.url)
            &&& !args.no_open && args.line is Some ==> browse == Some(
                config.url + "#line="@ + decimal(args.line->0 as nat),
            )
        },
{
    lemma_line_reaches(begun_alone(launch, home, terminal), outcomes, i);
}

/// Opening goes on in the same way in every mode.
proof fn lemma_opening_in_any_mode(
    a: InvocationView,
    b: InvocationView,
    outcomes: Seq<OutcomeView>,
)
    requires
        a == (InvocationView { mode: a.mode, ..b }),
        a.phase is OpenResolve || a.phase is OpenCheck || a.phase is OpenSend || a.phase is OpenBind
            || a.phase is OpenListen || a.phase is Done,
    ensures
        actions(a, outcomes) == actions(b, outcomes),
    decreases outcomes.len(),
{
    if outcomes.len() > 0 {
        lemma_opening_in_any_mode(
            next(a, outcomes[0]).0,
            next(b, outcomes[0]).0,
            outcomes.skip(1),
        );
    }
}

/// From a phase of stopping on, a restart opens what it began with.
proof fn lemma_restart_opens(
    run: InvocationView,
    opening: InvocationView,
    outcomes: Seq<OutcomeView>,
    k: int,
)
    requires
        run.mode == Mode::Restart,
        opening == (InvocationView { mode: opening.mode, phase: PhaseView::OpenResolve, ..run }),
        0 <= k < outcomes.len(),
        actions(run, outcomes)[k] is Resolve,
    ensures
        actions(run, outcomes)[k] == ActionView::Resolve(run.target),
        actions(run, outcomes).skip(k + 1) == actions(opening, outcomes.skip(k + 1)),
    decreases outcomes.len(),
{
    let (then, action) = next(run, outcomes[0]);
    let rest = outcomes.skip(1);
    lemma_action_count(run, outcomes);
    lemma_action_count(then, rest);
    lemma_kept(run, outcomes[0]);
    let all = actions(run, outcomes);
    assert(all.skip(1) == actions(then, rest));
    if k == 0 {
        lemma_opening_in_any_mode(then, opening, rest);
    } else {
        assert(all[k] == actions(then, rest)[k - 1]);
        lemma_restart_opens(then, opening, rest, k - 1);
        assert(all.skip(k + 1) == actions(then, rest).skip(k));
        assert(outcomes.skip(k + 1) == rest.skip(k));
    }
}

/// A restart, once the old server is gone, does step by step what opening the
/// same arguments does: it resolves the same path, and whatever comes of it, it
/// goes on in the same way to the end.
pub proof fn a_restart_opens_as_opening_does(
    args: ArgsView,
    home: Option<Seq<u8>>,
    socket: Seq<u8>,
    terminal: bool,
    outcomes: Seq<OutcomeView>,
    k: int,
)
    requires
        args.mode == Mode::Restart,
        0 <= k < outcomes.len(),
        actions(begun(LaunchView::Restart(args), home, socket, terminal), outcomes)[k] is Resolve,
    ensures
        ({
            let restart = begun(LaunchView::Restart(args), home, socket, terminal);
            let opening = LaunchView::Open(ArgsView { mode: Mode::Open, ..args });
            &&& actions(restart, outcomes)[k] == first_action(opening, home)
            &&& actions(restart, outcomes).skip(k + 1) == actions(
                begun(opening, home, socket, terminal),
                outcomes.skip(k + 1),
            )
        }),
{
    let restart = begun(LaunchView::Restart(args), home, socket, terminal);
    let opening = LaunchView::Open(ArgsView { mode: Mode::Open, ..args });
    lemma_restart_opens(restart, begun(opening, home, socket, terminal), outcomes, k);
}

/// A run acts on what its steps bring, one after another; and what it began
/// with stays as it was.
pub proof fn a_run_goes_step_by_step(
    run: InvocationView,
    outcome: OutcomeView,
    more: Seq<OutcomeView>,
)
    ensures
        actions(run, Seq::empty()) == Seq::<ActionView>::empty(),
        actions(run, seq![outcome] + more) == seq![next(run, outcome).1] + actions(
            next(run, outcome).0,
            more,
        ),
        ({
            let then = next(run, outcome).0;
            &&& then.mode == run.mode
            &&& then.file == run.file
            &&& then.target == run.target
            &&& then.line == run.line
            &&& then.no_open == run.no_open
            &&& then.terminal == run.terminal
            &&& then.controlled == run.controlled
            &&& then.socket == run.socket
        }),
{
    assert((seq![outcome] + more).skip(1) == more);
}

/// A run begins with all that its arguments say.
pub proof fn a_run_begins_with_its_arguments(
    launch: LaunchView,
    args: ArgsView,
    home: Option<Seq<u8>>,
    socket: Seq<u8>,
    terminal: bool,
)
    requires
        launch == LaunchView::Open(args) || launch == LaunchView::Restart(args) || launch
            == LaunchView::Sync(args),
        args.file is Some,
    ensures
        ({
            let run = begun(launch, home, socket, terminal);
            &&& run.mode == args.mode
            &&& run.file == args.file->0
            &&& run.target == home_path(args.file->0, home)
            &&& run.line == args.line
            &&& run.no_open == args.no_open
            &&& run.terminal == terminal
            &&& run.controlled
            &&& run.socket == socket
            &&& run == run_of(
                launch_args(launch),
                home,
                socket,
                terminal,
                first_phase(launch, home),
            )
        }),
        launch is Open ==> first_action(launch, home) == ActionView::Resolve(
            home_path(args.file->0, home),
        ) && first_phase(launch, home) is OpenResolve,
        launch is Restart ==> first_action(launch, home) is CheckDir && first_phase(launch, home)
            is StopCheck,
        launch is Sync && names_markdown(encode_utf8(args.file->0)) ==> first_action(launch, home)
            == ActionView::Resolve(home_path(args.file->0, home)) && first_phase(launch, home)
            is SyncResolve,
        launch is Sync && !names_markdown(encode_utf8(args.file->0)) ==> first_action(launch, home)
            == (ActionView::Exit { code: 0, browse: None, out: None, err: None }) && first_phase(
            launch,
            home,
        ) is Done,
        launch is Open || launch is Restart ==> ({
            let run = begun_alone(launch, home, terminal);
            &&& run.file == args.file->0
            &&& run.target == home_path(args.file->0, home)
            &&& run.line == args.line
            &&& run.no_open == args.no_open
            &&& run.terminal == terminal
            &&& !run.controlled
            &&& run.phase is OpenResolve
        }),
{
}

/// A run that has no file to show begins by answering, by complaining, by
/// asking the server to quit, or by saying nothing; all but quitting end there.
pub proof fn a_run_without_a_file_begins_so(
    text: Seq<char>,
    home: Option<Seq<u8>>,
    socket: Seq<u8>,
    terminal: bool,
)
    ensures
        first_action(LaunchView::Answer(text), home) == (ActionView::Exit {
            code: 0,
            browse: None,
            out: Some(text),
            err: None,
        }),
        first_action(LaunchView::Misuse(text), home) == (ActionView::Exit {
            code: 2,
            browse: None,
            out: None,
            err: Some(text),
        }),
        first_action(LaunchView::Refuse(text), home) == (ActionView::Exit {
            code: 1,
            browse: None,
            out: None,
            err: Some(text),
        }),
        first_action(LaunchView::Silent, home) == (ActionView::Exit {
            code: 0,
            browse: None,
            out: None,
            err: None,
        }),
        first_action(LaunchView::Quit, home) is CheckDir,
        begun(LaunchView::Quit, home, socket, terminal).phase is StopCheck,
        begun(LaunchView::Quit, home, socket, terminal).mode == Mode::Quit,
        begun(LaunchView::Quit, home, socket, terminal).terminal == terminal,
        begun(LaunchView::Answer(text), home, socket, terminal).phase is Done,
        begun(LaunchView::Misuse(text), home, socket, terminal).phase is Done,
        begun(LaunchView::Refuse(text), home, socket, terminal).phase is Done,
        begun(LaunchView::Silent, home, socket, terminal).phase is Done,
        begun(LaunchView::Quit, home, socket, terminal) == run_of(
            launch_args(LaunchView::Quit),
            home,
            socket,
            terminal,
            first_phase(LaunchView::Quit, home),
        ),
{
}

/// Over a whole run that opens a file where no server is running: the file is
/// resolved, the socket's directory is checked, a server is asked for and not
/// found, the socket is bound, and a port; then that file is served there, with
/// that socket, until fifteen seconds after the last tab has closed.
pub proof fn opening_starts_a_server_where_there_is_none(
    args: ArgsView,
    home: Option<Seq<u8>>,
    socket: Seq<u8>,
    terminal: bool,
    file: Seq<u8>,
    inode: u64,
    port: u16,
)
    ensures
        ({
            let url = "http://127.0.0.1:"@ + decimal(port as nat) + "/"@;
            let done = actions(
                begun(LaunchView::Open(args), home, socket, terminal),
                seq![
                    OutcomeView::Resolved(Ok(file)),
                    OutcomeView::Checked(Ok(())),
                    OutcomeView::Sent(Err(SendErrorView::NoServer)),
                    OutcomeView::Bound(Ok(inode)),
                    OutcomeView::Port(Ok(port)),
                ],
            );
            &&& done.len() == 5
            &&& done[0] is CheckDir
            &&& done[1] == ActionView::Send(
                CommandView::Open(RequestView { path: file, line: args.line }),
                1000,
            )
            &&& done[2] is Bind
            &&& done[3] == ActionView::Listen(None)
            &&& done[4] matches ActionView::Serve { file: served, config, browse, print }
                && served == file && config.url == url && config.idle_grace == Some(
                15_000_000_000u128,
            ) && config.control == Some((socket, inode)) && config.exit_on_quit && print == (if args.no_open
                || terminal {
                Some(url)
            } else {
                None
            })
        }),
{
    let run = begun(LaunchView::Open(args), home, socket, terminal);
    let outcomes = seq![
        OutcomeView::Resolved(Ok(file)),
        OutcomeView::Checked(Ok(())),
        OutcomeView::Sent(Err(SendErrorView::NoServer)),
        OutcomeView::Bound(Ok(inode)),
        OutcomeView::Port(Ok(port)),
    ];
    lemma_action_count(run, outcomes);
    let after1 = next(run, outcomes[0]).0;
    let after2 = next(after1, outcomes[1]).0;
    let after3 = next(after2, outcomes[2]).0;
    let after4 = next(after3, outcomes[3]).0;
    assert(outcomes.skip(1).skip(1) == outcomes.skip(2));
    assert(outcomes.skip(2).skip(1) == outcomes.skip(3));
    assert(outcomes.skip(3).skip(1) == outcomes.skip(4));
    assert(actions(run, outcomes) == seq![next(run, outcomes[0]).1] + actions(
        after1,
        outcomes.skip(1),
    ));
    assert(actions(after1, outcomes.skip(1)) == seq![next(after1, outcomes[1]).1] + actions(
        after2,
        outcomes.skip(2),
    ));
    assert(actions(after2, outcomes.skip(2)) == seq![next(after2, outcomes[2]).1] + actions(
        after3,
        outcomes.skip(3),
    ));
    assert(actions(after3, outcomes.skip(3)) == seq![next(after3, outcomes[3]).1] + actions(
        after4,
        outcomes.skip(4),
    ));
    assert(actions(after4, outcomes.skip(4))[0] == next(after4, outcomes[4]).1);
}

/// While it opens a file, a run meets each outcome in its own way. What cannot
/// be resolved, and a port that cannot be had, end it with a failure that says
/// why; a socket that cannot be used is warned of, and the file is served
/// without it.
pub proof fn opening_meets_each_outcome(
    run: InvocationView,
    file: Seq<u8>,
    control: Option<(Seq<u8>, u64)>,
    inode: u64,
    port: u16,
    text: Seq<char>,
    sent: Result<ReplyView, SendErrorView>,
)
    ensures
        run.phase is OpenResolve ==> {
            let (then, action) = next(run, OutcomeView::Resolved(Ok(file)));
            &&& run.controlled ==> action is CheckDir && then.phase == PhaseView::OpenCheck(file)
            &&& !run.controlled ==> action == ActionView::Listen(None) && then.phase
                == PhaseView::OpenListen(file, None)
        },
        run.phase is OpenResolve ==> {
            let (then, action) = next(run, OutcomeView::Resolved(Err(text)));
            then.phase is Done && action == (ActionView::Exit {
                code: 1,
                browse: None,
                out: None,
                err: Some("mdpreviewer: "@ + ("cannot open "@ + run.file + ": "@ + text)),
            })
        },
        run.phase == PhaseView::OpenCheck(file) ==> {
            let (then, action) = next(run, OutcomeView::Checked(Ok(())));
            then.phase == PhaseView::OpenSend(file) && action == ActionView::Send(
                CommandView::Open(RequestView { path: file, line: run.line }),
                1000,
            )
        },
        run.phase == PhaseView::OpenCheck(file) ==> {
            let (then, action) = next(run, OutcomeView::Checked(Err(text)));
            then.phase == PhaseView::OpenListen(file, None) && action == ActionView::Listen(
                Some(
                    "mdpreviewer: "@ + ("cannot use "@ + lossy_text(run.socket) + " ("@ + text
                        + "); running a standalone preview"@),
                ),
            )
        },
        run.phase == PhaseView::OpenSend(file) ==> {
            let (then, action) = next(run, OutcomeView::Sent(sent));
            match reuse_of(sent, run.no_open, run.line) {
                ReuseView::Print(url) => then.phase is Done && action == (ActionView::Exit {
                    code: 0,
                    browse: None,
                    out: Some(url),
                    err: None,
                }),
                ReuseView::Browse(url) => then.phase is Done && action == (ActionView::Exit {
                    code: 0,
                    browse: Some(url),
                    out: None,
                    err: None,
                }),
                ReuseView::Shown => then.phase is Done && action == (ActionView::Exit {
                    code: 0,
                    browse: None,
                    out: None,
                    err: None,
                }),
                ReuseView::Fail(text) => then.phase is Done && action == (ActionView::Exit {
                    code: 1,
                    browse: None,
                    out: None,
                    err: Some(text),
                }),
                ReuseView::Bind => then.phase == PhaseView::OpenBind(file) && action is Bind,
                ReuseView::Standalone(text) => then.phase == PhaseView::OpenListen(file, None)
                    && action == ActionView::Listen(Some(text)),
            }
        },
        run.phase == PhaseView::OpenBind(file) ==> {
            let (then, action) = next(run, OutcomeView::Bound(Ok(inode)));
            then.phase == PhaseView::OpenListen(file, Some((run.socket, inode))) && action
                == ActionView::Listen(None)
        },
        run.phase == PhaseView::OpenBind(file) ==> {
            let (then, action) = next(run, OutcomeView::Bound(Err(text)));
            then.phase == PhaseView::OpenListen(file, None) && action == ActionView::Listen(
                Some(
                    "mdpreviewer: "@ + ("cannot use "@ + lossy_text(run.socket) + " ("@ + text
                        + "); running a standalone preview"@),
                ),
            )
        },
        run.phase == PhaseView::OpenListen(file, control) ==> {
            let url = "http://127.0.0.1:"@ + decimal(port as nat) + "/"@;
            let (then, action) = next(run, OutcomeView::Port(Ok(port)));
            then.phase is Done && (action matches ActionView::Serve {
                file: served,
                config,
                browse,
                print,
            } && served == file && config.url == url && config.control == control
                && config.exit_on_quit && config.idle_grace == Some(15_000_000_000u128) && browse == (
            if run.no_open {
                None
            } else {
                Some(
                    match run.line {
                        Some(n) => url + "#line="@ + decimal(n as nat),
                        None => url,
                    },
                )
            }) && print == (if run.no_open || run.terminal {
                Some(url)
            } else {
                None
            }))
        },
        run.phase == PhaseView::OpenListen(file, control) ==> {
            let (then, action) = next(run, OutcomeView::Port(Err(text)));
            then.phase is Done && action == (ActionView::Exit {
                code: 1,
                browse: None,
                out: None,
                err: Some("mdpreviewer: "@ + ("cannot bind local port: "@ + text)),
            })
        },
{
}

/// While it stops a server, a run meets each outcome in its own way.
pub proof fn stopping_meets_each_outcome(
    run: InvocationView,
    text: Seq<char>,
    sent: Result<ReplyView, SendErrorView>,
    waited_ms: u64,
)
    ensures
        run.phase is StopCheck ==> {
            let (then, action) = next(run, OutcomeView::Checked(Ok(())));
            then.phase is StopSend && action == ActionView::Send(CommandView::Quit, 1000)
        },
        run.phase is StopCheck ==> {
            let (then, action) = next(run, OutcomeView::Checked(Err(text)));
            if run.mode == Mode::Restart {
                then.phase is OpenResolve && action == ActionView::Resolve(run.target)
            } else {
                then.phase is Done && action == (ActionView::Exit {
                    code: 1,
                    browse: None,
                    out: None,
                    err: Some("mdpreviewer: "@ + ("control socket is unusable: "@ + text)),
                })
            }
        },
        run.phase is StopSend ==> {
            let (then, action) = next(run, OutcomeView::Sent(sent));
            if sent == Ok::<ReplyView, SendErrorView>(ReplyView::Bye) {
                if run.mode == Mode::Restart {
                    then.phase is StopWait && action == (ActionView::Look { pause_ms: 0 })
                } else {
                    then.phase is Done && action == (ActionView::Exit {
                        code: 0,
                        browse: None,
                        out: if run.terminal {
                            Some("stopped the preview server"@)
                        } else {
                            None
                        },
                        err: None,
                    })
                }
            } else if sent == Err::<ReplyView, SendErrorView>(SendErrorView::NoServer) {
                if run.mode == Mode::Restart {
                    then.phase is OpenResolve && action == ActionView::Resolve(run.target)
                } else {
                    then.phase is Done && action == (ActionView::Exit {
                        code: 0,
                        browse: None,
                        out: if run.terminal {
                            Some("no preview server running"@)
                        } else {
                            None
                        },
                        err: None,
                    })
                }
            } else {
                then.phase is Done && action == (ActionView::Exit {
                    code: 1,
                    browse: None,
                    out: None,
                    err: Some(
                        "mdpreviewer: "@
                            + "the running preview server is too old to quit; kill it by PID (ps | grep mdpreviewer)"@,
                    ),
                })
            }
        },
        run.phase is StopWait ==> {
            let (then, action) = next(run, OutcomeView::Looked { listening: false, waited_ms });
            run.mode == Mode::Restart ==> then.phase is OpenResolve && action
                == ActionView::Resolve(run.target)
        },
        run.phase is StopWait ==> {
            let (then, action) = next(run, OutcomeView::Looked { listening: true, waited_ms });
            &&& waited_ms < 2000 ==> then.phase is StopWait && action == (ActionView::Look {
                pause_ms: 20,
            })
            &&& waited_ms >= 2000 ==> then.phase is Done && action == (ActionView::Exit {
                code: 1,
                browse: None,
                out: None,
                err: Some(
                    "mdpreviewer: "@
                        + "the running preview server did not exit; kill it by PID (ps | grep mdpreviewer)"@,
                ),
            })
        },
{
}

/// While it updates a running server, a run hands on the file that was
/// resolved, with its line, and ends without a word whatever comes of it.
pub proof fn updating_meets_each_outcome(
    run: InvocationView,
    path: Seq<u8>,
    text: Seq<char>,
    sent: Result<ReplyView, SendErrorView>,
)
    ensures
        run.phase is SyncResolve ==> {
            let (then, action) = next(run, OutcomeView::Resolved(Ok(path)));
            then.phase == PhaseView::SyncCheck(path) && action is CheckDir
        },
        run.phase == PhaseView::SyncCheck(path) ==> {
            let (then, action) = next(run, OutcomeView::Checked(Ok(())));
            then.phase is SyncSend && action == ActionView::Send(
                CommandView::Open(RequestView { path, line: run.line }),
                500,
            )
        },
        run.phase is SyncResolve ==> {
            let (then, action) = next(run, OutcomeView::Resolved(Err(text)));
            then.phase is Done && action == (ActionView::Exit {
                code: 0,
                browse: None,
                out: None,
                err: None,
            })
        },
        run.phase is SyncCheck ==> {
            let (then, action) = next(run, OutcomeView::Checked(Err(text)));
            then.phase is Done && action == (ActionView::Exit {
                code: 0,
                browse: None,
                out: None,
                err: None,
            })
        },
        run.phase is SyncSend ==> {
            let (then, action) = next(run, OutcomeView::Sent(sent));
            then.phase is Done && action == (ActionView::Exit {
                code: 0,
                browse: None,
                out: None,
                err: None,
            })
        },
{
}

/// What a run does not wait for changes nothing.
pub proof fn a_run_ignores_what_it_does_not_await(run: InvocationView, outcome: OutcomeView)
    requires
        run.phase is SyncResolve || run.phase is OpenResolve ==> !(outcome is Resolved),
        run.phase is SyncCheck || run.phase is StopCheck || run.phase is OpenCheck ==> !(outcome
            is Checked),
        run.phase is SyncSend || run.phase is StopSend || run.phase is OpenSend ==> !(outcome
            is Sent),
        run.phase is StopWait ==> !(outcome is Looked),
        run.phase is OpenBind ==> !(outcome is Bound),
        run.phase is OpenListen ==> !(outcome is Port),
    ensures
        next(run, outcome) == (run, ActionView::Ignore),
{
}

/// What an action and an outcome say is what they hold.
pub proof fn actions_say_what_they_hold(action: Action, outcome: Outcome)
    ensures
        action matches Action::Resolve(path) ==> action@ == ActionView::Resolve(path@),
        action matches Action::Send(command, ms) ==> action@ == ActionView::Send(command@, ms),
        action matches Action::Look { pause_ms } ==> action@ == (ActionView::Look { pause_ms }),
        action matches Action::Listen(Some(text)) ==> action@ == ActionView::Listen(Some(text@)),
        action matches Action::Listen(None) ==> action@ == ActionView::Listen(None),
        action is CheckDir <==> action@ is CheckDir,
        action is Bind <==> action@ is Bind,
        action is Ignore <==> action@ is Ignore,
        action matches Action::Serve(path, config, announcement) ==> (action@
            matches ActionView::Serve { file, config: shown, browse, print } && file == path@
            && shown == config@ && (browse is Some <==> announcement.browse is Some) && (browse
            is Some ==> browse->0 == announcement.browse->0@) && (print is Some
            <==> announcement.print is Some) && (print is Some ==> print->0
            == announcement.print->0@)),
        action matches Action::Exit { code, browse, out, err } ==> (action@
            matches ActionView::Exit { code: c, browse: b, out: o, err: e } && c == code && (b
            is Some <==> browse is Some) && (b is Some ==> b->0 == browse->0@) && (o is Some <==> out
            is Some) && (o is Some ==> o->0 == out->0@) && (e is Some <==> err is Some) && (e
            is Some ==> e->0 == err->0@)),
        outcome matches Outcome::Resolved(Ok(path)) ==> outcome@ == OutcomeView::Resolved(Ok(path@)),
        outcome matches Outcome::Resolved(Err(text)) ==> outcome@ == OutcomeView::Resolved(
            Err(text@),
        ),
        outcome matches Outcome::Checked(checked) ==> (outcome@ matches OutcomeView::Checked(said)
            && (said is Ok <==> checked is Ok) && (said is Err ==> said->Err_0
            == checked->Err_0@)),
        outcome matches Outcome::Sent(Ok(reply)) ==> outcome@ == OutcomeView::Sent(Ok(reply@)),
        outcome matches Outcome::Sent(Err(err)) ==> outcome@ == OutcomeView::Sent(Err(err@)),
        outcome matches Outcome::Looked { listening, waited_ms } ==> outcome@
            == (OutcomeView::Looked { listening, waited_ms }),
        outcome matches Outcome::Bound(Ok(inode)) ==> outcome@ == OutcomeView::Bound(Ok(inode)),
        outcome matches Outcome::Bound(Err(text)) ==> outcome@ == OutcomeView::Bound(Err(text@)),
        outcome matches Outcome::Port(Ok(port)) ==> outcome@ == OutcomeView::Port(Ok(port)),
        outcome matches Outcome::Port(Err(text)) ==> outcome@ == OutcomeView::Port(Err(text@)),
{
}

} // verus!
