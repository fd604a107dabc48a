//! Whole runs, requests, calls and streams, step by step.

use mdpreviewer::call::{Call, CallGot, CallNeed};
use mdpreviewer::cli::{launch, Launch};
use mdpreviewer::control::{Command, ControlSocket, Reply, SendError};
use mdpreviewer::event::{Arrival, Event, CONNECTED, EVENTS_HEAD};
use mdpreviewer::exchange::{Answer, Body, Exchange, Got, Need};
use mdpreviewer::idle::IDLE_GRACE;
use mdpreviewer::invocation::{Action, Invocation, Outcome};
use mdpreviewer::path::FilePath;
use mdpreviewer::server::{Asset, Config};
use mdpreviewer::session::Session;
use mdpreviewer::stream::{Input, Stream, Task};

fn path(text: &str) -> FilePath {
    FilePath::from_text(text)
}

fn list(names: &[&str]) -> Vec<String> {
    names.iter().map(|name| name.to_string()).collect()
}

/// Start a run and show each action as text, up to its end.
fn run(args: &[&str], terminal: bool, outcomes: Vec<Outcome>) -> Vec<String> {
    let start: Launch = launch(&list(args));
    let home = path("/home/me");
    let (mut run, first) = Invocation::begin(start, Some(&home), path("/run/s.sock"), terminal);
    let mut actions = vec![describe(&first)];
    for outcome in outcomes {
        actions.push(describe(&run.step(outcome)));
    }
    actions
}

fn describe(action: &Action) -> String {
    match action {
        Action::Resolve(path) => format!("resolve {}", path.display()),
        Action::CheckDir => "check".into(),
        Action::Send(Command::Quit, timeout) => format!("quit {timeout}"),
        Action::Send(Command::Open(request), timeout) => {
            format!("open {} {:?} {timeout}", request.path.display(), request.line)
        }
        Action::Look { pause_ms } => format!("look {pause_ms}"),
        Action::Bind => "bind".into(),
        Action::Listen(warning) => format!("listen {warning:?}"),
        Action::Serve(file, config, announcement) => {
            let Config {
                url,
                idle_grace,
                control,
                exit_on_quit,
            } = config;
            assert_eq!(*idle_grace, Some(IDLE_GRACE));
            assert!(exit_on_quit);
            let socket = control
                .as_ref()
                .map(|socket| format!("{} {}", socket.path.display(), socket.inode));
            format!(
                "serve {} {url} {socket:?} {:?} {:?}",
                file.display(),
                announcement.browse,
                announcement.print
            )
        }
        Action::Exit {
            code,
            browse,
            out,
            err,
        } => format!("exit {code} {browse:?} {out:?} {err:?}"),
        Action::Ignore => "ignore".into(),
    }
}

fn resolved(text: &str) -> Outcome {
    Outcome::Resolved(Ok(path(text)))
}

fn checked() -> Outcome {
    Outcome::Checked(Ok(()))
}

fn accepted(clients: usize) -> Outcome {
    Outcome::Sent(Ok(Reply::Accepted {
        url: "http://127.0.0.1:1/".into(),
        clients,
    }))
}

#[test]
fn sync_updates_a_running_server_and_says_nothing() {
    let silent = "exit 0 None None None";
    assert_eq!(
        run(
            &["--sync", "--line", "7", "~/a.md"],
            true,
            vec![resolved("/home/me/a.md"), checked(), accepted(0)]
        ),
        [
            "resolve /home/me/a.md",
            "check",
            "open /home/me/a.md Some(7) 500",
            silent
        ]
    );
    assert_eq!(run(&["--sync", "main.rs"], true, vec![]), [silent]);
    assert_eq!(
        run(
            &["--sync", "a.md"],
            true,
            vec![Outcome::Resolved(Err("gone".into()))]
        ),
        ["resolve a.md", silent]
    );
    assert_eq!(
        run(
            &["--sync", "a.md"],
            true,
            vec![resolved("/a.md"), Outcome::Checked(Err("shared".into()))]
        ),
        ["resolve a.md", "check", silent]
    );
    assert_eq!(
        run(
            &["--sync", "a.md"],
            true,
            vec![
                resolved("/a.md"),
                checked(),
                Outcome::Sent(Err(SendError::Timeout))
            ]
        )
        .last()
        .unwrap(),
        silent
    );
}

#[test]
fn opening_reuses_a_running_server() {
    let start = |args: &[&str], clients: usize| {
        run(
            args,
            true,
            vec![resolved("/d/a.md"), checked(), accepted(clients)],
        )
    };
    assert_eq!(
        start(&["--line", "3", "a.md"], 0),
        [
            "resolve a.md",
            "check",
            "open /d/a.md Some(3) 1000",
            "exit 0 Some(\"http://127.0.0.1:1/#line=3\") None None"
        ]
    );
    assert_eq!(start(&["a.md"], 1).last().unwrap(), "exit 0 None None None");
    assert_eq!(
        start(&["--no-open", "a.md"], 0).last().unwrap(),
        "exit 0 None Some(\"http://127.0.0.1:1/\") None"
    );
}

#[test]
fn opening_starts_a_server_where_none_is_running() {
    assert_eq!(
        run(
            &["--line", "3", "a.md"],
            false,
            vec![
                resolved("/d/a.md"),
                checked(),
                Outcome::Sent(Err(SendError::NoServer)),
                Outcome::Bound(Ok(77)),
                Outcome::Port(Ok(4242)),
                Outcome::Port(Ok(4243)),
            ]
        ),
        [
            "resolve a.md",
            "check",
            "open /d/a.md Some(3) 1000",
            "bind",
            "listen None",
            "serve /d/a.md http://127.0.0.1:4242/ Some(\"/run/s.sock 77\") Some(\"http://127.0.0.1:4242/#line=3\") None",
            "ignore"
        ]
    );
}

#[test]
fn an_unusable_socket_makes_a_standalone_preview() {
    let warning = "listen Some(\"mdpreviewer: cannot use /run/s.sock (shared); running a standalone preview\")";
    assert_eq!(
        run(
            &["--no-open", "a.md"],
            false,
            vec![
                resolved("/d/a.md"),
                Outcome::Checked(Err("shared".into())),
                Outcome::Port(Ok(1)),
            ]
        ),
        [
            "resolve a.md",
            "check",
            warning,
            "serve /d/a.md http://127.0.0.1:1/ None None Some(\"http://127.0.0.1:1/\")"
        ]
    );
    assert_eq!(
        run(
            &["a.md"],
            false,
            vec![
                resolved("/d/a.md"),
                checked(),
                Outcome::Sent(Err(SendError::NoServer)),
                Outcome::Bound(Err("shared".into())),
            ]
        )
        .last()
        .unwrap(),
        warning
    );
}

#[test]
fn failures_are_reported() {
    assert_eq!(
        run(
            &["~/a.md"],
            false,
            vec![Outcome::Resolved(Err("gone".into()))]
        ),
        [
            "resolve /home/me/a.md",
            "exit 1 None None Some(\"mdpreviewer: cannot open ~/a.md: gone\")"
        ]
    );
    assert_eq!(
        run(
            &["a.md"],
            false,
            vec![
                resolved("/d/a.md"),
                checked(),
                Outcome::Sent(Err(SendError::Timeout))
            ]
        )
        .last()
        .unwrap(),
        "exit 1 None None Some(\"mdpreviewer: the preview server did not respond\")"
    );
    assert_eq!(
        run(
            &["a.md"],
            false,
            vec![
                resolved("/d/a.md"),
                Outcome::Checked(Err("x".into())),
                Outcome::Port(Err("none left".into()))
            ]
        )
        .last()
        .unwrap(),
        "exit 1 None None Some(\"mdpreviewer: cannot bind local port: none left\")"
    );
    assert_eq!(
        run(&["main.rs"], false, vec![]),
        ["exit 1 None None Some(\"mdpreviewer: not a Markdown file: main.rs\")"]
    );
    assert!(run(&["--bogus"], false, vec![])[0].starts_with("exit 2 None None Some("));
    assert_eq!(
        run(&["-V"], false, vec![]),
        ["exit 0 None Some(\"mdpreviewer 0.1.0\") None"]
    );
}

#[test]
fn quitting_reports_only_to_a_terminal() {
    let quit = |terminal: bool, outcomes: Vec<Outcome>| {
        run(&["--quit"], terminal, outcomes).last().unwrap().clone()
    };
    assert_eq!(quit(true, vec![]), "check");
    assert_eq!(quit(true, vec![checked()]), "quit 1000");
    let bye = || vec![checked(), Outcome::Sent(Ok(Reply::Bye))];
    assert_eq!(
        quit(true, bye()),
        "exit 0 None Some(\"stopped the preview server\") None"
    );
    assert_eq!(quit(false, bye()), "exit 0 None None None");
    assert_eq!(
        quit(
            true,
            vec![checked(), Outcome::Sent(Err(SendError::NoServer))]
        ),
        "exit 0 None Some(\"no preview server running\") None"
    );
    assert!(quit(false, vec![checked(), accepted(0)]).contains("too old to quit"));
    assert_eq!(
        quit(false, vec![Outcome::Checked(Err("shared".into()))]),
        "exit 1 None None Some(\"mdpreviewer: control socket is unusable: shared\")"
    );
}

#[test]
fn restarting_waits_for_the_old_server() {
    let bye = || vec![checked(), Outcome::Sent(Ok(Reply::Bye))];
    let looked = |listening: bool, waited_ms: u64| Outcome::Looked {
        listening,
        waited_ms,
    };
    let mut outcomes = bye();
    outcomes.push(looked(true, 1999));
    outcomes.push(looked(false, 5000));
    outcomes.push(resolved("/d/a.md"));
    assert_eq!(
        run(&["--restart", "a.md"], false, outcomes),
        [
            "check",
            "quit 1000",
            "look 0",
            "look 20",
            "resolve a.md",
            "check"
        ]
    );
    let mut outcomes = bye();
    outcomes.push(looked(true, 2000));
    assert!(run(&["--restart", "a.md"], false, outcomes)
        .last()
        .unwrap()
        .contains("did not exit"));
    for outcomes in [
        vec![checked(), Outcome::Sent(Err(SendError::NoServer))],
        vec![Outcome::Checked(Err("shared".into()))],
    ] {
        assert_eq!(
            run(&["--restart", "a.md"], false, outcomes).last().unwrap(),
            "resolve a.md"
        );
    }
    assert!(
        run(&["--restart", "a.md"], false, vec![checked(), accepted(1)])
            .last()
            .unwrap()
            .contains("too old to quit")
    );
}

/// Make a request and go through it, collecting what it needs as text.
fn request(
    session: &mut Session,
    method: &str,
    url: &str,
    fields: &[&str],
    gots: Vec<Got>,
) -> (Vec<String>, Vec<Event>) {
    let (mut exchange, first) = Exchange::receive(method, url, &list(fields), session);
    let mut needs = vec![needed(&first)];
    let mut events: Vec<Event> = Vec::new();
    for got in gots {
        let progress = exchange.step(got, session);
        needs.push(needed(&progress.need));
        events.extend(progress.events);
        if progress.images_changed {
            needs.push("watch".into());
        }
    }
    (needs, events)
}

fn needed(need: &Need) -> String {
    match need {
        Need::Body => "body".into(),
        Need::Resolve(path) => format!("resolve {}", path.display()),
        Need::Open(path) => format!("open {}", path.display()),
        Need::Read(path) => format!("read {}", path.display()),
        Need::Events => "events".into(),
        Need::Answer(answer) => answered(answer),
        Need::Ignore => "ignore".into(),
    }
}

fn answered(answer: &Answer) -> String {
    let names: Vec<&str> = answer.headers.iter().map(|line| line.name).collect();
    let body = match &answer.body {
        Body::Nothing => "-".into(),
        Body::Text(text) => text.clone(),
        Body::Asset(asset) => format!("{asset:?}"),
        Body::File => "file".into(),
    };
    format!("{} {names:?} {body}", answer.code)
}

#[test]
fn a_link_is_followed_step_by_step() {
    let mut session = Session::new(path("/d/a.md"));
    let follow = |session: &mut Session, link: &str, target: Option<&str>| {
        request(
            session,
            "POST",
            "/open",
            &["x-mdpreviewer"],
            vec![
                Got::Body(Some(link.into())),
                Got::Resolved(target.map(path)),
            ],
        )
    };
    assert_eq!(
        follow(&mut session, "sub/my%20notes.md", Some("/d/sub/my notes.md")),
        (
            list(&["body", "resolve /d/sub/my notes.md", "204 [] -"]),
            vec![Event::Reload]
        )
    );
    assert_eq!(session.path(), &path("/d/sub/my notes.md"));
    assert_eq!(
        follow(&mut session, "gone.md", None).0.last().unwrap(),
        "404 [] no such file"
    );
    assert_eq!(
        follow(&mut session, "x.txt", Some("/d/sub/x.txt")),
        (
            list(&["body", "resolve /d/sub/x.txt", "400 [] not a Markdown file"]),
            vec![]
        )
    );
    assert_eq!(session.path(), &path("/d/sub/my notes.md"));
}

#[test]
fn a_link_that_cannot_be_followed_is_refused_early() {
    let mut session = Session::new(path("/d/a.md"));
    let first = |session: &mut Session, method: &str, fields: &[&str]| {
        request(session, method, "/open", fields, vec![]).0[0].clone()
    };
    assert_eq!(
        first(&mut session, "GET", &["X-Mdpreviewer"]),
        "405 [] use POST"
    );
    assert_eq!(
        first(&mut session, "POST", &["Host"]),
        "403 [] missing X-Mdpreviewer header"
    );
    let body = |session: &mut Session, body: Option<Vec<u8>>| {
        request(
            session,
            "POST",
            "/open",
            &["X-Mdpreviewer"],
            vec![Got::Body(body), Got::Resolved(Some(path("/d/b.md")))],
        )
        .0
    };
    for bad in [None, Some(vec![0xff])] {
        assert_eq!(
            body(&mut session, bad),
            ["body", "400 [] the link is not UTF-8", "ignore"]
        );
    }
    assert_eq!(
        body(&mut session, Some("/etc/x.md".into())),
        ["body", "404 [] no such file", "ignore"]
    );
    assert_eq!(session.path(), &path("/d/a.md"));
}

#[test]
fn images_are_served_and_noted() {
    let mut session = Session::new(path("/d/a.md"));
    let get = |session: &mut Session, url: &str, target: Option<&str>, opened: bool| {
        request(
            session,
            "GET",
            url,
            &[],
            vec![Got::Resolved(target.map(path)), Got::Opened(opened)],
        )
        .0
    };
    let served = "200 [\"Content-Type\", \"Content-Security-Policy\", \"X-Content-Type-Options\", \"Cache-Control\"] file";
    let url = "/file?path=..%2Fimg%2Fdot.png";
    assert_eq!(
        get(&mut session, url, Some("/img/dot.png"), true),
        [
            "resolve /d/../img/dot.png",
            "open /img/dot.png",
            served,
            "watch"
        ]
    );
    assert_eq!(
        get(&mut session, url, Some("/img/dot.png"), true),
        ["resolve /d/../img/dot.png", "open /img/dot.png", served]
    );
    assert_eq!(session.images().len(), 1);
    let missing = "404 [] not found";
    assert_eq!(
        get(&mut session, url, Some("/img/dot.png"), false)[2],
        missing
    );
    // The type is that of the resolved path.
    assert_eq!(
        get(&mut session, "/file?path=x.png", Some("/etc/passwd"), true),
        ["resolve /d/x.png", missing, "ignore"]
    );
    assert_eq!(get(&mut session, "/file", None, true)[0], missing);
    assert_eq!(get(&mut session, url, None, true)[1], missing);
}

#[test]
fn documents_and_assets_are_served() {
    let mut session = Session::new(path("/d/b.md"));
    assert_eq!(
        request(
            &mut session,
            "GET",
            "/content",
            &[],
            vec![Got::Read(Ok("# B\n".into())), Got::Read(Ok("# C\n".into()))]
        )
        .0,
        [
            "read /d/b.md",
            "200 [\"Content-Type\", \"X-Mdpreviewer-File\"] <h1 data-sourcepos=\"1:1-1:3\">B</h1>\n",
            "ignore"
        ]
    );
    let first = |session: &mut Session, url: &str| {
        request(session, "GET", url, &[], vec![]).0[0].clone()
    };
    assert_eq!(
        first(&mut session, "/"),
        format!("200 [\"Content-Type\"] {:?}", Asset::Shell)
    );
    assert_eq!(first(&mut session, "/events"), "events");
    assert_eq!(first(&mut session, "/nope"), "404 [] not found");
}

fn config() -> Config {
    Config {
        url: "http://u/".into(),
        idle_grace: None,
        control: Some(ControlSocket {
            path: path("/run/s.sock"),
            inode: 7,
        }),
        exit_on_quit: true,
    }
}

/// Make a call and go through it, collecting what it needs as text.
fn call(session: &mut Session, line: &str, gots: Vec<CallGot>) -> (Vec<String>, Vec<Event>) {
    let (mut call, first) = Call::receive(line, &config());
    let mut needs = vec![wanted(&first)];
    let mut events: Vec<Event> = Vec::new();
    for got in gots {
        let (need, heard) = call.step(got, session);
        needs.push(wanted(&need));
        events.extend(heard);
    }
    (needs, events)
}

fn wanted(need: &CallNeed) -> String {
    match need {
        CallNeed::IsFile(path) => format!("file {}", path.display()),
        CallNeed::Count { ping, pause_ms } => format!("count {ping} {pause_ms}"),
        CallNeed::Reply(Reply::Accepted { url, clients }) => format!("ok {url} {clients}"),
        CallNeed::Reply(Reply::Refused(reason)) => format!("err {reason}"),
        CallNeed::Reply(Reply::Bye) => "bye".into(),
        CallNeed::Goodbye => "goodbye".into(),
        CallNeed::Inode(path) => format!("inode {}", path.display()),
        CallNeed::Leave(plan) => format!("leave {} {}", plan.remove, plan.exit),
        CallNeed::Ignore => "ignore".into(),
    }
}

#[test]
fn a_call_switches_the_document_and_counts_the_tabs() {
    let mut session = Session::new(path("/d/a.md"));
    assert_eq!(
        call(
            &mut session,
            "open\t/d/b.md\t1\n",
            vec![
                CallGot::IsFile(true),
                CallGot::Active(2),
                CallGot::Active(1),
                CallGot::Active(1),
                CallGot::Active(1),
            ]
        ),
        (
            list(&[
                "file /d/b.md",
                "count false 0",
                "count true 25",
                "count true 25",
                "ok http://u/ 1",
                "ignore"
            ]),
            vec![Event::Reload, Event::Scroll(1)]
        )
    );
    // A closed tab is not counted.
    assert_eq!(
        call(
            &mut session,
            "open\t/d/b.md\t5\n",
            vec![
                CallGot::IsFile(true),
                CallGot::Active(1),
                CallGot::Active(0)
            ]
        ),
        (
            list(&["file /d/b.md", "count false 0", "count true 25", "ok http://u/ 0"]),
            vec![Event::Scroll(5)]
        )
    );
}

#[test]
fn a_bad_call_is_refused() {
    let mut session = Session::new(path("/d/a.md"));
    assert_eq!(
        call(
            &mut session,
            "open\t/d/nope.md\t\n",
            vec![CallGot::IsFile(false)]
        ),
        (list(&["file /d/nope.md", "err not a file: /d/nope.md"]), vec![])
    );
    assert_eq!(
        call(&mut session, "open\tb.md\t\n", vec![CallGot::IsFile(true)]).0[1],
        "err not an absolute path: b.md"
    );
    assert!(call(&mut session, "open\trelative.md\n", vec![]).0[0].starts_with("err bad request"));
    assert_eq!(session.path(), &path("/d/a.md"));
}

#[test]
fn a_server_says_goodbye_before_it_goes() {
    let mut session = Session::new(path("/d/a.md"));
    for (found, last) in [
        (Some(7), "leave true true"),
        (Some(8), "leave false true"),
        (None, "leave false true"),
    ] {
        assert_eq!(
            call(
                &mut session,
                "quit\n",
                vec![CallGot::Said, CallGot::Inode(found), CallGot::Said]
            ),
            (
                list(&["goodbye", "inode /run/s.sock", last, "ignore"]),
                vec![]
            )
        );
    }
    let mut standalone = config();
    standalone.control = None;
    standalone.exit_on_quit = false;
    let (mut quitting, _) = Call::receive("quit\n", &standalone);
    let (need, _) = quitting.step(CallGot::Said, &mut session);
    assert_eq!(wanted(&need), "leave false false");
}

#[test]
fn without_control_sockets_a_run_only_opens() {
    let home = path("/home/me");
    let start = |args: &[&str], outcomes: Vec<Outcome>| {
        let start: Launch = launch(&list(args));
        let (mut run, first) = Invocation::begin_without_control(start, Some(&home), false);
        let mut actions = vec![describe(&first)];
        for outcome in outcomes {
            actions.push(describe(&run.step(outcome)));
        }
        actions
    };
    let silent = "exit 0 None None None";
    assert_eq!(start(&["--sync", "a.md"], vec![]), [silent]);
    assert_eq!(start(&["--quit"], vec![]), [silent]);
    for args in [vec!["~/a.md"], vec!["--restart", "~/a.md"]] {
        assert_eq!(
            start(&args, vec![resolved("/home/me/a.md"), Outcome::Port(Ok(9))]),
            [
                "resolve /home/me/a.md",
                "listen None",
                "serve /home/me/a.md http://127.0.0.1:9/ None Some(\"http://127.0.0.1:9/\") None"
            ]
        );
    }
    assert!(start(&["main.rs"], vec![])[0].contains("not a Markdown file"));
    assert!(start(&["--bogus"], vec![])[0].starts_with("exit 2"));
}

#[test]
fn a_stream_carries_every_event_until_the_tab_is_gone() {
    let (stream, task) = Stream::open();
    assert_eq!(task, Task::Write(EVENTS_HEAD.into()));
    let (stream, task) = stream.step(Input::Written(true));
    assert_eq!(task, Task::Write(CONNECTED.into()));
    let (stream, task) = stream.step(Input::Written(true));
    assert_eq!(task, Task::Wait(10_000));
    let (stream, task) = stream.step(Input::Arrived(Arrival::Event(Event::Reload)));
    assert_eq!(task, Task::Write("event: reload\ndata:\n\n".into()));
    let (stream, task) = stream.step(Input::Written(true));
    assert_eq!(task, Task::Wait(10_000));
    let (stream, task) = stream.step(Input::Arrived(Arrival::Quiet));
    assert_eq!(task, Task::Write(": ping\n\n".into()));
    let (stream, task) = stream.step(Input::Written(false));
    assert_eq!((stream, task), (Stream::Ended, Task::Close));
    let (stream, task) = stream.step(Input::Arrived(Arrival::Event(Event::Reload)));
    assert_eq!((stream, task), (Stream::Ended, Task::Close));

    let closed = Stream::Flowing.step(Input::Arrived(Arrival::Closed));
    assert_eq!(closed, (Stream::Ended, Task::Close));
    let unwritten = Stream::Opening.step(Input::Written(false));
    assert_eq!(unwritten, (Stream::Ended, Task::Close));
}
