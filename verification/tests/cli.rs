//! The command line.

use mdpreviewer::cli::{
    announce, classify, early_exit, expand_home, failure, is_past, launch, local_url, page_url, parse_args,
    quit_outcome, restart_plan, reuse, socket_warning, sync_target, unreachable_server,
    wait_for_exit, without_control, Announcement, Args, EarlyExit, Launch, Mode, Restart, Reuse, Stop, Waiting,
    USAGE,
};
use mdpreviewer::control::{format_reply, parse_reply, Reply, SendError};
use mdpreviewer::path::FilePath;

fn list(args: &[&str]) -> Vec<String> {
    args.iter().map(|arg| arg.to_string()).collect()
}

fn parse(args: &[&str]) -> Result<Args, String> {
    parse_args(&list(args))
}

fn early(args: &[&str]) -> Option<EarlyExit> {
    early_exit(&list(args))
}

fn start(args: &[&str]) -> Launch {
    launch(&list(args))
}

fn path(text: &str) -> FilePath {
    FilePath::from_text(text)
}

#[test]
fn help_and_version_are_recognised_in_both_spellings() {
    assert_eq!(early(&["--help"]), Some(EarlyExit::Help));
    assert_eq!(early(&["-h"]), Some(EarlyExit::Help));
    assert_eq!(early(&["--version"]), Some(EarlyExit::Version));
    assert_eq!(early(&["-V"]), Some(EarlyExit::Version));
    assert_eq!(early(&["notes.md"]), None);
    assert_eq!(early(&[]), None);
}

/// Asking what the options are should answer, not complain, which is the
/// whole reason these are found before the arguments are parsed.
#[test]
fn help_wins_over_bad_arguments_and_over_version() {
    assert!(parse(&["--nonsense"]).is_err());
    assert_eq!(early(&["--nonsense", "--help"]), Some(EarlyExit::Help));
    assert_eq!(early(&["--line"]), None);
    assert_eq!(early(&["--version", "--help"]), Some(EarlyExit::Help));
    assert_eq!(early(&["--help", "--version"]), Some(EarlyExit::Help));
}

#[test]
fn the_version_message_names_the_crate_and_its_version() {
    let message = EarlyExit::Version.message();
    assert!(message.starts_with("mdpreviewer "), "{message}");
    assert!(message.trim_end().ends_with("0.1.0"), "{message}");
}

#[test]
fn the_help_message_shows_every_option_the_parser_accepts() {
    let message = EarlyExit::Help.message();
    for option in [
        "--line",
        "--no-open",
        "--sync",
        "--restart",
        "--quit",
        "--help",
        "--version",
    ] {
        assert!(
            message.contains(option),
            "{option} is missing from:\n{message}"
        );
    }
}

#[test]
fn open_mode_takes_a_file_and_optional_line() {
    assert_eq!(
        parse(&["notes.md"]),
        Ok(Args {
            file: Some("notes.md".into()),
            line: None,
            mode: Mode::Open,
            no_open: false
        })
    );
    assert_eq!(
        parse(&["--line", "42", "--no-open", "my notes.md"]),
        Ok(Args {
            file: Some("my notes.md".into()),
            line: Some(42),
            mode: Mode::Open,
            no_open: true
        })
    );
}

#[test]
fn sync_mode_is_a_flag() {
    assert_eq!(
        parse(&["--sync", "--line", "7", "a.md"]),
        Ok(Args {
            file: Some("a.md".into()),
            line: Some(7),
            mode: Mode::Sync,
            no_open: false
        })
    );
}

#[test]
fn quit_mode_takes_no_file() {
    assert_eq!(
        parse(&["--quit"]),
        Ok(Args {
            file: None,
            line: None,
            mode: Mode::Quit,
            no_open: false
        })
    );
    assert!(parse(&["--quit", "a.md"]).is_err());
}

#[test]
fn restart_mode_still_needs_a_file() {
    assert_eq!(
        parse(&["--restart", "--line", "3", "a.md"]),
        Ok(Args {
            file: Some("a.md".into()),
            line: Some(3),
            mode: Mode::Restart,
            no_open: false
        })
    );
    assert!(parse(&["--restart"]).is_err());
}

#[test]
fn bad_arguments_are_rejected() {
    assert!(parse(&[]).is_err());
    assert!(parse(&["--line"]).is_err());
    assert!(parse(&["--line", "x", "a.md"]).is_err());
    assert!(parse(&["--line", "-1", "a.md"]).is_err());
    assert!(parse(&["--bogus", "a.md"]).is_err());
    assert!(parse(&["a.md", "b.md"]).is_err());
    // The modes are mutually exclusive.
    assert!(parse(&["--sync", "--restart", "a.md"]).is_err());
    assert!(parse(&["--sync", "--quit"]).is_err());
    assert!(parse(&["--restart", "--quit", "a.md"]).is_err());
}

#[test]
fn a_server_that_will_not_quit_is_not_a_missing_server() {
    assert_eq!(classify(Ok(Reply::Bye)), Stop::Stopped);
    assert_eq!(classify(Err(SendError::NoServer)), Stop::NoServer);
    // A build without `--quit` answers `err`; older still, it may misread
    // the verb and answer `ok`. Neither stopped anything.
    assert_eq!(
        classify(Ok(Reply::Refused("bad request".into()))),
        Stop::Refused
    );
    assert_eq!(
        classify(Ok(Reply::Accepted {
            url: "u".into(),
            clients: 0
        })),
        Stop::Refused
    );
    assert_eq!(classify(Err(SendError::Timeout)), Stop::Refused);
}

#[test]
fn a_leading_tilde_becomes_the_home_directory() {
    let home = path("/home/me");
    let expand = |file: &str| expand_home(file, Some(&home));

    assert_eq!(expand("~/notes/a.md"), path("/home/me/notes/a.md"));
    assert_eq!(expand("~"), path("/home/me"));
    // Only a leading `~` path segment counts.
    assert_eq!(expand("~other/a.md"), path("~other/a.md"));
    assert_eq!(expand("notes/~/a.md"), path("notes/~/a.md"));
    assert_eq!(expand("/abs/a.md"), path("/abs/a.md"));
    assert_eq!(expand("a.md"), path("a.md"));
}

#[test]
fn a_tilde_stays_put_without_a_home() {
    assert_eq!(expand_home("~/a.md", None), path("~/a.md"));
    assert_eq!(expand_home("~/a.md", Some(&path(""))), path("~/a.md"));
}

#[test]
fn page_url_carries_the_line_as_a_fragment() {
    assert_eq!(
        page_url("http://127.0.0.1:1/", Some(12)),
        "http://127.0.0.1:1/#line=12"
    );
    assert_eq!(page_url("http://127.0.0.1:1/", None), "http://127.0.0.1:1/");
}

#[test]
fn each_mistake_has_its_message() {
    let message = |args: &[&str]| parse(args).unwrap_err();
    assert_eq!(message(&[]), "missing file");
    assert_eq!(message(&["--no-open"]), "missing file");
    assert_eq!(message(&["--line"]), "--line needs a value");
    assert_eq!(message(&["--line", "x"]), "invalid line number: x");
    assert_eq!(message(&["--line", "--sync"]), "invalid line number: --sync");
    assert_eq!(message(&["--bogus"]), "unknown option: --bogus");
    assert_eq!(message(&["--"]), "unknown option: --");
    assert_eq!(message(&["a.md", "b.md"]), "unexpected argument: b.md");
    assert_eq!(message(&["--quit", "a.md"]), "--quit takes no file");
    assert_eq!(
        message(&["--quit", "--quit"]),
        "--sync, --quit and --restart are mutually exclusive"
    );
}

#[test]
fn options_may_follow_the_file_and_the_last_line_counts() {
    assert_eq!(
        parse(&["a.md", "--line", "1", "--line", "+2", "--sync", "--no-open"]),
        Ok(Args {
            file: Some("a.md".into()),
            line: Some(2),
            mode: Mode::Sync,
            no_open: true
        })
    );
    // A single dash starts no option.
    assert_eq!(parse(&["-x"]).unwrap().file, Some("-x".into()));
}

#[test]
fn arguments_may_stand_in_any_order() {
    let expected = parse(&["--restart", "--line", "3", "--no-open", "a.md"]);
    assert!(expected.is_ok());
    for args in [
        ["a.md", "--line", "3", "--no-open", "--restart"],
        ["--line", "3", "a.md", "--restart", "--no-open"],
        ["--no-open", "a.md", "--restart", "--line", "3"],
    ] {
        assert_eq!(parse(&args), expected);
    }
    // Of two lines the last counts, so those do not change places.
    assert_ne!(
        parse(&["--line", "1", "--line", "2", "a.md"]),
        parse(&["--line", "2", "--line", "1", "a.md"])
    );
}

#[test]
fn without_control_sockets_there_is_nothing_to_update_or_stop() {
    let alone = |args: &[&str]| without_control(start(args));
    assert_eq!(alone(&["--sync", "a.md"]), Launch::Silent);
    assert_eq!(alone(&["--quit"]), Launch::Silent);
    match (alone(&["--restart", "a.md"]), start(&["--restart", "a.md"])) {
        (Launch::Open(other), Launch::Restart(args)) => assert_eq!(other, args),
        other => panic!("{other:?}"),
    }
    for args in [vec!["a.md"], vec!["a.rs"], vec!["-h"], vec!["--bogus"]] {
        assert_eq!(alone(&args), start(&args));
    }
}

#[test]
fn the_help_message_starts_with_the_usage() {
    let message = EarlyExit::Help.message();
    assert!(message.starts_with("usage: mdpreviewer [--line N] [--no-open] <file.md>\n       mdpreviewer --sync"));
    assert!(message.ends_with("-V, --version    show the version"));
    assert!(message.contains("mdpreviewer --quit\n\noptions:\n      --line N"));
}

#[test]
fn sync_is_silent_about_mistakes() {
    assert_eq!(start(&["--sync"]), Launch::Silent);
    assert_eq!(start(&["--sync", "--bogus", "a.md"]), Launch::Silent);
    assert_eq!(start(&["--line", "--sync"]), Launch::Silent);
    assert!(matches!(start(&["--sync", "main.rs"]), Launch::Sync(_)));
    assert_eq!(
        start(&["--sync", "--version"]),
        Launch::Answer("mdpreviewer 0.1.0".into())
    );
}

#[test]
fn mistakes_are_answered_with_the_usage() {
    assert_eq!(
        start(&["--bogus"]),
        Launch::Misuse(format!("mdpreviewer: unknown option: --bogus\n{USAGE}"))
    );
}

#[test]
fn only_markdown_is_opened() {
    assert_eq!(
        start(&["src/main.rs"]),
        Launch::Refuse("mdpreviewer: not a Markdown file: src/main.rs".into())
    );
    assert_eq!(
        start(&["--restart", "[scratch]"]),
        Launch::Refuse("mdpreviewer: not a Markdown file: [scratch]".into())
    );
    assert!(matches!(start(&["docs/README.MD"]), Launch::Open(_)));
    assert!(matches!(start(&["--restart", "a.md"]), Launch::Restart(_)));
    assert_eq!(start(&["--quit"]), Launch::Quit);
    assert!(matches!(start(&["a.md", "-h"]), Launch::Answer(_)));
}

#[test]
fn several_slashes_behind_the_tilde_stay_below_the_home() {
    let home = path("/home/me");
    let found = expand_home("~//etc/passwd", Some(&home));
    assert_eq!(found.as_bytes(), "/home/me/etc/passwd".as_bytes());
}

#[test]
fn sync_hands_on_markdown_only() {
    let args = |file: &str| parse(&["--sync", file]).unwrap();
    let home = path("/home/me");
    assert_eq!(
        sync_target(&args("~/a.md"), Some(&home)),
        Some(path("/home/me/a.md"))
    );
    assert_eq!(sync_target(&args("~/a.rs"), Some(&home)), None);
    assert_eq!(sync_target(&parse(&["--quit"]).unwrap(), None), None);
}

#[test]
fn local_urls_name_the_port() {
    assert_eq!(local_url(4242), "http://127.0.0.1:4242/");
    assert_eq!(local_url(0), "http://127.0.0.1:0/");
}

#[test]
fn a_server_can_tell_its_url() {
    let reply = Reply::Accepted {
        url: local_url(65535),
        clients: 3,
    };
    let line = format_reply(&reply);
    assert_eq!(line, "ok\thttp://127.0.0.1:65535/\t3\n");
    assert_eq!(parse_reply(&line), Ok(reply));
}

#[test]
fn quitting_reports_or_fails() {
    assert_eq!(
        quit_outcome(Stop::Stopped),
        Ok("stopped the preview server".into())
    );
    assert_eq!(
        quit_outcome(Stop::NoServer),
        Ok("no preview server running".into())
    );
    let refused = quit_outcome(Stop::Refused).unwrap_err();
    assert!(refused.starts_with("mdpreviewer: the running preview server is too old to quit"));
    assert_eq!(
        quit_outcome(unreachable_server("/x is not a directory")),
        Err("mdpreviewer: control socket is unusable: /x is not a directory".into())
    );
}

#[test]
fn a_restart_waits_only_for_a_server_that_goes() {
    assert_eq!(restart_plan(&Stop::Stopped), Restart::Await);
    assert_eq!(restart_plan(&Stop::NoServer), Restart::Open);
    assert_eq!(restart_plan(&unreachable_server("x")), Restart::Open);
    assert!(matches!(restart_plan(&Stop::Refused), Restart::Fail(_)));

    assert!(!is_past(1999));
    assert!(is_past(2000));
    assert_eq!(wait_for_exit(false, true), Waiting::Open);
    assert_eq!(wait_for_exit(false, false), Waiting::Open);
    assert_eq!(wait_for_exit(true, false), Waiting::Pause);
    assert_eq!(
        wait_for_exit(true, true),
        Waiting::Fail(
            "mdpreviewer: the running preview server did not exit; kill it by PID (ps | grep mdpreviewer)"
                .into()
        )
    );
}

fn accepted(clients: usize) -> Result<Reply, SendError> {
    Ok(Reply::Accepted {
        url: "http://127.0.0.1:1/".into(),
        clients,
    })
}

#[test]
fn a_tab_opens_only_if_none_is_open() {
    assert_eq!(
        reuse(accepted(0), false, Some(3)),
        Reuse::Browse("http://127.0.0.1:1/#line=3".into())
    );
    assert_eq!(reuse(accepted(1), false, Some(3)), Reuse::Shown);
    assert_eq!(
        reuse(accepted(0), true, Some(3)),
        Reuse::Print("http://127.0.0.1:1/".into())
    );
}

#[test]
fn a_server_starts_only_if_none_answers() {
    assert_eq!(reuse(Err(SendError::NoServer), false, None), Reuse::Bind);
    assert_eq!(
        reuse(Err(SendError::Unusable("too long".into())), false, None),
        Reuse::Standalone(
            "mdpreviewer: control socket is unusable: too long; running a standalone preview"
                .into()
        )
    );
    assert_eq!(
        reuse(Err(SendError::Timeout), false, None),
        Reuse::Fail("mdpreviewer: the preview server did not respond".into())
    );
    assert_eq!(
        reuse(Ok(Reply::Bye), false, None),
        Reuse::Fail("mdpreviewer: unexpected reply from the control socket".into())
    );
    assert_eq!(
        reuse(Ok(Reply::Refused("not a file: /x".into())), false, None),
        Reuse::Fail("mdpreviewer: not a file: /x".into())
    );
}

#[test]
fn an_unusable_socket_is_named() {
    assert_eq!(
        socket_warning(&path("/run/s.sock"), "denied"),
        "mdpreviewer: cannot use /run/s.sock (denied); running a standalone preview"
    );
    assert_eq!(failure("x"), "mdpreviewer: x");
}

#[test]
fn the_url_is_printed_on_a_terminal_or_on_request() {
    let url = "http://127.0.0.1:1/";
    assert_eq!(
        announce(url, true, Some(2), false),
        Announcement {
            browse: None,
            print: Some(url.into())
        }
    );
    assert_eq!(
        announce(url, false, Some(2), false),
        Announcement {
            browse: Some("http://127.0.0.1:1/#line=2".into()),
            print: None
        }
    );
    assert_eq!(
        announce(url, false, None, true),
        Announcement {
            browse: Some(url.into()),
            print: Some(url.into())
        }
    );
}
