//! The control protocol, the place of its socket, and what its failures mean.

use mdpreviewer::control::{
    after_create, answered, check_socket_dir, connect_error, farewell, format_command, format_reply,
    format_request, incoming, is_ours, may_bind, outgoing, parse_command, parse_reply,
    parse_request, socket_dir, socket_path, transfer_error, Command, ControlSocket,
    DirStep, Failure, Farewell, Incoming,
    ProtocolError, Reply, Request, SendError,
};
use mdpreviewer::path::FilePath;

fn path(text: &str) -> FilePath {
    FilePath::from_text(text)
}

fn request(text: &str, line: Option<u32>) -> Request {
    Request {
        path: path(text),
        line,
    }
}

#[test]
fn request_with_line_round_trips() {
    let original = request("/home/me/notes/a b.md", Some(42));
    let wire = format_request(&original).unwrap();
    assert_eq!(wire, "open\t/home/me/notes/a b.md\t42\n");
    assert_eq!(parse_request(&wire), Ok(original));
}

#[test]
fn request_without_line_round_trips() {
    let original = request("/tmp/x.md", None);
    let wire = format_request(&original).unwrap();
    assert_eq!(wire, "open\t/tmp/x.md\t\n");
    assert_eq!(parse_request(&wire), Ok(original));
}

#[test]
fn paths_with_tabs_or_newlines_are_rejected() {
    assert!(format_request(&request("/tmp/a\tb.md", None)).is_err());
    assert!(format_request(&request("/tmp/a\nb.md", None)).is_err());
}

#[test]
fn malformed_requests_are_rejected() {
    for wire in [
        "",
        "open\t/tmp/x.md\t1",     // no trailing newline
        "close\t/tmp/x.md\t1\n",  // unknown verb
        "open\t/tmp/x.md\n",      // missing line field
        "open\t\t1\n",            // empty path
        "open\t/tmp/x.md\tabc\n", // non-numeric line
        "open\t/tmp/x.md\t1\textra\n",
    ] {
        assert!(parse_request(wire).is_err(), "accepted {wire:?}");
    }
}

#[test]
fn replies_round_trip() {
    let ok = Reply::Accepted {
        url: "http://127.0.0.1:4242/".into(),
        clients: 2,
    };
    assert_eq!(format_reply(&ok), "ok\thttp://127.0.0.1:4242/\t2\n");
    assert_eq!(parse_reply(&format_reply(&ok)), Ok(ok));

    let err = Reply::Refused("not a file: /x".into());
    assert_eq!(format_reply(&err), "err\tnot a file: /x\n");
    assert_eq!(parse_reply(&format_reply(&err)), Ok(err));
}

#[test]
fn error_reasons_are_kept_on_one_line() {
    let wire = format_reply(&Reply::Refused("a\tb\nc".into()));
    assert_eq!(wire, "err\ta b c\n");
}

#[test]
fn malformed_replies_are_rejected() {
    for wire in [
        "",
        "ok\thttp://x/\t2",
        "ok\thttp://x/\n",
        "ok\thttp://x/\tmany\n",
        "yes\n",
    ] {
        assert!(parse_reply(wire).is_err(), "accepted {wire:?}");
    }
}

#[test]
fn socket_path_prefers_xdg_runtime_dir() {
    let found = socket_path(Some(&path("/run/user/1000")), &path("/tmp"), 1000);
    assert_eq!(found, path("/run/user/1000/mdpreview.sock"));
}

#[test]
fn socket_path_falls_back_to_private_temp_dir() {
    let expected = path("/tmp/mdpreview-1000/mdpreview.sock");
    assert_eq!(socket_path(None, &path("/tmp"), 1000), expected);
    assert_eq!(socket_path(Some(&path("")), &path("/tmp"), 1000), expected);
    assert_eq!(
        socket_path(Some(&path("run/user")), &path("/tmp"), 1000),
        expected
    );
}

/// Bytes a Unix socket address has for its path, including the terminating
/// NUL: 104 on macOS and the BSDs, 108 on Linux.
const SUN_PATH_LEN: usize = 104;

/// The longest path below a directory that sockets are made in.
const LONGEST_ENTRY: &str = "sub/mdpreview.sock";

#[test]
fn a_test_dir_leaves_room_for_a_control_socket() {
    let name = "mdpreview-test-4194304-a-deliberately-long-descriptive-test-name-0";
    let dir = path("/tmp").join(&path(name));
    let socket = dir.join(&path(LONGEST_ENTRY));
    assert!(
        socket.as_bytes().len() < SUN_PATH_LEN,
        "{} is {} bytes, too long to bind",
        socket.display(),
        socket.as_bytes().len(),
    );
}

#[test]
fn each_malformed_request_has_its_reason() {
    let reason = |wire: &str| parse_request(wire).unwrap_err();
    assert_eq!(reason("open\t/x.md\t1"), ProtocolError("missing newline"));
    assert_eq!(
        reason("open\t/x.md\n"),
        ProtocolError("expected open<TAB>path<TAB>line")
    );
    assert_eq!(reason("open\t/x.md\t-1\n"), ProtocolError("bad line number"));
    assert_eq!(
        reason("open\t/x.md\t4294967296\n"),
        ProtocolError("bad line number")
    );
    assert_eq!(
        parse_request("open\t/x.md\t+7\n").unwrap().line,
        Some(7)
    );
    assert_eq!(reason("").message(), "missing newline");
}

#[test]
fn each_unsendable_request_has_its_reason() {
    assert_eq!(
        format_request(&request("/a\tb", None)),
        Err(ProtocolError("path contains a tab or newline"))
    );
    let bytes = Request {
        path: FilePath::from_bytes(vec![47, 255]),
        line: None,
    };
    assert_eq!(
        format_request(&bytes),
        Err(ProtocolError("path is not valid UTF-8"))
    );
    // Sent, but refused on arrival.
    assert_eq!(format_request(&request("", None)), Ok("open\t\t\n".into()));
}

#[test]
fn each_malformed_reply_has_its_reason() {
    let reason = |wire: &str| parse_reply(wire).unwrap_err();
    assert_eq!(reason("ok\tu\t2"), ProtocolError("missing newline"));
    assert_eq!(reason("ok\tu\n"), ProtocolError("bad reply"));
    assert_eq!(reason("yes\n"), ProtocolError("bad reply"));
    assert_eq!(reason("yes\tno\n"), ProtocolError("bad reply"));
    assert_eq!(reason("ok\tu\tmany\n"), ProtocolError("bad client count"));
    // The URL ends at the first tab.
    assert_eq!(reason("ok\tu\t1\t2\n"), ProtocolError("bad client count"));
}

#[test]
fn commands_round_trip() {
    let open = Command::Open(request("/tmp/café.md", Some(1)));
    let wire = format_command(&open).unwrap();
    assert_eq!(wire, "open\t/tmp/café.md\t1\n");
    assert_eq!(parse_command(&wire), Ok(open));

    assert_eq!(format_command(&Command::Quit).unwrap(), "quit\n");
    assert_eq!(parse_command("quit\n"), Ok(Command::Quit));
    assert!(parse_command("quit").is_err());
    assert!(parse_command("quit\t\n").is_err());
}

#[test]
fn bye_round_trips() {
    assert_eq!(format_reply(&Reply::Bye), "bye\n");
    assert_eq!(parse_reply("bye\n"), Ok(Reply::Bye));
    assert!(parse_reply("bye").is_err());
}

#[test]
fn a_reason_survives_but_for_its_tabs_and_newlines() {
    let wire = format_reply(&Reply::Refused("no\tsuch\nfile".into()));
    assert_eq!(parse_reply(&wire), Ok(Reply::Refused("no such file".into())));
}

#[test]
fn malformed_lines_are_answered_with_the_reason() {
    assert_eq!(
        incoming("hello\n"),
        Incoming::Malformed(Reply::Refused(
            "bad request: expected open<TAB>path<TAB>line".into()
        ))
    );
    assert_eq!(
        incoming("open\trelative.md\n"),
        Incoming::Malformed(Reply::Refused(
            "bad request: expected open<TAB>path<TAB>line".into()
        ))
    );
    assert_eq!(incoming("quit\n"), Incoming::Quit);
    assert_eq!(
        incoming("open\t/x.md\t3\n"),
        Incoming::Open(request("/x.md", Some(3)))
    );
}

#[test]
fn commands_that_cannot_be_sent_are_protocol_errors() {
    let err = outgoing(&Command::Open(request("/a\nb", None))).unwrap_err();
    assert_eq!(
        err.message(),
        "control protocol error: path contains a tab or newline"
    );
    assert_eq!(outgoing(&Command::Quit), Ok("quit\n".into()));
    assert_eq!(
        answered("nonsense\n"),
        Err(SendError::Protocol(ProtocolError("bad reply")))
    );
    assert_eq!(answered("bye\n"), Ok(Reply::Bye));
}

#[test]
fn a_silent_server_is_not_a_missing_one() {
    assert_eq!(connect_error(Failure::NotFound, "x"), SendError::NoServer);
    assert_eq!(
        connect_error(Failure::ConnectionRefused, "x"),
        SendError::NoServer
    );
    assert_eq!(
        connect_error(Failure::InvalidInput, "too long"),
        SendError::Unusable("too long".into())
    );
    assert_eq!(
        connect_error(Failure::TimedOut, "late"),
        SendError::Io("late".into())
    );
    assert_eq!(transfer_error(Failure::WouldBlock, "x"), SendError::Timeout);
    assert_eq!(transfer_error(Failure::TimedOut, "x"), SendError::Timeout);
    assert_eq!(
        transfer_error(Failure::NotFound, "gone"),
        SendError::Io("gone".into())
    );
}

#[test]
fn send_errors_say_what_happened() {
    assert_eq!(SendError::NoServer.message(), "no preview server is running");
    assert_eq!(
        SendError::Timeout.message(),
        "the preview server did not respond"
    );
    assert_eq!(
        SendError::Io("broken pipe".into()).message(),
        "control socket error: broken pipe"
    );
    assert_eq!(
        SendError::Unusable("too long".into()).message(),
        "control socket is unusable: too long"
    );
}

#[test]
fn shared_or_foreign_directories_are_rejected() {
    let dir = path("/run/me");
    assert_eq!(check_socket_dir(&dir, true, 1000, 0o40700, 1000), Ok(()));
    assert_eq!(
        check_socket_dir(&dir, false, 1000, 0o120777, 1000),
        Err("/run/me is not a directory".into())
    );
    assert_eq!(
        check_socket_dir(&dir, true, 1001, 0o40700, 1000),
        Err("/run/me is owned by another user".into())
    );
    for mode in [0o40755, 0o40701, 0o40710, 0o40770] {
        assert_eq!(
            check_socket_dir(&dir, true, 1000, mode, 1000),
            Err("/run/me is accessible to other users".into())
        );
    }
}

#[test]
fn the_socket_directory_is_the_parent() {
    assert_eq!(socket_dir(&path("/run/me/s.sock")), Ok(path("/run/me")));
    assert_eq!(
        socket_dir(&path("/")),
        Err("socket path has no parent directory".into())
    );
    assert_eq!(after_create(None), DirStep::Ready);
    assert_eq!(
        after_create(Some(Failure::AlreadyExists)),
        DirStep::Inspect
    );
    assert_eq!(after_create(Some(Failure::NotFound)), DirStep::GiveUp);
}

#[test]
fn a_stale_socket_is_replaced_and_a_foreign_one_is_spared() {
    assert!(may_bind(None));
    assert!(may_bind(Some(Failure::NotFound)));
    assert!(!may_bind(Some(Failure::Other)));
    assert!(is_ours(Some(7), 7));
    assert!(!is_ours(Some(8), 7));
    assert!(!is_ours(None, 7));
}

#[test]
fn a_server_removes_only_its_own_socket() {
    let socket = ControlSocket {
        path: path("/run/s.sock"),
        inode: 7,
    };
    let plan = |remove: bool, exit: bool| Farewell { remove, exit };
    assert_eq!(farewell(Some(7), Some(&socket), true), plan(true, true));
    assert_eq!(farewell(Some(7), Some(&socket), false), plan(true, false));
    assert_eq!(farewell(Some(8), Some(&socket), true), plan(false, true));
    assert_eq!(farewell(None, Some(&socket), true), plan(false, true));
    assert_eq!(farewell(Some(7), None, true), plan(false, true));
}

#[test]
fn users_have_sockets_of_their_own() {
    let of = |uid: u32| socket_path(None, &path("/tmp"), uid);
    assert_ne!(of(1000), of(1001));
    assert_ne!(of(1), of(11));
    assert_eq!(of(0), path("/tmp/mdpreview-0/mdpreview.sock"));
}
