//! Control channel: a per-user Unix socket through which a new invocation
//! hands its file and cursor line to a server that is already running, or asks
//! it to quit.
//!
//! One request and one reply per connection, each a single tab-separated line:
//!
//! ```text
//! request:  open\t<absolute path>\t<line or empty>\n
//!           quit\n
//! reply:    ok\t<url>\t<active SSE clients>\n
//!           err\t<reason>\n
//!           bye\n
//! ```

use vstd::prelude::*;
use vstd::string::*;
use vstd::utf8::*;

use crate::decimal::{
    decimal, decimal_reads_back, is_digit, lemma_decimal_digits, number, push_decimal, read_number,
};
use crate::path::{
    has_root, is_void, join, join_appends_the_name, names, parent, same_path, FilePath, SLASH,
};
use crate::text::{
    chars_of, contains_char, lemma_ascii_byte, lemma_first_byte, lemma_first_piece, lemma_one_piece,
    lemma_split_once, lossy_text, pieces, same_text, split_at_char, split_once, split_text,
};

verus! {

/// The file name of the control socket.
pub const SOCKET_NAME: &'static str = "mdpreview.sock";

/// Show `path` and, if given, scroll to 1-based source `line`.
#[derive(Debug, Clone, PartialEq, Eq)]
pub struct Request {
    pub path: FilePath,
    pub line: Option<u32>,
}

/// What a [`Request`] says.
#[verifier::ext_equal]
pub struct RequestView {
    pub path: Seq<u8>,
    pub line: Option<u32>,
}

impl View for Request {
    type V = RequestView;

    open spec fn view(&self) -> RequestView {
        RequestView { path: self.path@, line: self.line }
    }
}

/// What the server answers.
#[derive(Debug, Clone, PartialEq, Eq)]
pub enum Reply {
    /// The server's base URL and how many browser tabs are listening.
    Accepted { url: String, clients: usize },
    /// Why the request was refused.
    Refused(String),
    /// The server is going away, as it was asked to.
    Bye,
}

/// What a [`Reply`] says.
#[verifier::ext_equal]
pub enum ReplyView {
    Accepted { url: Seq<char>, clients: usize },
    Refused(Seq<char>),
    Bye,
}

impl View for Reply {
    type V = ReplyView;

    open spec fn view(&self) -> ReplyView {
        match self {
            Reply::Accepted { url, clients } => ReplyView::Accepted { url: url@, clients: *clients },
            Reply::Refused(reason) => ReplyView::Refused(reason@),
            Reply::Bye => ReplyView::Bye,
        }
    }
}

/// Why a line is not in the protocol.
#[derive(Debug, Clone, PartialEq, Eq)]
pub struct ProtocolError(pub &'static str);

impl ProtocolError {
    /// The error in words.
    pub fn message(&self) -> (text: String)
        ensures
            text@ == self.0@,
    {
        self.0.to_owned()
    }
}

/// A line number as a request carries it: in decimal, or nothing.
pub open spec fn line_field(line: Option<u32>) -> Seq<char> {
    match line {
        Some(n) => decimal(n as nat),
        None => seq![],
    }
}

/// The line that carries a request, or why there is none.
pub open spec fn request_line(request: RequestView) -> Result<Seq<char>, Seq<char>> {
    let path = decode_utf8(request.path);
    if !valid_utf8(request.path) {
        Err("path is not valid UTF-8"@)
    } else if path.contains('\t') || path.contains('\n') {
        Err("path contains a tab or newline"@)
    } else {
        Ok("open\t"@ + path + "\t"@ + line_field(request.line) + "\n"@)
    }
}

/// A line without the newline at its end.
pub open spec fn line_body(line: Seq<char>) -> Option<Seq<char>> {
    if line.len() > 0 && line.last() == '\n' {
        Some(line.drop_last())
    } else {
        None
    }
}

/// The request that a line carries, or why it carries none.
pub open spec fn request_in(line: Seq<char>) -> Result<RequestView, Seq<char>> {
    match line_body(line) {
        None => Err("missing newline"@),
        Some(body) => {
            let fields = pieces(body, '\t');
            if fields.len() != 3 || fields[0] != "open"@ || fields[1].len() == 0 {
                Err("expected open<TAB>path<TAB>line"@)
            } else if fields[2].len() == 0 {
                Ok(RequestView { path: encode_utf8(fields[1]), line: None })
            } else {
                match number(fields[2], u32::MAX as nat) {
                    Some(n) => Ok(
                        RequestView { path: encode_utf8(fields[1]), line: Some(n as u32) },
                    ),
                    None => Err("bad line number"@),
                }
            }
        },
    }
}

/// A line without the newline at its end.
fn strip_newline(line: &str) -> (body: Option<&str>)
    ensures
        body is Some <==> line_body(line@) is Some,
        body is Some ==> line_body(line@) == Some(body->0@),
{
    let len = line.unicode_len();
    if len > 0 && line.get_char(len - 1) == '\n' {
        Some(line.substring_char(0, len - 1))
    } else {
        None
    }
}

/// Encode a request. Paths must be UTF-8 and free of tabs and newlines, which
/// would break the line format.
pub fn format_request(request: &Request) -> (line: Result<String, ProtocolError>)
    ensures
        match line {
            Ok(line) => request_line(request@) == Ok::<Seq<char>, Seq<char>>(line@),
            Err(err) => request_line(request@) == Err::<Seq<char>, Seq<char>>(err.0@),
        },
        line is Ok <==> valid_utf8(request.path@) && !decode_utf8(request.path@).contains('\t')
            && !decode_utf8(request.path@).contains('\n'),
        line is Ok && request.line is None ==> line->Ok_0@ == "open\t"@ + decode_utf8(
            request.path@,
        ) + "\t"@ + "\n"@,
        line is Ok && request.line is Some ==> line->Ok_0@ == "open\t"@ + decode_utf8(
            request.path@,
        ) + "\t"@ + decimal(request.line->0 as nat) + "\n"@,
{
    let path = match request.path.to_text() {
        Some(path) => path,
        None => return Err(ProtocolError("path is not valid UTF-8")),
    };
    if contains_char(path.as_str(), '\t') || contains_char(path.as_str(), '\n') {
        return Err(ProtocolError("path contains a tab or newline"));
    }
    let mut line = String::from_str("open\t");
    line.append(path.as_str());
    line.append("\t");
    let ghost before = line@;
    match request.line {
        Some(n) => push_decimal(&mut line, n as u64),
        None => {},
    }
    assert(line@ == before + line_field(request.line));
    line.append("\n");
    Ok(line)
}

/// Read a request.
pub fn parse_request(line: &str) -> (request: Result<Request, ProtocolError>)
    ensures
        match request {
            Ok(request) => request_in(line@) == Ok::<RequestView, Seq<char>>(request@),
            Err(err) => request_in(line@) == Err::<RequestView, Seq<char>>(err.0@),
        },
        request matches Ok(request) ==> (request_in(line@) matches Ok(said) && request.path@
            == said.path && request.line == said.line),
{
    let body = match strip_newline(line) {
        Some(body) => body,
        None => return Err(ProtocolError("missing newline")),
    };
    let fields = split_text(body, '\t');
    let ghost parts = pieces(body@, '\t');
    assert(parts.len() == fields@.len());
    assert(forall|i: int| 0 <= i < parts.len() ==> parts[i] == (#[trigger] fields@[i])@);
    if fields.len() != 3 || !same_text(fields[0].as_str(), "open") || fields[1].as_str().unicode_len()
        == 0 {
        return Err(ProtocolError("expected open<TAB>path<TAB>line"));
    }
    let path = FilePath::from_text(fields[1].as_str());
    if fields[2].as_str().unicode_len() == 0 {
        return Ok(Request { path, line: None });
    }
    match read_number(fields[2].as_str(), u32::MAX as u64) {
        Some(n) => Ok(Request { path, line: Some(n as u32) }),
        None => Err(ProtocolError("bad line number")),
    }
}

/// A reason on one line: tabs and newlines become spaces.
pub open spec fn on_one_line(reason: Seq<char>) -> Seq<char> {
    reason.map_values(
        |ch: char|
            if ch == '\t' || ch == '\n' {
                ' '
            } else {
                ch
            },
    )
}

/// The line that carries a reply.
pub open spec fn reply_line(reply: ReplyView) -> Seq<char> {
    match reply {
        ReplyView::Accepted { url, clients } => "ok\t"@ + url + "\t"@ + decimal(clients as nat)
            + "\n"@,
        ReplyView::Refused(reason) => "err\t"@ + on_one_line(reason) + "\n"@,
        ReplyView::Bye => "bye\n"@,
    }
}

/// The reply that a line carries, or why it carries none.
pub open spec fn reply_in(line: Seq<char>) -> Result<ReplyView, Seq<char>> {
    match line_body(line) {
        None => Err("missing newline"@),
        Some(body) => if body == "bye"@ {
            Ok(ReplyView::Bye)
        } else {
            match split_once(body, '\t') {
                Some((verb, rest)) => if verb == "ok"@ {
                    match split_once(rest, '\t') {
                        Some((url, clients)) => match number(clients, usize::MAX as nat) {
                            Some(n) => Ok(ReplyView::Accepted { url, clients: n as usize }),
                            None => Err("bad client count"@),
                        },
                        None => Err("bad reply"@),
                    }
                } else if verb == "err"@ {
                    Ok(ReplyView::Refused(rest))
                } else {
                    Err("bad reply"@)
                },
                None => Err("bad reply"@),
            }
        },
    }
}

/// Append `reason`, with its tabs and newlines made spaces.
fn push_on_one_line(out: &mut String, reason: &str)
    ensures
        final(out)@ == old(out)@ + on_one_line(reason@),
{
    let chars = chars_of(reason);
    let mut i: usize = 0;
    while i < chars.len()
        invariant
            i <= chars@.len(),
            chars@ == reason@,
            out@ == old(out)@ + on_one_line(reason@).take(i as int),
        decreases chars@.len() - i,
    {
        if chars[i] == '\t' || chars[i] == '\n' {
            out.push(' ');
        } else {
            out.push(chars[i]);
        }
        assert(out@ == old(out)@ + on_one_line(reason@).take(i + 1));
        i += 1;
    }
    assert(on_one_line(reason@).take(i as int) == on_one_line(reason@));
}

/// Encode a reply. Tabs and newlines in an error reason become spaces.
pub fn format_reply(reply: &Reply) -> (line: String)
    ensures
        line@ == reply_line(reply@),
        *reply matches Reply::Accepted { url, clients } ==> line@ == "ok\t"@ + url@ + "\t"@
            + decimal(clients as nat) + "\n"@,
        *reply matches Reply::Refused(reason) ==> line@ == "err\t"@ + on_one_line(reason@)
            + "\n"@,
        *reply is Bye ==> line@ == "bye\n"@,
{
    match reply {
        Reply::Accepted { url, clients } => {
            let mut line = String::from_str("ok\t");
            line.append(url.as_str());
            line.append("\t");
            push_decimal(&mut line, *clients as u64);
            line.append("\n");
            line
        },
        Reply::Refused(reason) => {
            let mut line = String::from_str("err\t");
            push_on_one_line(&mut line, reason.as_str());
            line.append("\n");
            line
        },
        Reply::Bye => String::from_str("bye\n"),
    }
}

/// Read a reply.
pub fn parse_reply(line: &str) -> (reply: Result<Reply, ProtocolError>)
    ensures
        match reply {
            Ok(reply) => reply_in(line@) == Ok::<ReplyView, Seq<char>>(reply@),
            Err(err) => reply_in(line@) == Err::<ReplyView, Seq<char>>(err.0@),
        },
        reply matches Ok(Reply::Accepted { url, clients }) ==> (reply_in(line@)
            matches Ok(ReplyView::Accepted { url: said, clients: count }) && url@ == said && clients
            == count),
        reply matches Ok(Reply::Refused(reason)) ==> (reply_in(line@) matches Ok(
            ReplyView::Refused(said),
        ) && reason@ == said),
{
    let body = match strip_newline(line) {
        Some(body) => body,
        None => return Err(ProtocolError("missing newline")),
    };
    if same_text(body, "bye") {
        return Ok(Reply::Bye);
    }
    let (verb, rest) = match split_at_char(body, '\t') {
        Some(halves) => halves,
        None => return Err(ProtocolError("bad reply")),
    };
    if same_text(verb, "ok") {
        let (url, clients) = match split_at_char(rest, '\t') {
            Some(halves) => halves,
            None => return Err(ProtocolError("bad reply")),
        };
        match read_number(clients, usize::MAX as u64) {
            Some(n) => Ok(Reply::Accepted { url: url.to_owned(), clients: n as usize }),
            None => Err(ProtocolError("bad client count")),
        }
    } else if same_text(verb, "err") {
        Ok(Reply::Refused(rest.to_owned()))
    } else {
        Err(ProtocolError("bad reply"))
    }
}

/// What an invocation asks of the server.
#[derive(Debug, Clone, PartialEq, Eq)]
pub enum Command {
    /// Show a document.
    Open(Request),
    /// Go away.
    Quit,
}

/// What a [`Command`] says.
#[verifier::ext_equal]
pub enum CommandView {
    Open(RequestView),
    Quit,
}

impl View for Command {
    type V = CommandView;

    open spec fn view(&self) -> CommandView {
        match self {
            Command::Open(request) => CommandView::Open(request@),
            Command::Quit => CommandView::Quit,
        }
    }
}

/// The line that carries a command, or why there is none.
pub open spec fn command_line(command: CommandView) -> Result<Seq<char>, Seq<char>> {
    match command {
        CommandView::Open(request) => request_line(request),
        CommandView::Quit => Ok("quit\n"@),
    }
}

/// The command that a line carries, or why it carries none.
pub open spec fn command_in(line: Seq<char>) -> Result<CommandView, Seq<char>> {
    if line == "quit\n"@ {
        Ok(CommandView::Quit)
    } else {
        match request_in(line) {
            Ok(request) => Ok(CommandView::Open(request)),
            Err(reason) => Err(reason),
        }
    }
}

/// Encode a command.
pub fn format_command(command: &Command) -> (line: Result<String, ProtocolError>)
    ensures
        match line {
            Ok(line) => command_line(command@) == Ok::<Seq<char>, Seq<char>>(line@),
            Err(err) => command_line(command@) == Err::<Seq<char>, Seq<char>>(err.0@),
        },
{
    match command {
        Command::Open(request) => format_request(request),
        Command::Quit => Ok(String::from_str("quit\n")),
    }
}

/// Read a command.
pub fn parse_command(line: &str) -> (command: Result<Command, ProtocolError>)
    ensures
        match command {
            Ok(command) => command_in(line@) == Ok::<CommandView, Seq<char>>(command@),
            Err(err) => command_in(line@) == Err::<CommandView, Seq<char>>(err.0@),
        },
{
    if same_text(line, "quit\n") {
        return Ok(Command::Quit);
    }
    match parse_request(line) {
        Ok(request) => Ok(Command::Open(request)),
        Err(err) => Err(err),
    }
}

/// A number is written without tabs and newlines.
proof fn lemma_decimal_field(n: nat)
    ensures
        !decimal(n).contains('\t'),
        !decimal(n).contains('\n'),
{
    lemma_decimal_digits(n);
    assert forall|i: int| 0 <= i < decimal(n).len() implies decimal(n)[i] != '\t' && decimal(n)[i]
        != '\n' by {
        assert(is_digit(decimal(n)[i]));
    }
}

/// What the literals of the protocol hold.
proof fn lemma_literals()
    ensures
        "open\t"@ == seq!['o', 'p', 'e', 'n', '\t'],
        "open"@ == seq!['o', 'p', 'e', 'n'],
        "\t"@ == seq!['\t'],
        "\n"@ == seq!['\n'],
        "ok\t"@ == seq!['o', 'k', '\t'],
        "ok"@ == seq!['o', 'k'],
        "err\t"@ == seq!['e', 'r', 'r', '\t'],
        "err"@ == seq!['e', 'r', 'r'],
        "bye\n"@ == seq!['b', 'y', 'e', '\n'],
        "bye"@ == seq!['b', 'y', 'e'],
        "quit\n"@ == seq!['q', 'u', 'i', 't', '\n'],
{
    reveal_strlit("open\t");
    reveal_strlit("open");
    reveal_strlit("\t");
    reveal_strlit("\n");
    reveal_strlit("ok\t");
    reveal_strlit("ok");
    reveal_strlit("err\t");
    reveal_strlit("err");
    reveal_strlit("bye\n");
    reveal_strlit("bye");
    reveal_strlit("quit\n");
}

/// Whether a request can travel: its path is a text without tabs and
/// newlines, and is not empty.
pub open spec fn is_sendable(request: RequestView) -> bool {
    &&& valid_utf8(request.path)
    &&& request.path.len() > 0
    &&& !decode_utf8(request.path).contains('\t')
    &&& !decode_utf8(request.path).contains('\n')
}

/// A request arrives as it was sent.
pub proof fn request_reads_back(request: RequestView)
    requires
        is_sendable(request),
    ensures
        request_line(request) matches Ok(line) && request_in(line) == Ok::<RequestView, Seq<char>>(
            request,
        ),
{
    lemma_literals();
    let path = decode_utf8(request.path);
    let field = line_field(request.line);
    let open = seq!['o', 'p', 'e', 'n'];
    let line = request_line(request)->Ok_0;
    let body = line.drop_last();
    assert(body == open.push('\t') + (path.push('\t') + field));
    match request.line {
        Some(n) => {
            lemma_decimal_field(n as nat);
            lemma_decimal_digits(n as nat);
            decimal_reads_back(n as nat, u32::MAX as nat);
        },
        None => {},
    }
    lemma_first_piece(open, '\t', path.push('\t') + field);
    lemma_first_piece(path, '\t', field);
    lemma_one_piece(field, '\t');
    let fields = pieces(body, '\t');
    assert(fields == seq![open, path, field]);
    decode_utf8_encode_utf8(request.path);
    assert(path.len() > 0);
}

/// A request is sent as one line: a newline ends it, and it holds no other.
pub proof fn request_is_one_line(request: RequestView)
    ensures
        request_line(request) matches Ok(line) ==> line.len() > 0 && line.last() == '\n'
            && !line.drop_last().contains('\n'),
{
    if let Ok(line) = request_line(request) {
        lemma_literals();
        let path = decode_utf8(request.path);
        let field = line_field(request.line);
        match request.line {
            Some(n) => lemma_decimal_field(n as nat),
            None => {},
        }
        let body = line.drop_last();
        assert(body == "open\t"@ + path + "\t"@ + field);
        assert forall|i: int| 0 <= i < body.len() implies body[i] != '\n' by {
            if 5 <= i < 5 + path.len() {
                assert(body[i] == path[i - 5]);
            } else if i > 5 + path.len() {
                assert(body[i] == field[i - 6 - path.len()]);
            }
        }
    }
}

/// A command arrives as it was sent.
pub proof fn command_reads_back(command: CommandView)
    requires
        command matches CommandView::Open(request) ==> is_sendable(request),
    ensures
        command_line(command) matches Ok(line) && command_in(line) == Ok::<CommandView, Seq<char>>(
            command,
        ),
{
    lemma_literals();
    match command {
        CommandView::Open(request) => {
            request_reads_back(request);
            let line = request_line(request)->Ok_0;
            assert(line[0] == 'o');
            assert("quit\n"@[0] == 'q');
        },
        CommandView::Quit => {},
    }
}

/// A reply as its line carries it: a reason is kept on one line.
pub open spec fn on_the_wire(reply: ReplyView) -> ReplyView {
    match reply {
        ReplyView::Refused(reason) => ReplyView::Refused(on_one_line(reason)),
        _ => reply,
    }
}

/// A reply arrives as it was sent, but for the tabs and newlines of a reason.
pub proof fn reply_reads_back(reply: ReplyView)
    requires
        reply matches ReplyView::Accepted { url, .. } ==> !url.contains('\t'),
    ensures
        reply_in(reply_line(reply)) == Ok::<ReplyView, Seq<char>>(on_the_wire(reply)),
{
    lemma_literals();
    let line = reply_line(reply);
    let body = line.drop_last();
    match reply {
        ReplyView::Accepted { url, clients } => {
            let ok = seq!['o', 'k'];
            let count = decimal(clients as nat);
            assert(body == ok.push('\t') + (url.push('\t') + count));
            assert(body[0] == 'o');
            lemma_split_once(ok, '\t', url.push('\t') + count);
            lemma_split_once(url, '\t', count);
            decimal_reads_back(clients as nat, usize::MAX as nat);
        },
        ReplyView::Refused(reason) => {
            let err = seq!['e', 'r', 'r'];
            assert(body == err.push('\t') + on_one_line(reason));
            assert(body[0] == 'e');
            lemma_split_once(err, '\t', on_one_line(reason));
            assert(err[0] == 'e' && "ok"@[0] == 'o');
        },
        ReplyView::Bye => {
            assert(body == "bye"@);
        },
    }
}

/// A reply is sent as one line, as long as the URL in it has no newline.
pub proof fn reply_is_one_line(reply: ReplyView)
    requires
        reply matches ReplyView::Accepted { url, .. } ==> !url.contains('\n'),
    ensures
        reply_line(reply).len() > 0,
        reply_line(reply).last() == '\n',
        !reply_line(reply).drop_last().contains('\n'),
{
    lemma_literals();
    let body = reply_line(reply).drop_last();
    match reply {
        ReplyView::Accepted { url, clients } => {
            let count = decimal(clients as nat);
            lemma_decimal_field(clients as nat);
            assert(body == "ok\t"@ + url + "\t"@ + count);
            assert forall|i: int| 0 <= i < body.len() implies body[i] != '\n' by {
                if 3 <= i < 3 + url.len() {
                    assert(body[i] == url[i - 3]);
                } else if i > 3 + url.len() {
                    assert(body[i] == count[i - 4 - url.len()]);
                }
            }
        },
        ReplyView::Refused(reason) => {
            assert(body == "err\t"@ + on_one_line(reason));
        },
        ReplyView::Bye => {
            assert(body == "bye"@);
        },
    }
}

/// Where the control socket lives: in the runtime directory if that is
/// absolute, else in a private per-user directory under `temp_dir`.
pub open spec fn socket_location(xdg: Option<Seq<u8>>, temp_dir: Seq<u8>, uid: u32) -> Seq<u8> {
    let name = encode_utf8(SOCKET_NAME@);
    match xdg {
        Some(dir) if has_root(dir) => join(dir, name),
        _ => join(join(temp_dir, encode_utf8("mdpreview-"@ + decimal(uid as nat))), name),
    }
}

/// Where the control socket lives: `$XDG_RUNTIME_DIR/mdpreview.sock` if that is
/// set to an absolute path, else a private per-user directory under `temp_dir`.
pub fn socket_path(xdg_runtime_dir: Option<&FilePath>, temp_dir: &FilePath, uid: u32) -> (path:
    FilePath)
    ensures
        path@ == socket_location(
            match xdg_runtime_dir {
                Some(dir) => Some(dir@),
                None => None,
            },
            temp_dir@,
            uid,
        ),
        xdg_runtime_dir is Some && has_root(xdg_runtime_dir->0@) ==> path@ == join(
            xdg_runtime_dir->0@,
            encode_utf8("mdpreview.sock"@),
        ),
        xdg_runtime_dir is None || !has_root(xdg_runtime_dir->0@) ==> path@ == join(
            join(temp_dir@, encode_utf8("mdpreview-"@ + decimal(uid as nat))),
            encode_utf8("mdpreview.sock"@),
        ),
{
    let name = FilePath::from_text(SOCKET_NAME);
    if let Some(dir) = xdg_runtime_dir {
        if dir.has_root() {
            return dir.join(&name);
        }
    }
    let mut private = String::from_str("mdpreview-");
    push_decimal(&mut private, uid as u64);
    temp_dir.join(&FilePath::from_text(private.as_str())).join(&name)
}

/// Each user has a socket of their own: under one directory for temporary
/// files, no two users' sockets are at the same path.
pub proof fn sockets_are_per_user(temp_dir: Seq<u8>, uid: u32, other: u32)
    requires
        uid != other,
    ensures
        !same_path(socket_location(None, temp_dir, uid), socket_location(None, temp_dir, other)),
{
    let name = encode_utf8(SOCKET_NAME@);
    let mine = "mdpreview-"@ + decimal(uid as nat);
    let theirs = "mdpreview-"@ + decimal(other as nat);
    lemma_socket_name();
    lemma_private_dir(uid);
    lemma_private_dir(other);
    join_appends_the_name(temp_dir, encode_utf8(mine));
    join_appends_the_name(temp_dir, encode_utf8(theirs));
    join_appends_the_name(join(temp_dir, encode_utf8(mine)), name);
    join_appends_the_name(join(temp_dir, encode_utf8(theirs)), name);
    let a = names(socket_location(None, temp_dir, uid));
    let b = names(socket_location(None, temp_dir, other));
    let n = names(temp_dir).len() as int;
    assert(a[n] == encode_utf8(mine));
    assert(b[n] == encode_utf8(theirs));
    if a == b {
        encode_utf8_decode_utf8(mine);
        encode_utf8_decode_utf8(theirs);
        assert(mine == theirs);
        assert(mine.skip("mdpreview-"@.len() as int) == decimal(uid as nat));
        assert(theirs.skip("mdpreview-"@.len() as int) == decimal(other as nat));
        decimal_reads_back(uid as nat, u32::MAX as nat);
        decimal_reads_back(other as nat, u32::MAX as nat);
    }
}

/// The socket's name is a file name.
proof fn lemma_socket_name()
    ensures
        !encode_utf8(SOCKET_NAME@).contains(SLASH),
        !is_void(encode_utf8(SOCKET_NAME@)),
{
    reveal_strlit("mdpreview.sock");
    lemma_ascii_byte(SOCKET_NAME@, '/');
    lemma_first_byte(SOCKET_NAME@, '.');
    assert(encode_utf8(SOCKET_NAME@).len() > 0) by {
        encode_utf8_decode_utf8(SOCKET_NAME@);
    }
}

/// The name of a user's private directory is a file name.
proof fn lemma_private_dir(uid: u32)
    ensures
        !encode_utf8("mdpreview-"@ + decimal(uid as nat)).contains(SLASH),
        !is_void(encode_utf8("mdpreview-"@ + decimal(uid as nat))),
{
    let text = "mdpreview-"@ + decimal(uid as nat);
    reveal_strlit("mdpreview-");
    lemma_decimal_digits(uid as nat);
    assert forall|i: int| 0 <= i < text.len() implies text[i] != '/' by {
        if i >= 10 {
            assert(text[i] == decimal(uid as nat)[i - 10]);
            assert(is_digit(decimal(uid as nat)[i - 10]));
        }
    }
    lemma_ascii_byte(text, '/');
    lemma_first_byte(text, '.');
    assert(encode_utf8(text).len() > 0) by {
        encode_utf8_decode_utf8(text);
    }
}

/// How long the server waits on a connected client before giving up on it, in
/// milliseconds.
pub const SERVER_TIMEOUT_MS: u64 = 1000;

/// Upper bound on a request line: a maximal path plus the framing.
pub const MAX_REQUEST: u64 = 8192;

/// A bound control socket: what is needed to remove it safely on exit.
#[derive(Debug, Clone, PartialEq, Eq)]
pub struct ControlSocket {
    pub path: FilePath,
    /// Inode of the socket file when it was bound; see [`is_ours`].
    pub inode: u64,
}

/// How a system call failed, as far as it makes a difference here.
#[derive(Debug, Clone, Copy, PartialEq, Eq, Structural)]
pub enum Failure {
    NotFound,
    ConnectionRefused,
    AlreadyExists,
    WouldBlock,
    TimedOut,
    InvalidInput,
    Other,
}

/// Why a command brought no reply.
#[derive(Debug, Clone, PartialEq, Eq)]
pub enum SendError {
    /// No socket file, or nothing listening on it (a stale socket).
    NoServer,
    /// A server accepted the connection but did not answer in time.
    Timeout,
    /// The command cannot be sent, or the reply cannot be read.
    Protocol(ProtocolError),
    /// The connection failed. Carries the system's words.
    Io(String),
    /// No socket can be at that path. Carries the system's words.
    Unusable(String),
}

/// What a [`SendError`] says.
#[verifier::ext_equal]
pub enum SendErrorView {
    NoServer,
    Timeout,
    Protocol(Seq<char>),
    Io(Seq<char>),
    Unusable(Seq<char>),
}

impl View for SendError {
    type V = SendErrorView;

    open spec fn view(&self) -> SendErrorView {
        match self {
            SendError::NoServer => SendErrorView::NoServer,
            SendError::Timeout => SendErrorView::Timeout,
            SendError::Protocol(err) => SendErrorView::Protocol(err.0@),
            SendError::Io(text) => SendErrorView::Io(text@),
            SendError::Unusable(text) => SendErrorView::Unusable(text@),
        }
    }
}

/// A [`SendError`] in words.
pub open spec fn send_error_text(err: SendErrorView) -> Seq<char> {
    match err {
        SendErrorView::NoServer => "no preview server is running"@,
        SendErrorView::Timeout => "the preview server did not respond"@,
        SendErrorView::Protocol(text) => "control protocol error: "@ + text,
        SendErrorView::Io(text) => "control socket error: "@ + text,
        SendErrorView::Unusable(text) => "control socket is unusable: "@ + text,
    }
}

impl SendError {
    /// The error in words.
    pub fn message(&self) -> (text: String)
        ensures
            text@ == send_error_text(self@),
            *self is NoServer ==> text@ == "no preview server is running"@,
            *self is Timeout ==> text@ == "the preview server did not respond"@,
            *self matches SendError::Protocol(err) ==> text@ == "control protocol error: "@
                + err.0@,
            *self matches SendError::Io(problem) ==> text@ == "control socket error: "@ + problem@,
            *self matches SendError::Unusable(problem) ==> text@ == "control socket is unusable: "@
                + problem@,
    {
        match self {
            SendError::NoServer => String::from_str("no preview server is running"),
            SendError::Timeout => String::from_str("the preview server did not respond"),
            SendError::Protocol(err) => String::from_str("control protocol error: ").concat(err.0),
            SendError::Io(text) => String::from_str("control socket error: ").concat(text.as_str()),
            SendError::Unusable(text) => String::from_str("control socket is unusable: ").concat(
                text.as_str(),
            ),
        }
    }
}

/// What a failed connection means: no socket, or a stale one, is a missing
/// server; a path that no socket can have is unusable.
pub open spec fn connect_failure(kind: Failure, text: Seq<char>) -> SendErrorView {
    match kind {
        Failure::NotFound | Failure::ConnectionRefused => SendErrorView::NoServer,
        Failure::InvalidInput => SendErrorView::Unusable(text),
        _ => SendErrorView::Io(text),
    }
}

/// The error for a connection that failed, which the system calls `text`.
pub fn connect_error(kind: Failure, text: &str) -> (err: SendError)
    ensures
        err@ == connect_failure(kind, text@),
        err is NoServer <==> kind is NotFound || kind is ConnectionRefused,
        err is Unusable <==> kind is InvalidInput,
        err matches SendError::Unusable(problem) ==> problem@ == text@,
        err matches SendError::Io(problem) ==> problem@ == text@,
        err is NoServer || err is Unusable || err is Io,
{
    match kind {
        Failure::NotFound | Failure::ConnectionRefused => SendError::NoServer,
        Failure::InvalidInput => SendError::Unusable(text.to_owned()),
        _ => SendError::Io(text.to_owned()),
    }
}

/// What a failed read or write means: a server that is there and silent is
/// late, not missing.
pub open spec fn transfer_failure(kind: Failure, text: Seq<char>) -> SendErrorView {
    match kind {
        Failure::WouldBlock | Failure::TimedOut => SendErrorView::Timeout,
        _ => SendErrorView::Io(text),
    }
}

/// The error for a read or write that failed, which the system calls `text`.
pub fn transfer_error(kind: Failure, text: &str) -> (err: SendError)
    ensures
        err@ == transfer_failure(kind, text@),
        err is Timeout <==> kind is WouldBlock || kind is TimedOut,
        err matches SendError::Io(problem) ==> problem@ == text@,
        err is Timeout || err is Io,
{
    match kind {
        Failure::WouldBlock | Failure::TimedOut => SendError::Timeout,
        _ => SendError::Io(text.to_owned()),
    }
}

/// The line to send for a command. A command that has none is refused before
/// anything is sent.
pub fn outgoing(command: &Command) -> (line: Result<String, SendError>)
    ensures
        match line {
            Ok(line) => command_line(command@) == Ok::<Seq<char>, Seq<char>>(line@),
            Err(err) => command_line(command@) matches Err(reason) && err@
                == SendErrorView::Protocol(reason),
        },
{
    match format_command(command) {
        Ok(line) => Ok(line),
        Err(err) => Err(SendError::Protocol(err)),
    }
}

/// The reply in the line that came back.
pub fn answered(line: &str) -> (reply: Result<Reply, SendError>)
    ensures
        match reply {
            Ok(reply) => reply_in(line@) == Ok::<ReplyView, Seq<char>>(reply@),
            Err(err) => reply_in(line@) matches Err(reason) && err@ == SendErrorView::Protocol(
                reason,
            ),
        },
{
    match parse_reply(line) {
        Ok(reply) => Ok(reply),
        Err(err) => Err(SendError::Protocol(err)),
    }
}

/// What the server does with a line that came in.
#[derive(Debug, Clone, PartialEq, Eq)]
pub enum Incoming {
    /// Show a document, and answer with what came of it.
    Open(Request),
    /// Answer with [`Reply::Bye`], then go away.
    Quit,
    /// Answer with this refusal.
    Malformed(Reply),
}

/// Read a line that a client sent. One that is no command is answered with
/// the reason.
pub fn incoming(line: &str) -> (action: Incoming)
    ensures
        match command_in(line@) {
            Ok(CommandView::Open(request)) => action matches Incoming::Open(r) && r@ == request,
            Ok(CommandView::Quit) => action is Quit,
            Err(reason) => action matches Incoming::Malformed(reply) && reply@
                == ReplyView::Refused("bad request: "@ + reason),
        },
{
    match parse_command(line) {
        Ok(Command::Open(request)) => Incoming::Open(request),
        Ok(Command::Quit) => Incoming::Quit,
        Err(err) => Incoming::Malformed(
            Reply::Refused(String::from_str("bad request: ").concat(err.0)),
        ),
    }
}

/// The directory that a control socket is in, or why there is none.
pub fn socket_dir(socket: &FilePath) -> (dir: Result<FilePath, String>)
    ensures
        match dir {
            Ok(dir) => parent(socket@) == Some(dir@),
            Err(reason) => parent(socket@) is None && reason@
                == "socket path has no parent directory"@,
        },
{
    match socket.parent() {
        Some(dir) => Ok(dir),
        None => Err(String::from_str("socket path has no parent directory")),
    }
}

/// What follows an attempt to create the socket's directory.
#[derive(Debug, Clone, Copy, PartialEq, Eq, Structural)]
pub enum DirStep {
    /// It is new, and private.
    Ready,
    /// It was there: see [`check_socket_dir`].
    Inspect,
    /// It cannot be had.
    GiveUp,
}

/// What follows an attempt to create the socket's directory, which succeeded
/// if there is no `failure`.
pub fn after_create(failure: Option<Failure>) -> (step: DirStep)
    ensures
        step == match failure {
            None => DirStep::Ready,
            Some(Failure::AlreadyExists) => DirStep::Inspect,
            Some(_) => DirStep::GiveUp,
        },
{
    match failure {
        None => DirStep::Ready,
        Some(Failure::AlreadyExists) => DirStep::Inspect,
        Some(_) => DirStep::GiveUp,
    }
}

/// What keeps a directory from holding the control socket of user `uid`: it
/// must be a real directory of theirs that nobody else has any access to.
pub open spec fn dir_problem(is_dir: bool, owner: u32, mode: u32, uid: u32) -> Option<Seq<char>> {
    if !is_dir {
        Some("is not a directory"@)
    } else if owner != uid {
        Some("is owned by another user"@)
    } else if mode & 0o077 != 0 {
        Some("is accessible to other users"@)
    } else {
        None
    }
}

/// Make sure that only `uid` can use the directory, so that no other user can
/// plant or intercept the socket. `is_dir`, `owner` and `mode` describe what is
/// at `dir` itself, without following a symlink.
pub fn check_socket_dir(dir: &FilePath, is_dir: bool, owner: u32, mode: u32, uid: u32) -> (checked:
    Result<(), String>)
    ensures
        match checked {
            Ok(_) => dir_problem(is_dir, owner, mode, uid) is None,
            Err(reason) => dir_problem(is_dir, owner, mode, uid) matches Some(problem) && reason@
                == lossy_text(dir@) + " "@ + problem,
        },
        checked is Ok <==> is_dir && owner == uid && mode & 0o077 == 0,
        !is_dir ==> checked->Err_0@ == lossy_text(dir@) + " "@ + "is not a directory"@,
        is_dir && owner != uid ==> checked->Err_0@ == lossy_text(dir@) + " "@
            + "is owned by another user"@,
        is_dir && owner == uid && mode & 0o077 != 0 ==> checked->Err_0@ == lossy_text(dir@) + " "@
            + "is accessible to other users"@,
{
    let problem = if !is_dir {
        "is not a directory"
    } else if owner != uid {
        "is owned by another user"
    } else if mode & 0o077 != 0 {
        "is accessible to other users"
    } else {
        return Ok(());
    };
    let mut reason = dir.display();
    reason.append(" ");
    reason.append(problem);
    Err(reason)
}

/// A directory holds the control socket only if no group or other bit is set,
/// whatever the other bits of its mode are.
pub proof fn shared_directories_are_refused(mode: u32, uid: u32)
    ensures
        dir_problem(true, uid, mode, uid) is None <==> mode % 64 == 0,
{
    assert(mode & 0o077 == mode % 64) by (bit_vector);
}

/// Whether the socket can be bound after an attempt to remove what a dead
/// server left behind, which succeeded if there is no `failure`.
pub fn may_bind(failure: Option<Failure>) -> (may: bool)
    ensures
        may == (failure is None || failure == Some(Failure::NotFound)),
{
    match failure {
        None | Some(Failure::NotFound) => true,
        Some(_) => false,
    }
}

/// Whether the socket that is at a path now, if there is one, is the one that
/// was bound with `inode`. If another server has replaced it, it is not, and
/// must be left alone.
pub fn is_ours(found: Option<u64>, inode: u64) -> (ours: bool)
    ensures
        ours == (found == Some(inode)),
{
    match found {
        Some(there) => there == inode,
        None => false,
    }
}

/// What is left to do when the server goes away.
#[derive(Debug, Clone, Copy, PartialEq, Eq, Structural)]
pub struct Farewell {
    /// Whether to remove the socket.
    pub remove: bool,
    /// Whether to end the process, after that.
    pub exit: bool,
}

/// What is left to do when a server with this control socket, if it has one,
/// goes away: `found` is the inode of what is at the socket's path now.
pub open spec fn leaving(
    found: Option<u64>,
    socket: Option<(Seq<u8>, u64)>,
    exit_on_quit: bool,
) -> Farewell {
    Farewell {
        remove: socket is Some && found == Some((socket->0).1),
        exit: exit_on_quit,
    }
}

/// Decide what is left to do when the server goes away: remove its socket if it
/// is still the one that was bound, and end the process if it is to.
pub fn farewell(found: Option<u64>, socket: Option<&ControlSocket>, exit_on_quit: bool) -> (plan:
    Farewell)
    ensures
        plan.remove <==> socket is Some && found == Some(socket->0.inode),
        plan.exit == exit_on_quit,
{
    let remove = match socket {
        Some(socket) => is_ours(found, socket.inode),
        None => false,
    };
    Farewell { remove, exit: exit_on_quit }
}

/// A request travels as `open`, its path and its line, with tabs between them
/// and a newline at the end. A path that is no text, or that holds a tab or a
/// newline, does not travel, and that is why.
pub proof fn a_request_travels_as_three_fields(request: RequestView)
    ensures
        !valid_utf8(request.path) ==> request_line(request) == Err::<Seq<char>, Seq<char>>(
            "path is not valid UTF-8"@,
        ),
        valid_utf8(request.path) && (decode_utf8(request.path).contains('\t') || decode_utf8(
            request.path,
        ).contains('\n')) ==> request_line(request) == Err::<Seq<char>, Seq<char>>(
            "path contains a tab or newline"@,
        ),
        valid_utf8(request.path) && !decode_utf8(request.path).contains('\t') && !decode_utf8(
            request.path,
        ).contains('\n') ==> request_line(request) == Ok::<Seq<char>, Seq<char>>(
            "open\t"@ + decode_utf8(request.path) + "\t"@ + (match request.line {
                Some(n) => decimal(n as nat),
                None => Seq::empty(),
            }) + "\n"@,
        ),
        command_line(CommandView::Open(request)) == request_line(request),
        command_line(CommandView::Quit) == Ok::<Seq<char>, Seq<char>>("quit\n"@),
{
}

/// A line that is `open`, a path and a number with tabs between them asks to
/// show that path at that line; without the number, at none; and with anything
/// else in its place it is not understood.
pub proof fn a_request_is_read_from_its_fields(path: Seq<char>, field: Seq<char>)
    requires
        path.len() > 0,
        !path.contains('\t'),
        !field.contains('\t'),
    ensures
        ({
            let line = "open\t"@ + path + "\t"@ + field + "\n"@;
            &&& field.len() == 0 ==> request_in(line) == Ok::<RequestView, Seq<char>>(
                RequestView { path: encode_utf8(path), line: None },
            )
            &&& field.len() > 0 ==> match number(field, u32::MAX as nat) {
                Some(n) => request_in(line) matches Ok(request) && request.path == encode_utf8(path)
                    && request.line is Some && request.line->0 == n,
                None => request_in(line) == Err::<RequestView, Seq<char>>("bad line number"@),
            }
        }),
{
    lemma_literals();
    let open = seq!['o', 'p', 'e', 'n'];
    let line = "open\t"@ + path + "\t"@ + field + "\n"@;
    let body = line.drop_last();
    assert(body == open.push('\t') + (path.push('\t') + field));
    lemma_first_piece(open, '\t', path.push('\t') + field);
    lemma_first_piece(path, '\t', field);
    lemma_one_piece(field, '\t');
    assert(pieces(body, '\t') == seq![open, path, field]);
}

/// A line that does not end in a newline, or whose fields are not `open`, a
/// path and one more, is no request, and that is why. What is read of any other
/// is its fields.
pub proof fn only_requests_are_read_as_such(line: Seq<char>)
    ensures
        line.len() == 0 || line.last() != '\n' ==> request_in(line) == Err::<
            RequestView,
            Seq<char>,
        >("missing newline"@),
        line.len() > 0 && line.last() == '\n' ==> {
            let fields = pieces(line.drop_last(), '\t');
            &&& fields.len() != 3 || fields[0] != "open"@ || fields[1].len() == 0 ==> request_in(
                line,
            ) == Err::<RequestView, Seq<char>>("expected open<TAB>path<TAB>line"@)
            &&& request_in(line) matches Ok(request) ==> fields.len() == 3 && fields[0] == "open"@
                && request.path == encode_utf8(fields[1]) && (request.line is None <==> fields[2].len()
                == 0) && (request.line matches Some(n) ==> number(fields[2], u32::MAX as nat)
                == Some(n as nat))
        },
        line == "quit\n"@ ==> command_in(line) == Ok::<CommandView, Seq<char>>(CommandView::Quit),
        line != "quit\n"@ ==> match request_in(line) {
            Ok(request) => command_in(line) == Ok::<CommandView, Seq<char>>(
                CommandView::Open(request),
            ),
            Err(reason) => command_in(line) == Err::<CommandView, Seq<char>>(reason),
        },
{
}

/// A reply travels as its word and what it says, with tabs between them and a
/// newline at the end. Only the tabs and newlines of a reason become spaces.
pub proof fn a_reply_travels_as_its_fields(url: Seq<char>, clients: usize, reason: Seq<char>)
    ensures
        reply_line(ReplyView::Accepted { url, clients }) == "ok\t"@ + url + "\t"@ + decimal(
            clients as nat,
        ) + "\n"@,
        reply_line(ReplyView::Refused(reason)) == "err\t"@ + on_one_line(reason) + "\n"@,
        reply_line(ReplyView::Bye) == "bye\n"@,
        on_one_line(reason).len() == reason.len(),
        forall|i: int|
            0 <= i < reason.len() ==> #[trigger] on_one_line(reason)[i] == (if reason[i] == '\t'
                || reason[i] == '\n' {
                ' '
            } else {
                reason[i]
            }),
        on_the_wire(ReplyView::Refused(reason)) == ReplyView::Refused(on_one_line(reason)),
        on_the_wire(ReplyView::Accepted { url, clients }) == (ReplyView::Accepted { url, clients }),
        on_the_wire(ReplyView::Bye) is Bye,
{
}

/// A reply is read from the line that carries it: a URL without a tab and a
/// count, any reason, or a goodbye. A count that is none is not understood.
pub proof fn a_reply_is_read_from_its_fields(url: Seq<char>, count: Seq<char>, reason: Seq<char>)
    requires
        !url.contains('\t'),
    ensures
        match number(count, usize::MAX as nat) {
            Some(n) => reply_in("ok\t"@ + url + "\t"@ + count + "\n"@) matches Ok(
                ReplyView::Accepted { url: said, clients },
            ) && said == url && clients == n,
            None => reply_in("ok\t"@ + url + "\t"@ + count + "\n"@) == Err::<
                ReplyView,
                Seq<char>,
            >("bad client count"@),
        },
        reply_in("err\t"@ + reason + "\n"@) == Ok::<ReplyView, Seq<char>>(
            ReplyView::Refused(reason),
        ),
        reply_in("bye\n"@) == Ok::<ReplyView, Seq<char>>(ReplyView::Bye),
{
    lemma_literals();
    let ok = seq!['o', 'k'];
    let err = seq!['e', 'r', 'r'];
    let accepted = "ok\t"@ + url + "\t"@ + count + "\n"@;
    let refused = "err\t"@ + reason + "\n"@;
    assert(accepted.drop_last() == ok.push('\t') + (url.push('\t') + count));
    assert(refused.drop_last() == err.push('\t') + reason);
    assert("bye\n"@.drop_last() == "bye"@);
    assert(accepted.drop_last()[0] == 'o' && refused.drop_last()[0] == 'e' && "bye"@[0] == 'b');
    lemma_split_once(ok, '\t', url.push('\t') + count);
    lemma_split_once(url, '\t', count);
    lemma_split_once(err, '\t', reason);
    assert(err[0] == 'e' && "ok"@[0] == 'o');
}

/// Any other line is no reply, and it is said why.
pub proof fn only_replies_are_read_as_such(line: Seq<char>)
    ensures
        line.len() == 0 || line.last() != '\n' ==> reply_in(line) == Err::<ReplyView, Seq<char>>(
            "missing newline"@,
        ),
        line.len() > 0 && line.last() == '\n' && line.drop_last() != "bye"@ && split_once(
            line.drop_last(),
            '\t',
        ) is None ==> reply_in(line) == Err::<ReplyView, Seq<char>>("bad reply"@),
        line.len() > 0 && line.last() == '\n' && line.drop_last() != "bye"@ ==> (split_once(
            line.drop_last(),
            '\t',
        ) matches Some((verb, rest)) ==> {
            &&& verb != "ok"@ && verb != "err"@ ==> reply_in(line) == Err::<ReplyView, Seq<char>>(
                "bad reply"@,
            )
            &&& verb == "ok"@ && split_once(rest, '\t') is None ==> reply_in(line) == Err::<
                ReplyView,
                Seq<char>,
            >("bad reply"@)
        }),
{
    lemma_literals();
    assert("ok"@[0] == 'o' && "err"@[0] == 'e');
}

/// The socket is in the runtime directory where that is absolute, and else in
/// the user's own directory for temporary files.
pub proof fn the_socket_is_in_a_private_place(dir: Seq<u8>, temp_dir: Seq<u8>, uid: u32)
    ensures
        has_root(dir) ==> socket_location(Some(dir), temp_dir, uid) == join(
            dir,
            encode_utf8("mdpreview.sock"@),
        ),
        !has_root(dir) ==> socket_location(Some(dir), temp_dir, uid) == socket_location(
            None,
            temp_dir,
            uid,
        ),
        socket_location(None, temp_dir, uid) == join(
            join(temp_dir, encode_utf8("mdpreview-"@ + decimal(uid as nat))),
            encode_utf8("mdpreview.sock"@),
        ),
{
}

/// Each failure has its words and its consequence.
pub proof fn each_failure_has_its_words(
    kind: Failure,
    text: Seq<char>,
    is_dir: bool,
    owner: u32,
    mode: u32,
    uid: u32,
)
    ensures
        send_error_text(SendErrorView::NoServer) == "no preview server is running"@,
        send_error_text(SendErrorView::Timeout) == "the preview server did not respond"@,
        send_error_text(SendErrorView::Protocol(text)) == "control protocol error: "@ + text,
        send_error_text(SendErrorView::Io(text)) == "control socket error: "@ + text,
        send_error_text(SendErrorView::Unusable(text)) == "control socket is unusable: "@ + text,
        kind is NotFound || kind is ConnectionRefused ==> connect_failure(kind, text) is NoServer,
        kind is InvalidInput ==> connect_failure(kind, text) == SendErrorView::Unusable(text),
        kind is AlreadyExists || kind is WouldBlock || kind is TimedOut || kind is Other
            ==> connect_failure(kind, text) == SendErrorView::Io(text),
        kind is WouldBlock || kind is TimedOut ==> transfer_failure(kind, text) is Timeout,
        !(kind is WouldBlock || kind is TimedOut) ==> transfer_failure(kind, text)
            == SendErrorView::Io(text),
        !is_dir ==> dir_problem(is_dir, owner, mode, uid) == Some("is not a directory"@),
        is_dir && owner != uid ==> dir_problem(is_dir, owner, mode, uid) == Some(
            "is owned by another user"@,
        ),
        is_dir && owner == uid && mode % 64 != 0 ==> dir_problem(is_dir, owner, mode, uid) == Some(
            "is accessible to other users"@,
        ),
        is_dir && owner == uid && mode % 64 == 0 ==> dir_problem(is_dir, owner, mode, uid) is None,
{
    assert(mode & 0o077 == mode % 64) by (bit_vector);
}

/// What travels says what it holds.
pub proof fn messages_say_what_they_hold(
    request: Request,
    reply: Reply,
    command: Command,
    err: SendError,
)
    ensures
        request@.path == request.path@,
        request@.line == request.line,
        reply matches Reply::Accepted { url, clients } ==> reply@ == (ReplyView::Accepted {
            url: url@,
            clients,
        }),
        reply matches Reply::Refused(reason) ==> reply@ == ReplyView::Refused(reason@),
        reply is Bye <==> reply@ is Bye,
        command matches Command::Open(request) ==> command@ == CommandView::Open(request@),
        command is Quit <==> command@ is Quit,
        err is NoServer <==> err@ is NoServer,
        err is Timeout <==> err@ is Timeout,
        err matches SendError::Protocol(problem) ==> err@ == SendErrorView::Protocol(problem.0@),
        err matches SendError::Io(text) ==> err@ == SendErrorView::Io(text@),
        err matches SendError::Unusable(text) ==> err@ == SendErrorView::Unusable(text@),
        is_sendable(request@) <==> valid_utf8(request.path@) && request.path@.len() > 0
            && !decode_utf8(request.path@).contains('\t') && !decode_utf8(request.path@).contains(
            '\n',
        ),
{
}

} // verus!
