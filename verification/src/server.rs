//! The HTTP server's decisions: what a request asks for, and how it is
//! answered.
//!
//! Routes:
//!   GET /                       preview shell (HTML)
//!   GET /content                rendered Markdown fragment; the
//!                               `X-Mdpreviewer-File` header carries the
//!                               percent-encoded file name
//!   GET /events                 Server-Sent Events
//!   POST /open                  follow a relative Markdown link: the body is
//!                               the link as written, and the document it
//!                               names becomes the current one
//!   GET /file?path=<link>       an image the document refers to by a
//!                               relative path
//!   GET /assets/app.css         page styling
//!   GET /assets/app.js          client (mermaid, live reload, scroll sync)
//!   GET /assets/github-markdown.css   GitHub Markdown theme
//!   GET /assets/mermaid.min.js        mermaid.js

use vstd::prelude::*;
use vstd::string::*;
use vstd::utf8::*;

use crate::control::ControlSocket;
use crate::idle::IdleClock;
use crate::path::{
    extension, file_name, has_root, join, join_appends_the_name, lemma_names_are_names, names,
    parent, parent_drops_the_last_name, same_path, FilePath,
};
use crate::percent::{
    decoded, decoding_undoes_encoding, encoded, encoding_is_ascii, percent_decode, percent_encode,
};
use crate::render::{preview_html, render_markdown};
use crate::session::Followed;
use crate::text::{
    a_prefix_and_the_rest_make_the_text, halves_make_the_text, lemma_split_once, lossy_text, lower,
    pieces, same_bytes, same_text, split_at_char, split_once, split_text, strip_prefix, text_behind,
    texts, to_lower, utf8_text, utf8_text_lossy,
};

verus! {

/// The request header `POST /open` requires. A browser will not send a custom
/// header cross-origin without a CORS preflight, which this server never
/// grants, so another web page cannot switch the preview.
pub const LINK_HEADER: &'static str = "X-Mdpreviewer";

/// The longest link body `POST /open` reads.
pub const MAX_LINK_BYTES: usize = 4096;

/// The pause after each ping that finds out which tabs have closed, in
/// milliseconds; plenty for a loopback peer's reset to arrive.
pub const PROBE_GAP_MS: u64 = 25;

/// How the server runs.
#[derive(Debug)]
pub struct Config {
    /// The preview's base URL, reported back to `open` requests.
    pub url: String,
    /// Exit this long after the last browser tab closes, in nanoseconds.
    /// `None` never exits.
    pub idle_grace: Option<u128>,
    /// Where to accept control requests. `None` runs a standalone server.
    pub control: Option<ControlSocket>,
    /// Whether a control `quit` ends the process once it has removed the
    /// socket.
    pub exit_on_quit: bool,
}

/// The path and inode of a control socket that may be missing.
pub open spec fn socket_view(socket: Option<ControlSocket>) -> Option<(Seq<u8>, u64)> {
    match socket {
        Some(socket) => Some((socket.path@, socket.inode)),
        None => None,
    }
}

/// What a [`Config`] says.
#[verifier::ext_equal]
pub struct ConfigView {
    pub url: Seq<char>,
    pub idle_grace: Option<u128>,
    pub control: Option<(Seq<u8>, u64)>,
    pub exit_on_quit: bool,
}

impl View for Config {
    type V = ConfigView;

    open spec fn view(&self) -> ConfigView {
        ConfigView {
            url: self.url@,
            idle_grace: self.idle_grace,
            control: socket_view(self.control),
            exit_on_quit: self.exit_on_quit,
        }
    }
}

/// The clock that the server shuts itself down by, if it ever does.
pub fn monitor(config: &Config) -> (clock: Option<IdleClock>)
    ensures
        clock is Some <==> config.idle_grace is Some,
        clock matches Some(clock) ==> clock.grace() == config.idle_grace->0 && clock.idle() == 0,
{
    match config.idle_grace {
        Some(grace) => Some(IdleClock::new(grace)),
        None => None,
    }
}

/// A file that comes with the program.
#[derive(Debug, Clone, Copy, PartialEq, Eq, Structural)]
pub enum Asset {
    Shell,
    AppCss,
    AppJs,
    GithubMarkdownCss,
    MermaidJs,
}

/// The content type of an asset.
pub open spec fn asset_type(asset: Asset) -> Seq<char> {
    match asset {
        Asset::Shell => "text/html; charset=utf-8"@,
        Asset::AppCss | Asset::GithubMarkdownCss => "text/css; charset=utf-8"@,
        Asset::AppJs | Asset::MermaidJs => "text/javascript; charset=utf-8"@,
    }
}

impl Asset {
    /// The content type to serve the asset under.
    pub fn content_type(self) -> (text: &'static str)
        ensures
            text@ == asset_type(self),
            self is Shell ==> text@ == "text/html; charset=utf-8"@,
            self is AppCss || self is GithubMarkdownCss ==> text@ == "text/css; charset=utf-8"@,
            self is AppJs || self is MermaidJs ==> text@ == "text/javascript; charset=utf-8"@,
    {
        match self {
            Asset::Shell => "text/html; charset=utf-8",
            Asset::AppCss | Asset::GithubMarkdownCss => "text/css; charset=utf-8",
            Asset::AppJs | Asset::MermaidJs => "text/javascript; charset=utf-8",
        }
    }
}

/// What a request is for.
#[derive(Debug, Clone, PartialEq, Eq)]
pub enum Route {
    Asset(Asset),
    Content,
    Events,
    /// Follow a link.
    Open,
    /// An image, with the query that names it.
    File(String),
    NotFound,
}

/// What a [`Route`] says.
#[verifier::ext_equal]
pub enum RouteView {
    Asset(Asset),
    Content,
    Events,
    Open,
    File(Seq<char>),
    NotFound,
}

impl View for Route {
    type V = RouteView;

    open spec fn view(&self) -> RouteView {
        match self {
            Route::Asset(asset) => RouteView::Asset(*asset),
            Route::Content => RouteView::Content,
            Route::Events => RouteView::Events,
            Route::Open => RouteView::Open,
            Route::File(query) => RouteView::File(query@),
            Route::NotFound => RouteView::NotFound,
        }
    }
}

/// The path and the query of a URL: what is before and behind its first `?`.
pub open spec fn url_parts(url: Seq<char>) -> (Seq<char>, Seq<char>) {
    match split_once(url, '?') {
        Some(parts) => parts,
        None => (url, ""@),
    }
}

/// What a request for `url` is for.
pub open spec fn route_of(url: Seq<char>) -> RouteView {
    let (path, query) = url_parts(url);
    if path == "/"@ {
        RouteView::Asset(Asset::Shell)
    } else if path == "/content"@ {
        RouteView::Content
    } else if path == "/events"@ {
        RouteView::Events
    } else if path == "/assets/app.css"@ {
        RouteView::Asset(Asset::AppCss)
    } else if path == "/assets/app.js"@ {
        RouteView::Asset(Asset::AppJs)
    } else if path == "/assets/github-markdown.css"@ {
        RouteView::Asset(Asset::GithubMarkdownCss)
    } else if path == "/assets/mermaid.min.js"@ {
        RouteView::Asset(Asset::MermaidJs)
    } else if path == "/open"@ {
        RouteView::Open
    } else if path == "/file"@ {
        RouteView::File(query)
    } else {
        RouteView::NotFound
    }
}

/// Decide what a request for `url` is for.
pub fn route(url: &str) -> (route: Route)
    ensures
        route@ == route_of(url@),
{
    let (path, query) = match split_at_char(url, '?') {
        Some(parts) => parts,
        None => (url, ""),
    };
    if same_text(path, "/") {
        Route::Asset(Asset::Shell)
    } else if same_text(path, "/content") {
        Route::Content
    } else if same_text(path, "/events") {
        Route::Events
    } else if same_text(path, "/assets/app.css") {
        Route::Asset(Asset::AppCss)
    } else if same_text(path, "/assets/app.js") {
        Route::Asset(Asset::AppJs)
    } else if same_text(path, "/assets/github-markdown.css") {
        Route::Asset(Asset::GithubMarkdownCss)
    } else if same_text(path, "/assets/mermaid.min.js") {
        Route::Asset(Asset::MermaidJs)
    } else if same_text(path, "/open") {
        Route::Open
    } else if same_text(path, "/file") {
        Route::File(query.to_owned())
    } else {
        Route::NotFound
    }
}

/// A status code and a short plain-text reason.
#[derive(Debug, Clone, PartialEq, Eq)]
pub struct Status {
    pub code: u16,
    pub reason: &'static str,
}

/// Whether a status has this code and reason.
pub open spec fn is_status(status: Status, code: u16, reason: Seq<char>) -> bool {
    status.code == code && status.reason@ == reason
}

/// What is answered where nothing is found.
pub fn not_found() -> (status: Status)
    ensures
        is_status(status, 404, "not found"@),
        status.code == 404,
        status.reason@ == "not found"@,
{
    Status { code: 404, reason: "not found" }
}

/// `text` with the ASCII letters in lower case.
pub open spec fn ascii_lower(text: Seq<char>) -> Seq<char> {
    text.map_values(
        |ch: char|
            if 'A' <= ch <= 'Z' {
                (ch as u8 + 32) as char
            } else {
                ch
            },
    )
}

/// Calls `tiny_http::HeaderField::equiv`: a header field, which only ASCII text
/// can be, has a name where they are equal but for the case of ASCII letters.
#[verifier::external_body]
fn field_is(field: &str, name: &'static str) -> (same: bool)
    requires
        is_ascii_chars(name@),
    ensures
        same == (ascii_lower(field@) == ascii_lower(name@)),
{
    match tiny_http::HeaderField::from_bytes(field.as_bytes()) {
        Ok(field) => field.equiv(name),
        Err(_) => false,
    }
}

/// Whether the header `name` is among the header `fields`.
pub open spec fn has_field(fields: Seq<Seq<char>>, name: Seq<char>) -> bool {
    exists|i: int| 0 <= i < fields.len() && ascii_lower(#[trigger] fields[i]) == ascii_lower(name)
}

/// Check that a request may follow a link: it is a POST with the header that
/// only the preview page sends. `fields` are the names of its headers. What is
/// returned is the refusal.
pub fn refuse_link(method: &str, fields: &Vec<String>) -> (refusal: Option<Status>)
    ensures
        method@ != "POST"@ ==> refusal is Some && is_status(refusal->0, 405, "use POST"@),
        method@ == "POST"@ && !has_field(texts(fields@), LINK_HEADER@) ==> refusal is Some
            && is_status(refusal->0, 403, "missing X-Mdpreviewer header"@),
        method@ == "POST"@ && has_field(texts(fields@), LINK_HEADER@) ==> refusal is None,
        refusal is None <==> method@ == "POST"@ && exists|i: int|
            0 <= i < fields@.len() && ascii_lower((#[trigger] fields@[i])@) == ascii_lower(
                "X-Mdpreviewer"@,
            ),
        refusal matches Some(status) ==> status.code == (if method@ == "POST"@ {
            403u16
        } else {
            405u16
        }),
{
    if !same_text(method, "POST") {
        return Some(Status { code: 405, reason: "use POST" });
    }
    proof {
        reveal_strlit("X-Mdpreviewer");
        assert(is_ascii_chars(LINK_HEADER@));
    }
    let mut i: usize = 0;
    while i < fields.len()
        invariant
            i <= fields@.len(),
            method@ == "POST"@,
            is_ascii_chars(LINK_HEADER@),
            forall|j: int|
                0 <= j < i ==> ascii_lower(#[trigger] texts(fields@)[j]) != ascii_lower(
                    LINK_HEADER@,
                ),
        decreases fields@.len() - i,
    {
        assert(texts(fields@)[i as int] == fields@[i as int]@);
        if field_is(fields[i].as_str(), LINK_HEADER) {
            return None;
        }
        i += 1;
    }
    assert forall|j: int| 0 <= j < fields@.len() implies ascii_lower((#[trigger] fields@[j])@)
        != ascii_lower("X-Mdpreviewer"@) by {
        assert(texts(fields@)[j] == fields@[j]@);
    }
    Some(Status { code: 403, reason: "missing X-Mdpreviewer header" })
}

/// As much of a link body as is read.
pub open spec fn read_part(body: Seq<u8>) -> Seq<u8> {
    if body.len() > MAX_LINK_BYTES {
        body.take(MAX_LINK_BYTES as int)
    } else {
        body
    }
}

/// The link in the body of a request, of which no more than
/// [`MAX_LINK_BYTES`] are read.
pub fn link_text(body: Vec<u8>) -> (link: Result<String, Status>)
    ensures
        match link {
            Ok(link) => valid_utf8(read_part(body@)) && link@ == decode_utf8(read_part(body@)),
            Err(status) => !valid_utf8(read_part(body@)) && is_status(
                status,
                400,
                "the link is not UTF-8"@,
            ),
        },
        body@.len() <= 4096 ==> (link is Ok <==> valid_utf8(body@)),
        body@.len() <= 4096 && link is Ok ==> link->Ok_0@ == decode_utf8(body@),
        body@.len() > 4096 ==> (link is Ok <==> valid_utf8(body@.take(4096))),
        body@.len() > 4096 && link is Ok ==> link->Ok_0@ == decode_utf8(body@.take(4096)),
{
    let mut part = body;
    if part.len() > MAX_LINK_BYTES {
        part.truncate(MAX_LINK_BYTES);
    }
    assert(part@ == read_part(body@));
    match utf8_text(part) {
        Some(link) => Ok(link),
        None => Err(Status { code: 400, reason: "the link is not UTF-8" }),
    }
}

/// Where a link in the document `doc` leads, before symlinks and `..` are
/// resolved: it is relative to the document's directory. An empty or absolute
/// link leads nowhere, nor does one that stands for no text.
pub open spec fn link_path(doc: Seq<u8>, link: Seq<char>) -> Option<Seq<u8>> {
    match (decoded(link), parent(doc)) {
        (Some(text), Some(dir)) => if text.len() == 0 || has_root(encode_utf8(text)) {
            None
        } else {
            Some(join(dir, encode_utf8(text)))
        },
        _ => None,
    }
}

/// Where `link`, a relative reference as written in `doc` (so possibly
/// percent-encoded), leads. It remains to resolve symlinks and `..`, and to see
/// whether it is a file.
pub fn link_target(doc: &FilePath, link: &str) -> (target: Option<FilePath>)
    ensures
        target is Some <==> link_path(doc@, link@) is Some,
        target is Some ==> link_path(doc@, link@) == Some(target->0@),
{
    let text = match percent_decode(link) {
        Some(text) => text,
        None => return None,
    };
    let relative = FilePath::from_text(text.as_str());
    if text.as_str().unicode_len() == 0 || relative.has_root() {
        return None;
    }
    match doc.parent() {
        Some(dir) => Some(dir.join(&relative)),
        None => None,
    }
}

/// The value of the first of `pairs` that starts with `key`.
pub open spec fn first_value(pairs: Seq<Seq<char>>, key: Seq<char>) -> Option<Seq<char>>
    decreases pairs.len(),
{
    if pairs.len() == 0 {
        None
    } else {
        match strip_prefix(pairs[0], key) {
            Some(value) => Some(value),
            None => first_value(pairs.skip(1), key),
        }
    }
}

/// The link that a `/file` query carries.
pub open spec fn query_link(query: Seq<char>) -> Option<Seq<char>> {
    match first_value(pieces(query, '&'), "path="@) {
        Some(value) => decoded(value),
        None => None,
    }
}

/// Where a `/file` query leads in the document `doc`.
pub open spec fn file_path(doc: Seq<u8>, query: Seq<char>) -> Option<Seq<u8>> {
    match query_link(query) {
        Some(link) => link_path(doc, link),
        None => None,
    }
}

/// The link that a `/file` query carries, once its own encoding is undone.
pub fn file_link(query: &str) -> (link: Option<String>)
    ensures
        link is Some <==> query_link(query@) is Some,
        link is Some ==> query_link(query@) == Some(link->0@),
{
    let pairs = split_text(query, '&');
    let ghost all = texts(pairs@);
    let mut i: usize = 0;
    assert(all.skip(0) == all);
    while i < pairs.len()
        invariant
            i <= pairs@.len(),
            all == texts(pairs@),
            all == pieces(query@, '&'),
            first_value(all, "path="@) == first_value(all.skip(i as int), "path="@),
        decreases pairs@.len() - i,
    {
        proof {
            assert(all.skip(i as int)[0] == pairs@[i as int]@);
            assert(all.skip(i as int).skip(1) == all.skip(i + 1));
        }
        if let Some(value) = text_behind(pairs[i].as_str(), "path=") {
            return percent_decode(value);
        }
        i += 1;
    }
    None
}

/// Where a `/file` query leads in `doc`; see [`link_target`].
pub fn file_target(doc: &FilePath, query: &str) -> (target: Option<FilePath>)
    ensures
        target is Some <==> file_path(doc@, query@) is Some,
        target is Some ==> file_path(doc@, query@) == Some(target->0@),
{
    match file_link(query) {
        Some(link) => link_target(doc, link.as_str()),
        None => None,
    }
}

/// The content type to serve an image with the extension `ext` under.
pub open spec fn type_for(ext: Seq<u8>) -> Option<Seq<char>> {
    if ext == encode_utf8("png"@) {
        Some("image/png"@)
    } else if ext == encode_utf8("jpg"@) || ext == encode_utf8("jpeg"@) {
        Some("image/jpeg"@)
    } else if ext == encode_utf8("gif"@) {
        Some("image/gif"@)
    } else if ext == encode_utf8("svg"@) {
        Some("image/svg+xml"@)
    } else if ext == encode_utf8("webp"@) {
        Some("image/webp"@)
    } else if ext == encode_utf8("avif"@) {
        Some("image/avif"@)
    } else if ext == encode_utf8("bmp"@) {
        Some("image/bmp"@)
    } else if ext == encode_utf8("ico"@) {
        Some("image/x-icon"@)
    } else {
        None
    }
}

/// The content type to serve the file at `path` under, if it is an image.
pub open spec fn served_type(path: Seq<u8>) -> Option<Seq<char>> {
    match extension(path) {
        Some(ext) => type_for(lower(ext)),
        None => None,
    }
}

/// The content type to serve an image under, or `None` for anything that is
/// not an image.
pub fn image_type(path: &FilePath) -> (content_type: Option<&'static str>)
    ensures
        content_type is Some <==> served_type(path@) is Some,
        content_type is Some ==> served_type(path@) == Some(content_type->0@),
{
    let ext = match path.extension() {
        Some(ext) => to_lower(ext.as_slice()),
        None => return None,
    };
    let ext = ext.as_slice();
    if same_bytes(ext, "png".as_bytes()) {
        Some("image/png")
    } else if same_bytes(ext, "jpg".as_bytes()) || same_bytes(ext, "jpeg".as_bytes()) {
        Some("image/jpeg")
    } else if same_bytes(ext, "gif".as_bytes()) {
        Some("image/gif")
    } else if same_bytes(ext, "svg".as_bytes()) {
        Some("image/svg+xml")
    } else if same_bytes(ext, "webp".as_bytes()) {
        Some("image/webp")
    } else if same_bytes(ext, "avif".as_bytes()) {
        Some("image/avif")
    } else if same_bytes(ext, "bmp".as_bytes()) {
        Some("image/bmp")
    } else if same_bytes(ext, "ico".as_bytes()) {
        Some("image/x-icon")
    } else {
        None
    }
}

/// A header: its name and its value.
#[derive(Debug, Clone, PartialEq, Eq)]
pub struct HeaderLine {
    pub name: &'static str,
    pub value: String,
}

/// The view of a list of headers.
pub open spec fn header_lines(list: Seq<HeaderLine>) -> Seq<(Seq<char>, Seq<char>)> {
    list.map_values(|line: HeaderLine| (line.name@, line.value@))
}

/// A header with this name and value.
pub(crate) fn header_line(name: &'static str, value: &str) -> (line: HeaderLine)
    ensures
        line.name@ == name@,
        line.value@ == value@,
{
    HeaderLine { name, value: value.to_owned() }
}

/// The headers that an image is served with. `sandbox` keeps an SVG opened on
/// its own from running script on this origin. The browser is to ask again
/// each time, since an image may be replaced.
pub fn file_headers(content_type: &str) -> (lines: Vec<HeaderLine>)
    ensures
        header_lines(lines@) == seq![
            ("Content-Type"@, content_type@),
            ("Content-Security-Policy"@, "sandbox"@),
            ("X-Content-Type-Options"@, "nosniff"@),
            ("Cache-Control"@, "no-cache"@),
        ],
{
    let mut lines: Vec<HeaderLine> = Vec::new();
    lines.push(header_line("Content-Type", content_type));
    lines.push(header_line("Content-Security-Policy", "sandbox"));
    lines.push(header_line("X-Content-Type-Options", "nosniff"));
    lines.push(header_line("Cache-Control", "no-cache"));
    assert(header_lines(lines@) == seq![
        ("Content-Type"@, content_type@),
        ("Content-Security-Policy"@, "sandbox"@),
        ("X-Content-Type-Options"@, "nosniff"@),
        ("Cache-Control"@, "no-cache"@),
    ]);
    lines
}

/// How a request to follow a link is answered.
pub fn link_status(outcome: Followed) -> (status: Status)
    ensures
        match outcome {
            Followed::Missing => is_status(status, 404, "no such file"@),
            Followed::NotMarkdown => is_status(status, 400, "not a Markdown file"@),
            Followed::Current => is_status(status, 204, ""@),
        },
        status.code == (match outcome {
            Followed::Missing => 404u16,
            Followed::NotMarkdown => 400u16,
            Followed::Current => 204u16,
        }),
{
    match outcome {
        Followed::Missing => Status { code: 404, reason: "no such file" },
        Followed::NotMarkdown => Status { code: 400, reason: "not a Markdown file" },
        Followed::Current => Status { code: 204, reason: "" },
    }
}

/// The page for a document, given what came of reading it. A read error is
/// reported inline, so that the browser shows the problem rather than a blank
/// page.
pub open spec fn content_html(path: Seq<u8>, read: Result<Seq<char>, Seq<char>>) -> Seq<char> {
    match read {
        Ok(markdown) => preview_html(markdown),
        Err(problem) => "<h1>mdpreviewer</h1><p>Could not read <code>"@ + lossy_text(path)
            + "</code>: "@ + problem + "</p>"@,
    }
}

/// The page for the document at `path`, given what came of reading it.
pub fn content_page(path: &FilePath, read: Result<String, String>) -> (page: String)
    ensures
        page@ == content_html(
            path@,
            match read {
                Ok(markdown) => Ok(markdown@),
                Err(problem) => Err(problem@),
            },
        ),
        read matches Ok(markdown) ==> page@ == preview_html(markdown@),
        read matches Err(problem) ==> page@ == "<h1>mdpreviewer</h1><p>Could not read <code>"@
            + lossy_text(path@) + "</code>: "@ + problem@ + "</p>"@,
{
    match read {
        Ok(markdown) => render_markdown(markdown.as_str()),
        Err(problem) => {
            let mut page = String::from_str("<h1>mdpreviewer</h1><p>Could not read <code>");
            page.append(path.display().as_str());
            page.append("</code>: ");
            page.append(problem.as_str());
            page.append("</p>");
            page
        },
    }
}

/// The file name of a document, for the page title.
pub open spec fn title_of(path: Seq<u8>) -> Seq<char> {
    match file_name(path) {
        Some(name) => lossy_text(name),
        None => ""@,
    }
}

/// The headers that a document is served with.
pub fn content_headers(path: &FilePath) -> (lines: Vec<HeaderLine>)
    ensures
        header_lines(lines@) == seq![
            ("Content-Type"@, "text/html; charset=utf-8"@),
            ("X-Mdpreviewer-File"@, encoded(title_of(path@))),
        ],
{
    let title = match path.file_name() {
        Some(name) => utf8_text_lossy(name.as_slice()),
        None => "".to_owned(),
    };
    let mut lines: Vec<HeaderLine> = Vec::new();
    lines.push(header_line("Content-Type", "text/html; charset=utf-8"));
    lines.push(HeaderLine { name: "X-Mdpreviewer-File", value: percent_encode(title.as_str()) });
    assert(header_lines(lines@) == seq![
        ("Content-Type"@, "text/html; charset=utf-8"@),
        ("X-Mdpreviewer-File"@, encoded(title_of(path@))),
    ]);
    lines
}

/// How to go on counting the tabs that are connected.
#[derive(Debug, Clone, Copy, PartialEq, Eq, Structural)]
pub enum Probe {
    /// Send a ping, pause, and look again.
    Ping,
    /// There are this many.
    Done(usize),
}

/// How to go on counting the connected tabs, with `sent` pings sent and
/// `active` tabs still taken for connected. A write to a closed peer succeeds
/// once (the peer answers with a reset) and fails the next time, so two pings a
/// moment apart make every closed tab drop out.
pub fn probe(sent: u8, active: usize) -> (next: Probe)
    ensures
        next == if sent < 2 && active > 0 {
            Probe::Ping
        } else {
            Probe::Done(active)
        },
{
    if sent < 2 && active > 0 {
        Probe::Ping
    } else {
        Probe::Done(active)
    }
}

/// What the headers of a document say of its name is ASCII, and a client that
/// decodes it has the name.
pub proof fn the_title_header_carries_the_name(path: Seq<u8>)
    ensures
        is_ascii_chars(encoded(title_of(path))),
        decoded(encoded(title_of(path))) == Some(title_of(path)),
{
    encoding_is_ascii(title_of(path));
    decoding_undoes_encoding(title_of(path));
}

/// A link leads below the directory of the document that holds it, as far as
/// its bytes go: it never takes the place of the directory.
pub proof fn a_link_starts_in_the_directory(doc: Seq<u8>, link: Seq<char>)
    ensures
        link_path(doc, link) matches Some(path) ==> parent(doc) is Some && strip_prefix(
            path,
            parent(doc)->0,
        ) is Some,
{
    if let Some(path) = link_path(doc, link) {
        let dir = parent(doc)->0;
        assert(path.take(dir.len() as int) == dir);
    }
}

/// The document's own name, percent-encoded, is a link to the document: it
/// leads to the same path. This holds of a document whose path ends in a file
/// name that is UTF-8.
pub proof fn a_document_links_to_itself(doc: Seq<u8>)
    requires
        file_name(doc) is Some,
        valid_utf8(file_name(doc)->0),
    ensures
        link_path(doc, encoded(decode_utf8(file_name(doc)->0))) matches Some(path) && same_path(
            path,
            doc,
        ),
{
    let name = file_name(doc)->0;
    let text = decode_utf8(name);
    parent_drops_the_last_name(doc);
    let dir = parent(doc)->0;
    decoding_undoes_encoding(text);
    decode_utf8_encode_utf8(name);
    lemma_names_are_names(doc);
    assert(names(doc).contains(name));
    assert(name.len() > 0);
    assert(name.contains(name[0]));
    assert(text.len() > 0);
    join_appends_the_name(dir, name);
    assert(names(doc).drop_last().push(name) == names(doc));
}

/// The path of a URL, up to its query, decides what a request is for; the query
/// counts only for a file. Any other path is not found.
pub proof fn the_path_decides_the_route(path: Seq<char>, query: Seq<char>)
    requires
        !path.contains('?'),
    ensures
        ({
            let bare = route_of(path);
            let asked = route_of(path + seq!['?'] + query);
            &&& path == "/"@ ==> asked == bare && bare == RouteView::Asset(Asset::Shell)
            &&& path == "/content"@ ==> asked == bare && bare == RouteView::Content
            &&& path == "/events"@ ==> asked == bare && bare == RouteView::Events
            &&& path == "/assets/app.css"@ ==> asked == bare && bare == RouteView::Asset(
                Asset::AppCss,
            )
            &&& path == "/assets/app.js"@ ==> asked == bare && bare == RouteView::Asset(
                Asset::AppJs,
            )
            &&& path == "/assets/github-markdown.css"@ ==> asked == bare && bare
                == RouteView::Asset(Asset::GithubMarkdownCss)
            &&& path == "/assets/mermaid.min.js"@ ==> asked == bare && bare == RouteView::Asset(
                Asset::MermaidJs,
            )
            &&& path == "/open"@ ==> asked == bare && bare == RouteView::Open
            &&& path == "/file"@ ==> asked == RouteView::File(query) && bare == RouteView::File(
                Seq::empty(),
            )
            &&& path != "/"@ && path != "/content"@ && path != "/events"@ && path
                != "/assets/app.css"@ && path != "/assets/app.js"@ && path
                != "/assets/github-markdown.css"@ && path != "/assets/mermaid.min.js"@ && path
                != "/open"@ && path != "/file"@ ==> asked == bare && bare == RouteView::NotFound
        }),
{
    reveal_strlit("/");
    reveal_strlit("/content");
    reveal_strlit("/events");
    reveal_strlit("/assets/app.css");
    reveal_strlit("/assets/app.js");
    reveal_strlit("/assets/github-markdown.css");
    reveal_strlit("/assets/mermaid.min.js");
    reveal_strlit("/open");
    reveal_strlit("/file");
    reveal_strlit("");
    halves_make_the_text(path, '?');
    lemma_split_once(path, '?', query);
    assert(path + seq!['?'] + query == path.push('?') + query);
    assert(""@ == Seq::<char>::empty());
    if path == "/open"@ || path == "/file"@ {
        assert(path[1] == 'o' || path[1] == 'f');
    }
}

/// A header field has a name where they agree letter by letter but for the case
/// of ASCII letters. One such field is enough.
pub proof fn header_names_ignore_case(
    fields: Seq<Seq<char>>,
    i: int,
    name: Seq<char>,
)
    ensures
        ascii_lower(name).len() == name.len(),
        forall|k: int|
            0 <= k < name.len() ==> #[trigger] ascii_lower(name)[k] == (if 'A' <= name[k] <= 'Z' {
                (name[k] as u8 + 32) as char
            } else {
                name[k]
            }),
        0 <= i < fields.len() && ascii_lower(fields[i]) == ascii_lower(name) ==> has_field(
            fields,
            name,
        ),
        (forall|k: int|
            0 <= k < fields.len() ==> ascii_lower(#[trigger] fields[k]) != ascii_lower(name))
            ==> !has_field(fields, name),
{
}

/// As much of a body is read as 4096 bytes, and all of a shorter one.
pub proof fn a_short_body_is_read_whole(body: Seq<u8>)
    ensures
        body.len() <= 4096 ==> read_part(body) == body,
        body.len() > 4096 ==> read_part(body) == body.take(4096),
{
}

/// A link leads to what it says, decoded once, in the directory of the
/// document: it leads somewhere exactly if it stands for some text that is
/// neither empty nor rooted, and the document is in a directory.
pub proof fn a_link_is_relative_to_the_directory(doc: Seq<u8>, link: Seq<char>)
    ensures
        link_path(doc, link) is Some <==> decoded(link) is Some && decoded(link)->0.len() > 0
            && !has_root(encode_utf8(decoded(link)->0)) && parent(doc) is Some,
        link_path(doc, link) matches Some(path) ==> path == join(
            parent(doc)->0,
            encode_utf8(decoded(link)->0),
        ),
{
}

/// A query carries the link behind the first `path=` among its pairs, decoded.
/// One without such a pair carries none.
pub proof fn the_first_path_of_a_query_counts(query: Seq<char>, i: int, value: Seq<char>)
    ensures
        0 <= i < pieces(query, '&').len() && pieces(query, '&')[i] == "path="@ + value && (forall|
            k: int,
        |
            0 <= k < i ==> strip_prefix(#[trigger] pieces(query, '&')[k], "path="@) is None)
            ==> query_link(query) == decoded(value),
        (forall|k: int|
            0 <= k < pieces(query, '&').len() ==> strip_prefix(
                #[trigger] pieces(query, '&')[k],
                "path="@,
            ) is None) ==> query_link(query) is None,
{
    let pairs = pieces(query, '&');
    let key = "path="@;
    if 0 <= i < pairs.len() && pairs[i] == key + value && (forall|k: int|
        0 <= k < i ==> strip_prefix(#[trigger] pairs[k], key) is None) {
        lemma_first_value(pairs, key, i);
        a_prefix_and_the_rest_make_the_text(pairs[i], key, value);
    }
    if forall|k: int| 0 <= k < pairs.len() ==> strip_prefix(#[trigger] pairs[k], key) is None {
        lemma_first_value(pairs, key, pairs.len() as int);
    }
}

/// The pairs before the first that starts with the key do not matter.
proof fn lemma_first_value(pairs: Seq<Seq<char>>, key: Seq<char>, i: int)
    requires
        0 <= i <= pairs.len(),
        forall|k: int| 0 <= k < i ==> strip_prefix(#[trigger] pairs[k], key) is None,
    ensures
        i < pairs.len() && strip_prefix(pairs[i], key) is Some ==> first_value(pairs, key)
            == strip_prefix(pairs[i], key),
        i == pairs.len() ==> first_value(pairs, key) is None,
    decreases pairs.len(),
{
    if i > 0 {
        assert(strip_prefix(pairs[0], key) is None);
        assert forall|k: int| 0 <= k < i - 1 implies strip_prefix(
            #[trigger] pairs.skip(1)[k],
            key,
        ) is None by {
            assert(pairs.skip(1)[k] == pairs[k + 1]);
        }
        lemma_first_value(pairs.skip(1), key, i - 1);
    }
}

/// A query leads where the link that it carries leads.
pub proof fn a_query_leads_where_its_link_leads(doc: Seq<u8>, query: Seq<char>)
    ensures
        query_link(query) matches Some(link) ==> file_path(doc, query) == link_path(doc, link),
        query_link(query) is None ==> file_path(doc, query) is None,
{
}

/// An image is served under the type that belongs to its extension, in either
/// case. A file with any other extension, or with none, is not served.
pub proof fn an_image_type_belongs_to_an_extension(path: Seq<u8>)
    ensures
        extension(path) is None ==> served_type(path) is None,
        extension(path) matches Some(ext) ==> {
            let ext = lower(ext);
            &&& ext == encode_utf8("png"@) ==> served_type(path) == Some("image/png"@)
            &&& ext == encode_utf8("jpg"@) ==> served_type(path) == Some("image/jpeg"@)
            &&& ext == encode_utf8("jpeg"@) ==> served_type(path) == Some("image/jpeg"@)
            &&& ext == encode_utf8("gif"@) ==> served_type(path) == Some("image/gif"@)
            &&& ext == encode_utf8("svg"@) ==> served_type(path) == Some("image/svg+xml"@)
            &&& ext == encode_utf8("webp"@) ==> served_type(path) == Some("image/webp"@)
            &&& ext == encode_utf8("avif"@) ==> served_type(path) == Some("image/avif"@)
            &&& ext == encode_utf8("bmp"@) ==> served_type(path) == Some("image/bmp"@)
            &&& ext == encode_utf8("ico"@) ==> served_type(path) == Some("image/x-icon"@)
            &&& ext != encode_utf8("png"@) && ext != encode_utf8("jpg"@) && ext != encode_utf8(
                "jpeg"@,
            ) && ext != encode_utf8("gif"@) && ext != encode_utf8("svg"@) && ext != encode_utf8(
                "webp"@,
            ) && ext != encode_utf8("avif"@) && ext != encode_utf8("bmp"@) && ext != encode_utf8(
                "ico"@,
            ) ==> served_type(path) is None
        },
{
    reveal_strlit("png");
    reveal_strlit("jpg");
    reveal_strlit("jpeg");
    reveal_strlit("gif");
    reveal_strlit("svg");
    reveal_strlit("webp");
    reveal_strlit("avif");
    reveal_strlit("bmp");
    reveal_strlit("ico");
    encode_utf8_decode_utf8("png"@);
    encode_utf8_decode_utf8("jpg"@);
    encode_utf8_decode_utf8("jpeg"@);
    encode_utf8_decode_utf8("gif"@);
    encode_utf8_decode_utf8("svg"@);
    encode_utf8_decode_utf8("webp"@);
    encode_utf8_decode_utf8("avif"@);
    encode_utf8_decode_utf8("bmp"@);
    encode_utf8_decode_utf8("ico"@);
    assert("png"@[0] == 'p' && "jpg"@[0] == 'j' && "jpeg"@[0] == 'j' && "gif"@[0] == 'g' && "svg"@[0]
        == 's' && "webp"@[0] == 'w' && "avif"@[0] == 'a' && "bmp"@[0] == 'b' && "ico"@[0] == 'i');
}

/// A status says its code and its reason, and headers say their names and
/// values, one for one.
pub proof fn a_status_says_its_code(
    status: Status,
    code: u16,
    reason: Seq<char>,
    list: Seq<HeaderLine>,
)
    ensures
        is_status(status, code, reason) <==> status.code == code && status.reason@ == reason,
        header_lines(list).len() == list.len(),
        forall|i: int|
            0 <= i < list.len() ==> #[trigger] header_lines(list)[i] == (
                list[i].name@,
                list[i].value@,
            ),
{
}

/// A page says what was read of the document, or that it could not be read and
/// why; its title is the document's file name.
pub proof fn a_page_shows_what_was_read(path: Seq<u8>, text: Seq<char>)
    ensures
        content_html(path, Ok(text)) == preview_html(text),
        content_html(path, Err(text)) == "<h1>mdpreviewer</h1><p>Could not read <code>"@
            + lossy_text(path) + "</code>: "@ + text + "</p>"@,
        file_name(path) matches Some(name) ==> title_of(path) == lossy_text(name),
        file_name(path) is None ==> title_of(path) == Seq::<char>::empty(),
{
    reveal_strlit("");
    assert(""@ == Seq::<char>::empty());
}

/// What a configuration and a route say is what they hold.
pub proof fn a_configuration_says_what_it_holds(config: Config, route: Route)
    ensures
        config@.url == config.url@,
        config@.idle_grace == config.idle_grace,
        config@.exit_on_quit == config.exit_on_quit,
        config@.control is Some <==> config.control is Some,
        config.control matches Some(socket) ==> config@.control == Some(
            (socket.path@, socket.inode),
        ),
        route matches Route::Asset(asset) ==> route@ == RouteView::Asset(asset),
        route matches Route::File(query) ==> route@ == RouteView::File(query@),
        route is Content <==> route@ is Content,
        route is Events <==> route@ is Events,
        route is Open <==> route@ is Open,
        route is NotFound <==> route@ is NotFound,
{
}

} // verus!
