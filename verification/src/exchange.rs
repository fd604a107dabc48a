//! One HTTP request, from its arrival to its answer: what has to be read or
//! resolved for it in which order, what it does to the session, and how it is
//! answered.

use vstd::prelude::*;
use vstd::string::*;
use vstd::utf8::*;

use crate::event::Event;
use crate::path::{lemma_lists_more, same_path, FilePath};
use crate::percent::encoded;
use crate::server::{
    asset_type, content_headers, content_html, content_page, file_headers, file_path, file_target,
    has_field, header_line, header_lines, image_type, link_path, link_status,
    link_target, link_text, not_found, read_part, refuse_link, route, route_of, served_type,
    title_of, Asset, HeaderLine, Route, RouteView, Status, LINK_HEADER,
};
use crate::render::{names_markdown, preview_html};
use crate::session::{followed, shown, switched, well_formed, Followed, Session, SessionView};
use crate::text::texts;

verus! {

/// What is sent behind the headers of an answer.
#[derive(Debug, PartialEq, Eq)]
pub enum Body {
    Nothing,
    Text(String),
    /// A file that comes with the program.
    Asset(Asset),
    /// The file that was opened for it.
    File,
}

/// What a [`Body`] says.
#[verifier::ext_equal]
pub enum BodyView {
    Nothing,
    Text(Seq<char>),
    Asset(Asset),
    File,
}

impl View for Body {
    type V = BodyView;

    open spec fn view(&self) -> BodyView {
        match self {
            Body::Nothing => BodyView::Nothing,
            Body::Text(text) => BodyView::Text(text@),
            Body::Asset(asset) => BodyView::Asset(*asset),
            Body::File => BodyView::File,
        }
    }
}

/// An answer.
#[derive(Debug, PartialEq, Eq)]
pub struct Answer {
    pub code: u16,
    pub headers: Vec<HeaderLine>,
    pub body: Body,
}

/// What an [`Answer`] says.
#[verifier::ext_equal]
pub struct AnswerView {
    pub code: u16,
    pub headers: Seq<(Seq<char>, Seq<char>)>,
    pub body: BodyView,
}

impl View for Answer {
    type V = AnswerView;

    open spec fn view(&self) -> AnswerView {
        AnswerView { code: self.code, headers: header_lines(self.headers@), body: self.body@ }
    }
}

/// How far a request has come: what it is waiting for.
#[derive(Debug)]
pub enum Exchange {
    /// For the link to follow.
    Link,
    /// For the path that the link leads to.
    LinkResolve,
    /// For the path of the image that a document, this one, refers to.
    FileResolve(FilePath),
    /// For the image to be opened: the document, the image, and its type.
    FileOpen(FilePath, FilePath, &'static str),
    /// For the document to be read.
    Content(FilePath),
    /// Nothing.
    Done,
}

/// What an [`Exchange`] says.
#[verifier::ext_equal]
pub enum ExchangeView {
    Link,
    LinkResolve,
    FileResolve(Seq<u8>),
    FileOpen(Seq<u8>, Seq<u8>, Seq<char>),
    Content(Seq<u8>),
    Done,
}

impl View for Exchange {
    type V = ExchangeView;

    open spec fn view(&self) -> ExchangeView {
        match self {
            Exchange::Link => ExchangeView::Link,
            Exchange::LinkResolve => ExchangeView::LinkResolve,
            Exchange::FileResolve(doc) => ExchangeView::FileResolve(doc@),
            Exchange::FileOpen(doc, path, content_type) => ExchangeView::FileOpen(
                doc@,
                path@,
                content_type@,
            ),
            Exchange::Content(path) => ExchangeView::Content(path@),
            Exchange::Done => ExchangeView::Done,
        }
    }
}

/// What a request needs next.
#[derive(Debug)]
pub enum Need {
    /// The body of the request.
    Body,
    /// The path with its symlinks and `..` resolved, if it is a file.
    Resolve(FilePath),
    /// The file to be opened.
    Open(FilePath),
    /// The text of the file.
    Read(FilePath),
    /// The events from now on, as they come.
    Events,
    /// This answer.
    Answer(Answer),
    /// Nothing: the request was not waiting for this.
    Ignore,
}

/// What a [`Need`] says.
#[verifier::ext_equal]
pub enum NeedView {
    Body,
    Resolve(Seq<u8>),
    Open(Seq<u8>),
    Read(Seq<u8>),
    Events,
    Answer(AnswerView),
    Ignore,
}

impl View for Need {
    type V = NeedView;

    open spec fn view(&self) -> NeedView {
        match self {
            Need::Body => NeedView::Body,
            Need::Resolve(path) => NeedView::Resolve(path@),
            Need::Open(path) => NeedView::Open(path@),
            Need::Read(path) => NeedView::Read(path@),
            Need::Events => NeedView::Events,
            Need::Answer(answer) => NeedView::Answer(answer@),
            Need::Ignore => NeedView::Ignore,
        }
    }
}

/// What came of a need.
#[derive(Debug)]
pub enum Got {
    /// The body, or `None` if it could not be read.
    Body(Option<Vec<u8>>),
    /// The resolved path, or `None` if there is no such file.
    Resolved(Option<FilePath>),
    /// Whether the file could be opened.
    Opened(bool),
    /// The text, or what the system says.
    Read(Result<String, String>),
}

/// What a [`Got`] says.
#[verifier::ext_equal]
pub enum GotView {
    Body(Option<Seq<u8>>),
    Resolved(Option<Seq<u8>>),
    Opened(bool),
    Read(Result<Seq<char>, Seq<char>>),
}

impl View for Got {
    type V = GotView;

    open spec fn view(&self) -> GotView {
        match self {
            Got::Body(Some(body)) => GotView::Body(Some(body@)),
            Got::Body(None) => GotView::Body(None),
            Got::Resolved(Some(path)) => GotView::Resolved(Some(path@)),
            Got::Resolved(None) => GotView::Resolved(None),
            Got::Opened(opened) => GotView::Opened(*opened),
            Got::Read(Ok(text)) => GotView::Read(Ok(text@)),
            Got::Read(Err(text)) => GotView::Read(Err(text@)),
        }
    }
}

/// An answer that is a status code and a short plain-text reason.
pub open spec fn plain(code: u16, reason: Seq<char>) -> NeedView {
    NeedView::Answer(AnswerView { code, headers: seq![], body: BodyView::Text(reason) })
}

/// An answer that succeeds.
pub open spec fn success(headers: Seq<(Seq<char>, Seq<char>)>, body: BodyView) -> NeedView {
    NeedView::Answer(AnswerView { code: 200, headers, body })
}

/// What a request needs first, and how far it has come with that, where the
/// document `doc` is current.
pub open spec fn received(
    method: Seq<char>,
    url: Seq<char>,
    fields: Seq<Seq<char>>,
    doc: Seq<u8>,
) -> (ExchangeView, NeedView) {
    match route_of(url) {
        RouteView::Asset(asset) => (
            ExchangeView::Done,
            success(seq![("Content-Type"@, asset_type(asset))], BodyView::Asset(asset)),
        ),
        RouteView::Content => (ExchangeView::Content(doc), NeedView::Read(doc)),
        RouteView::Events => (ExchangeView::Done, NeedView::Events),
        RouteView::Open => if method != "POST"@ {
            (ExchangeView::Done, plain(405, "use POST"@))
        } else if !has_field(fields, LINK_HEADER@) {
            (ExchangeView::Done, plain(403, "missing X-Mdpreviewer header"@))
        } else {
            (ExchangeView::Link, NeedView::Body)
        },
        RouteView::File(query) => match file_path(doc, query) {
            Some(path) => (ExchangeView::FileResolve(doc), NeedView::Resolve(path)),
            None => (ExchangeView::Done, plain(404, "not found"@)),
        },
        RouteView::NotFound => (ExchangeView::Done, plain(404, "not found"@)),
    }
}

/// What a request needs next, how far it has come with that, what becomes of
/// the session, what the tabs hear, and whether the images to watch are others.
pub open spec fn proceeded(exchange: ExchangeView, got: GotView, session: SessionView) -> (
    ExchangeView,
    NeedView,
    SessionView,
    Seq<Event>,
    bool,
) {
    match (exchange, got) {
        (ExchangeView::Link, GotView::Body(body)) => if body is None || !valid_utf8(
            read_part(body->0),
        ) {
            (ExchangeView::Done, plain(400, "the link is not UTF-8"@), session, seq![], false)
        } else {
            match link_path(session.path, decode_utf8(read_part(body->0))) {
                Some(path) => (
                    ExchangeView::LinkResolve,
                    NeedView::Resolve(path),
                    session,
                    seq![],
                    false,
                ),
                None => (ExchangeView::Done, plain(404, "no such file"@), session, seq![], false),
            }
        },
        (ExchangeView::LinkResolve, GotView::Resolved(target)) => {
            let (next, events, outcome) = followed(session, target);
            let answer = match outcome {
                Followed::Missing => plain(404, "no such file"@),
                Followed::NotMarkdown => plain(400, "not a Markdown file"@),
                Followed::Current => NeedView::Answer(
                    AnswerView { code: 204, headers: seq![], body: BodyView::Nothing },
                ),
            };
            (ExchangeView::Done, answer, next, events, false)
        },
        (ExchangeView::FileResolve(doc), GotView::Resolved(target)) => if target is Some
            && served_type(target->0) is Some {
            (
                ExchangeView::FileOpen(doc, target->0, served_type(target->0)->0),
                NeedView::Open(target->0),
                session,
                seq![],
                false,
            )
        } else {
            (ExchangeView::Done, plain(404, "not found"@), session, seq![], false)
        },
        (ExchangeView::FileOpen(doc, path, content_type), GotView::Opened(opened)) => if opened {
            let (next, changed) = shown(session, doc, path);
            (
                ExchangeView::Done,
                success(
                    seq![
                        ("Content-Type"@, content_type),
                        ("Content-Security-Policy"@, "sandbox"@),
                        ("X-Content-Type-Options"@, "nosniff"@),
                        ("Cache-Control"@, "no-cache"@),
                    ],
                    BodyView::File,
                ),
                next,
                seq![],
                changed,
            )
        } else {
            (ExchangeView::Done, plain(404, "not found"@), session, seq![], false)
        },
        (ExchangeView::Content(path), GotView::Read(read)) => (
            ExchangeView::Done,
            success(
                seq![
                    ("Content-Type"@, "text/html; charset=utf-8"@),
                    ("X-Mdpreviewer-File"@, encoded(title_of(path))),
                ],
                BodyView::Text(content_html(path, read)),
            ),
            session,
            seq![],
            false,
        ),
        _ => (exchange, NeedView::Ignore, session, seq![], false),
    }
}

/// The answer that is a status code and a short plain-text reason.
fn answer_plainly(status: Status) -> (need: Need)
    ensures
        need@ == plain(status.code, status.reason@),
{
    let headers: Vec<HeaderLine> = Vec::new();
    assert(header_lines(headers@) == Seq::<(Seq<char>, Seq<char>)>::empty());
    Need::Answer(
        Answer { code: status.code, headers, body: Body::Text(status.reason.to_owned()) },
    )
}

/// What a step brings: what is needed next, what the tabs hear, and whether the
/// images to watch are others.
#[derive(Debug)]
pub struct Progress {
    pub need: Need,
    pub events: Vec<Event>,
    pub images_changed: bool,
}

/// A step that brings nothing but what is needed next.
fn quietly(need: Need) -> (progress: Progress)
    ensures
        progress.need == need,
        progress.events@ == Seq::<Event>::empty(),
        !progress.images_changed,
{
    let events: Vec<Event> = Vec::new();
    assert(events@ == Seq::<Event>::empty());
    Progress { need, events, images_changed: false }
}

impl Exchange {
    /// Take in a request: its method, its URL, and the names of its headers.
    pub fn receive(method: &str, url: &str, fields: &Vec<String>, session: &Session) -> (begun: (
        Exchange,
        Need,
    ))
        ensures
            (begun.0@, begun.1@) == received(method@, url@, texts(fields@), session@.path),
    {
        match route(url) {
            Route::Asset(asset) => {
                let mut headers: Vec<HeaderLine> = Vec::new();
                headers.push(header_line("Content-Type", asset.content_type()));
                assert(header_lines(headers@) == seq![("Content-Type"@, asset_type(asset))]);
                let answer = Answer { code: 200, headers, body: Body::Asset(asset) };
                (Exchange::Done, Need::Answer(answer))
            },
            Route::Content => (
                Exchange::Content(session.path().clone()),
                Need::Read(session.path().clone()),
            ),
            Route::Events => (Exchange::Done, Need::Events),
            Route::Open => match refuse_link(method, fields) {
                Some(status) => (Exchange::Done, answer_plainly(status)),
                None => (Exchange::Link, Need::Body),
            },
            Route::File(query) => match file_target(session.path(), query.as_str()) {
                Some(path) => (
                    Exchange::FileResolve(session.path().clone()),
                    Need::Resolve(path),
                ),
                None => (Exchange::Done, answer_plainly(not_found())),
            },
            Route::NotFound => (Exchange::Done, answer_plainly(not_found())),
        }
    }

    /// Go on with what came of the last need.
    pub fn step(&mut self, got: Got, session: &mut Session) -> (progress: Progress)
        ensures
            (
                final(self)@,
                progress.need@,
                final(session)@,
                progress.events@,
                progress.images_changed,
            ) == proceeded(old(self)@, got@, old(session)@),
            *old(self) matches Exchange::FileResolve(_) ==> (got matches Got::Resolved(Some(path))
                ==> (progress.need matches Need::Open(opened) ==> opened@ == path@ && served_type(
                path@,
            ) is Some && (*final(self) matches Exchange::FileOpen(_, named, content_type) && named@
                == path@ && served_type(path@) == Some(content_type@)))),
            *old(self) matches Exchange::FileOpen(_, path, content_type) ==> (got
                matches Got::Opened(true) ==> (progress.need matches Need::Answer(answer)
                && answer.code == 200 && answer.body is File && answer.headers@.len() == 4
                && answer.headers@[0].name@ == "Content-Type"@ && answer.headers@[0].value@
                == content_type@)),
            *old(self) matches Exchange::Content(path) ==> (got matches Got::Read(Ok(text)) ==> (
            progress.need matches Need::Answer(answer) && answer.code == 200 && (answer.body
                matches Body::Text(page) && page@ == preview_html(text@)))),
    {
        let mut exchange = Exchange::Done;
        std::mem::swap(&mut exchange, self);
        match (exchange, got) {
            (Exchange::Link, Got::Body(body)) => {
                let link = match body {
                    Some(body) => link_text(body),
                    None => Err(Status { code: 400, reason: "the link is not UTF-8" }),
                };
                match link {
                    Ok(link) => match link_target(session.path(), link.as_str()) {
                        Some(path) => {
                            *self = Exchange::LinkResolve;
                            quietly(Need::Resolve(path))
                        },
                        None => quietly(answer_plainly(link_status(Followed::Missing))),
                    },
                    Err(status) => quietly(answer_plainly(status)),
                }
            },
            (Exchange::LinkResolve, Got::Resolved(target)) => {
                let (events, outcome) = session.follow(target);
                let status = link_status(outcome);
                let need = match outcome {
                    Followed::Current => {
                        let headers: Vec<HeaderLine> = Vec::new();
                        assert(header_lines(headers@) == Seq::<(Seq<char>, Seq<char>)>::empty());
                        Need::Answer(Answer { code: status.code, headers, body: Body::Nothing })
                    },
                    _ => answer_plainly(status),
                };
                Progress { need, events, images_changed: false }
            },
            (Exchange::FileResolve(doc), Got::Resolved(Some(path))) => match image_type(&path) {
                Some(content_type) => {
                    let opened = path.clone();
                    *self = Exchange::FileOpen(doc, path, content_type);
                    quietly(Need::Open(opened))
                },
                None => quietly(answer_plainly(not_found())),
            },
            (Exchange::FileResolve(_), Got::Resolved(None)) => quietly(
                answer_plainly(not_found()),
            ),
            (Exchange::FileOpen(doc, path, content_type), Got::Opened(opened)) => {
                if !opened {
                    return quietly(answer_plainly(not_found()));
                }
                let images_changed = session.watch_image(&doc, path);
                let headers = file_headers(content_type);
                assert(header_lines(headers@).len() == headers@.len());
                assert(header_lines(headers@)[0] == (headers@[0].name@, headers@[0].value@));
                let need = Need::Answer(Answer { code: 200, headers, body: Body::File });
                let progress = quietly(need);
                Progress { images_changed, ..progress }
            },
            (Exchange::Content(path), Got::Read(read)) => {
                let headers = content_headers(&path);
                let body = Body::Text(content_page(&path, read));
                quietly(Need::Answer(Answer { code: 200, headers, body }))
            },
            (exchange, _) => {
                *self = exchange;
                quietly(Need::Ignore)
            },
        }
    }
}

/// A request is answered once: with its answer it is done, and once it is done
/// nothing more follows.
pub proof fn a_request_is_answered_once(
    exchange: ExchangeView,
    got: GotView,
    session: SessionView,
)
    ensures
        ({
            let (then, need, after, events, changed) = proceeded(exchange, got, session);
            &&& need is Answer ==> then is Done
            &&& exchange is Done ==> then is Done && need is Ignore && after == session
                && events.len() == 0 && !changed
        }),
{
}

/// Only images are opened for `/file`, which is seen from the resolved path, so
/// a link cannot reach anything else the user can read. Each is served under
/// its own type.
pub proof fn only_images_are_served(exchange: ExchangeView, got: GotView, session: SessionView)
    ensures
        ({
            let (then, need, after, events, changed) = proceeded(exchange, got, session);
            &&& need matches NeedView::Open(path) ==> served_type(path) is Some
            &&& then matches ExchangeView::FileOpen(doc, path, content_type) ==> then == exchange
                || (served_type(path) == Some(content_type) && got == GotView::Resolved(
                Some(path),
            ))
            &&& need matches NeedView::Answer(answer) ==> answer.body is File ==> exchange
                is FileOpen
        }),
{
}

/// What becomes of the session in the course of a request, and what the tabs
/// hear.
pub open spec fn effect(exchange: ExchangeView, gots: Seq<GotView>, session: SessionView) -> (
    SessionView,
    Seq<Event>,
)
    decreases gots.len(),
{
    if gots.len() == 0 {
        (session, seq![])
    } else {
        let (then, need, after, events, changed) = proceeded(exchange, gots[0], session);
        let (last, more) = effect(then, gots.skip(1), after);
        (last, events + more)
    }
}

/// A request that does not follow a link leaves the document as it is, and no
/// tab hears of it.
proof fn lemma_no_link_no_effect(exchange: ExchangeView, gots: Seq<GotView>, session: SessionView)
    requires
        !(exchange is Link),
        !(exchange is LinkResolve),
    ensures
        effect(exchange, gots, session).0.path == session.path,
        effect(exchange, gots, session).0.opened == session.opened,
        effect(exchange, gots, session).1.len() == 0,
    decreases gots.len(),
{
    if gots.len() > 0 {
        let (then, need, after, events, changed) = proceeded(exchange, gots[0], session);
        lemma_no_link_no_effect(then, gots.skip(1), after);
    }
}

/// Another document becomes current only by a POST to `/open` with the header
/// that the preview page sends. Any other request leaves the document as it is,
/// and no tab hears of it.
pub proof fn only_the_page_switches_documents(
    method: Seq<char>,
    url: Seq<char>,
    fields: Seq<Seq<char>>,
    gots: Seq<GotView>,
    session: SessionView,
)
    requires
        !(route_of(url) is Open && method == "POST"@ && has_field(fields, LINK_HEADER@)),
    ensures
        effect(received(method, url, fields, session.path).0, gots, session).0.path
            == session.path,
        effect(received(method, url, fields, session.path).0, gots, session).1.len() == 0,
{
    lemma_no_link_no_effect(received(method, url, fields, session.path).0, gots, session);
}

/// What a request makes current is Markdown, if it makes anything current.
pub proof fn only_markdown_becomes_current(
    exchange: ExchangeView,
    got: GotView,
    session: SessionView,
)
    ensures
        ({
            let (then, need, after, events, changed) = proceeded(exchange, got, session);
            &&& after.path != session.path ==> names_markdown(after.path) && events
                == seq![Event::Reload]
            &&& events.len() > 0 ==> after.path != session.path
            &&& well_formed(session) ==> well_formed(after)
        }),
{
    if let (ExchangeView::FileOpen(doc, path, content_type), GotView::Opened(opened)) = (
        exchange,
        got,
    ) {
        lemma_lists_more(session.images, path);
    }
}

/// Over a whole request for an image: where the path resolves to an image, that
/// path is opened, and once it is open the answer is the file, under the type
/// that belongs to the extension of the path that was opened, and the image is
/// noted for the document that the request came for. Any other file is not
/// found, and is not opened.
pub proof fn an_image_is_answered_under_its_own_type(
    method: Seq<char>,
    url: Seq<char>,
    fields: Seq<Seq<char>>,
    start: SessionView,
    path: Seq<u8>,
    session: SessionView,
    later: SessionView,
)
    requires
        received(method, url, fields, start.path).0 is FileResolve,
    ensures
        ({
            let (first, resolve) = received(method, url, fields, start.path);
            let (second, open, after, events, changed) = proceeded(
                first,
                GotView::Resolved(Some(path)),
                session,
            );
            let (third, answer, last, more, noted) = proceeded(
                second,
                GotView::Opened(true),
                later,
            );
            &&& resolve is Resolve
            &&& after == session && events.len() == 0 && !changed
            &&& served_type(path) is Some ==> open == NeedView::Open(path)
            &&& served_type(path) matches Some(content_type) ==> third is Done && (answer matches
                NeedView::Answer(answer) && answer.code == 200 && answer.body is File
                && answer.headers.len() == 4 && answer.headers[0] == ("Content-Type"@, content_type)
                && answer.headers[1] == ("Content-Security-Policy"@, "sandbox"@)
                && answer.headers[2] == ("X-Content-Type-Options"@, "nosniff"@) && answer.headers[3]
                == ("Cache-Control"@, "no-cache"@))
            &&& served_type(path) is Some ==> more.len() == 0 && (last, noted) == shown(
                later,
                start.path,
                path,
            )
            &&& served_type(path) is None ==> second is Done && (open matches NeedView::Answer(
                answer,
            ) && answer.code == 404 && answer.headers.len() == 0 && answer.body == BodyView::Text(
                "not found"@,
            ))
        }),
{
}

/// An image that does not resolve to a file, or that cannot be opened, is not
/// found, and is not noted.
pub proof fn an_image_that_is_not_there_is_not_found(
    exchange: ExchangeView,
    session: SessionView,
)
    ensures
        exchange is FileResolve ==> ({
            let (then, need, after, events, changed) = proceeded(
                exchange,
                GotView::Resolved(None),
                session,
            );
            &&& need matches NeedView::Answer(answer) && answer.code == 404
                && answer.headers.len() == 0 && answer.body == BodyView::Text("not found"@)
            &&& then is Done && after == session && events.len() == 0 && !changed
        }),
        exchange is FileOpen ==> ({
            let (then, need, after, events, changed) = proceeded(
                exchange,
                GotView::Opened(false),
                session,
            );
            &&& need matches NeedView::Answer(answer) && answer.code == 404
                && answer.headers.len() == 0 && answer.body == BodyView::Text("not found"@)
            &&& then is Done && after == session && events.len() == 0 && !changed
        }),
{
}

/// A file that comes with the program is answered at once, as that file, under
/// its type; a request for anything unknown is answered that it is not found.
pub proof fn assets_are_answered_at_once(
    method: Seq<char>,
    url: Seq<char>,
    fields: Seq<Seq<char>>,
    doc: Seq<u8>,
)
    ensures
        route_of(url) matches RouteView::Asset(asset) ==> ({
            let (then, need) = received(method, url, fields, doc);
            &&& then is Done
            &&& need matches NeedView::Answer(answer) && answer.code == 200
                && answer.headers.len() == 1 && answer.headers[0].0 == "Content-Type"@
                && answer.headers[0].1 == (match asset {
                Asset::Shell => "text/html; charset=utf-8"@,
                Asset::AppCss | Asset::GithubMarkdownCss => "text/css; charset=utf-8"@,
                Asset::AppJs | Asset::MermaidJs => "text/javascript; charset=utf-8"@,
            }) && answer.body == BodyView::Asset(asset)
        }),
        route_of(url) is NotFound ==> ({
            let (then, need) = received(method, url, fields, doc);
            &&& then is Done
            &&& need matches NeedView::Answer(answer) && answer.code == 404
                && answer.headers.len() == 0 && answer.body == BodyView::Text("not found"@)
        }),
        route_of(url) is Events ==> ({
            let (then, need) = received(method, url, fields, doc);
            then is Done && need is Events
        }),
{
}

/// A request for the document reads the document that is current when it comes,
/// and is answered with the page of what was read, under the document's name,
/// whatever becomes current in the meantime. It leaves the session as it is.
pub proof fn the_document_is_answered_as_it_was_read(
    method: Seq<char>,
    url: Seq<char>,
    fields: Seq<Seq<char>>,
    doc: Seq<u8>,
    read: Result<Seq<char>, Seq<char>>,
    later: SessionView,
)
    requires
        route_of(url) is Content,
    ensures
        ({
            let (first, need) = received(method, url, fields, doc);
            let (then, answer, after, events, changed) = proceeded(
                first,
                GotView::Read(read),
                later,
            );
            &&& need == NeedView::Read(doc)
            &&& answer matches NeedView::Answer(answer) && answer.code == 200
                && answer.headers.len() == 2 && answer.headers[0] == (
                "Content-Type"@,
                "text/html; charset=utf-8"@,
            ) && answer.headers[1] == ("X-Mdpreviewer-File"@, encoded(title_of(doc)))
                && answer.body == BodyView::Text(content_html(doc, read))
            &&& then is Done && after == later && events.len() == 0 && !changed
        }),
{
}

/// A request to follow a link is refused at once unless it is a POST with the
/// header of the preview page; then its body is asked for.
pub proof fn only_the_page_may_follow_links(
    method: Seq<char>,
    url: Seq<char>,
    fields: Seq<Seq<char>>,
    doc: Seq<u8>,
)
    requires
        route_of(url) is Open,
    ensures
        ({
            let (then, need) = received(method, url, fields, doc);
            &&& method != "POST"@ ==> then is Done && (need matches NeedView::Answer(answer)
                && answer.code == 405 && answer.headers.len() == 0 && answer.body
                == BodyView::Text("use POST"@))
            &&& method == "POST"@ && !has_field(fields, "X-Mdpreviewer"@) ==> then is Done && (need
                matches NeedView::Answer(answer) && answer.code == 403 && answer.headers.len() == 0
                && answer.body == BodyView::Text("missing X-Mdpreviewer header"@))
            &&& method == "POST"@ && has_field(fields, "X-Mdpreviewer"@) ==> then is Link && need
                is Body
        }),
{
}

/// Over a whole request to follow a link: the link in the body is looked for
/// from the document that is current then, and what it resolves to becomes
/// current if it is Markdown. Each outcome has its own answer.
pub proof fn a_link_is_followed_to_its_end(
    body: Seq<u8>,
    session: SessionView,
    target: Option<Seq<u8>>,
    later: SessionView,
)
    ensures
        ({
            let part = read_part(body);
            let path = link_path(session.path, decode_utf8(part));
            let (then, need, after, events, changed) = proceeded(
                ExchangeView::Link,
                GotView::Body(Some(body)),
                session,
            );
            let (last, answer, end, heard, noted) = proceeded(
                then,
                GotView::Resolved(target),
                later,
            );
            &&& after == session && events.len() == 0 && !changed
            &&& !valid_utf8(part) ==> then is Done && (need matches NeedView::Answer(answer)
                && answer.code == 400 && answer.headers.len() == 0 && answer.body
                == BodyView::Text("the link is not UTF-8"@))
            &&& valid_utf8(part) && path is None ==> then is Done && (need matches NeedView::Answer(
                answer,
            ) && answer.code == 404 && answer.headers.len() == 0 && answer.body == BodyView::Text(
                "no such file"@,
            ))
            &&& valid_utf8(part) && path is Some ==> {
                &&& need == NeedView::Resolve(path->0)
                &&& last is Done && !noted
                &&& target is None ==> end == later && heard.len() == 0 && (answer matches
                    NeedView::Answer(answer) && answer.code == 404 && answer.headers.len() == 0
                    && answer.body == BodyView::Text("no such file"@))
                &&& target matches Some(file) ==> !names_markdown(file) ==> end == later
                    && heard.len() == 0 && (answer matches NeedView::Answer(answer) && answer.code
                    == 400 && answer.headers.len() == 0 && answer.body == BodyView::Text(
                    "not a Markdown file"@,
                ))
                &&& target matches Some(file) ==> names_markdown(file) ==> (answer matches
                    NeedView::Answer(answer) && answer.code == 204 && answer.headers.len() == 0
                    && answer.body is Nothing) && same_path(end.path, file) && (end, heard)
                    == switched(later, file)
            }
        }),
        ({
            let (then, need, after, events, changed) = proceeded(
                ExchangeView::Link,
                GotView::Body(None),
                session,
            );
            &&& need matches NeedView::Answer(answer) && answer.code == 400
                && answer.headers.len() == 0 && answer.body == BodyView::Text(
                "the link is not UTF-8"@,
            )
            &&& then is Done && after == session && events.len() == 0 && !changed
        }),
{
}

/// A request for an image resolves the path that its query leads to from the
/// document that is current; a query that leads nowhere is not found.
pub proof fn an_image_is_looked_for_from_the_document(
    method: Seq<char>,
    url: Seq<char>,
    fields: Seq<Seq<char>>,
    doc: Seq<u8>,
)
    ensures
        route_of(url) matches RouteView::File(query) ==> ({
            let (then, need) = received(method, url, fields, doc);
            &&& file_path(doc, query) matches Some(path) ==> then == ExchangeView::FileResolve(doc)
                && need == NeedView::Resolve(path)
            &&& file_path(doc, query) is None ==> then is Done && (need matches NeedView::Answer(
                answer,
            ) && answer.code == 404 && answer.headers.len() == 0 && answer.body == BodyView::Text(
                "not found"@,
            ))
        }),
{
}

/// What a request does not wait for changes nothing.
pub proof fn what_is_not_awaited_is_ignored(
    exchange: ExchangeView,
    got: GotView,
    session: SessionView,
)
    requires
        exchange is Link ==> !(got is Body),
        exchange is LinkResolve || exchange is FileResolve ==> !(got is Resolved),
        exchange is FileOpen ==> !(got is Opened),
        exchange is Content ==> !(got is Read),
    ensures
        ({
            let (then, need, after, events, changed) = proceeded(exchange, got, session);
            then == exchange && need is Ignore && after == session && events.len() == 0 && !changed
        }),
{
}

/// What an answer says is its code, its headers and its body, as they are.
pub proof fn an_answer_says_what_it_holds(answer: Answer)
    ensures
        answer@.code == answer.code,
        answer@.headers.len() == answer.headers@.len(),
        forall|i: int|
            0 <= i < answer.headers@.len() ==> #[trigger] answer@.headers[i] == (
                answer.headers@[i].name@,
                answer.headers@[i].value@,
            ),
        answer.body is Nothing <==> answer@.body is Nothing,
        answer.body is File <==> answer@.body is File,
        answer.body matches Body::Text(text) ==> answer@.body == BodyView::Text(text@),
        answer.body matches Body::Asset(asset) ==> answer@.body == BodyView::Asset(asset),
{
}

/// What a request needs, and what came of it, is said as it is.
pub proof fn needs_say_what_they_hold(exchange: Exchange, need: Need, got: Got)
    ensures
        need is Body <==> need@ is Body,
        need is Events <==> need@ is Events,
        need is Ignore <==> need@ is Ignore,
        need matches Need::Resolve(path) ==> need@ == NeedView::Resolve(path@),
        need matches Need::Open(path) ==> need@ == NeedView::Open(path@),
        need matches Need::Read(path) ==> need@ == NeedView::Read(path@),
        need matches Need::Answer(answer) ==> need@ == NeedView::Answer(answer@),
        got matches Got::Body(Some(body)) ==> got@ == GotView::Body(Some(body@)),
        got matches Got::Body(None) ==> got@ == GotView::Body(None),
        got matches Got::Resolved(Some(path)) ==> got@ == GotView::Resolved(Some(path@)),
        got matches Got::Resolved(None) ==> got@ == GotView::Resolved(None),
        got matches Got::Opened(opened) ==> got@ == GotView::Opened(opened),
        got matches Got::Read(Ok(text)) ==> got@ == GotView::Read(Ok(text@)),
        got matches Got::Read(Err(text)) ==> got@ == GotView::Read(Err(text@)),
        exchange is Link <==> exchange@ is Link,
        exchange is LinkResolve <==> exchange@ is LinkResolve,
        exchange is Done <==> exchange@ is Done,
        exchange matches Exchange::FileResolve(doc) ==> exchange@ == ExchangeView::FileResolve(
            doc@,
        ),
        exchange matches Exchange::FileOpen(doc, path, kind) ==> exchange@
            == ExchangeView::FileOpen(doc@, path@, kind@),
        exchange matches Exchange::Content(path) ==> exchange@ == ExchangeView::Content(path@),
{
}

/// In the course of a request the session and the tabs go through what its
/// steps bring, one after another.
pub proof fn a_request_goes_step_by_step(
    exchange: ExchangeView,
    got: GotView,
    gots: Seq<GotView>,
    session: SessionView,
)
    ensures
        effect(exchange, Seq::empty(), session) == (session, Seq::<Event>::empty()),
        ({
            let (then, need, after, events, changed) = proceeded(exchange, got, session);
            let (last, more) = effect(then, gots, after);
            effect(exchange, seq![got] + gots, session) == (last, events + more)
        }),
{
    assert((seq![got] + gots).skip(1) == gots);
}

} // verus!
