//! The document being previewed, and what becomes of it: requests and links
//! that make another document current, and the images it shows.

use vstd::prelude::*;
use vstd::string::*;

use crate::control::{Reply, ReplyView, Request, RequestView};
use crate::event::Event;
use crate::path::{
    distinct, has_root, lemma_lists_more, list_holds, lists, paths, same_path, FilePath,
};
use crate::render::{is_markdown, names_markdown};
use crate::text::lossy_text;

verus! {

/// The document being previewed, the images it has shown, and whether an
/// `open` request came since the monitor last looked.
#[derive(Debug)]
pub struct Session {
    path: FilePath,
    images: Vec<FilePath>,
    opened: bool,
}

/// What a [`Session`] holds.
#[verifier::ext_equal]
pub struct SessionView {
    pub path: Seq<u8>,
    pub images: Seq<Seq<u8>>,
    pub opened: bool,
}

impl View for Session {
    type V = SessionView;

    closed spec fn view(&self) -> SessionView {
        SessionView { path: self.path@, images: paths(self.images@), opened: self.opened }
    }
}

/// The session after `path` was made the current document, and what the tabs
/// hear of it. The document that is current already stays, with its images.
pub open spec fn switched(session: SessionView, path: Seq<u8>) -> (SessionView, Seq<Event>) {
    if same_path(session.path, path) {
        (session, seq![])
    } else {
        (SessionView { path, images: seq![], ..session }, seq![Event::Reload])
    }
}

/// The session after a control `open`, and what the tabs hear of it, or why
/// it is refused. `is_file` says whether the path names a file.
pub open spec fn opened(session: SessionView, request: RequestView, is_file: bool) -> Result<
    (SessionView, Seq<Event>),
    Seq<char>,
> {
    if !has_root(request.path) {
        Err("not an absolute path: "@ + lossy_text(request.path))
    } else if !is_file {
        Err("not a file: "@ + lossy_text(request.path))
    } else {
        let (next, events) = switched(session, request.path);
        let scroll = match request.line {
            Some(line) => seq![Event::Scroll(line)],
            None => seq![],
        };
        Ok((SessionView { opened: true, ..next }, events + scroll))
    }
}

/// The session after `image` was served for the document `doc`, and whether
/// the images to watch are now others.
pub open spec fn shown(session: SessionView, doc: Seq<u8>, image: Seq<u8>) -> (SessionView, bool) {
    if !same_path(session.path, doc) || lists(session.images, image) {
        (session, false)
    } else {
        (SessionView { images: session.images.push(image), ..session }, true)
    }
}

/// What following a link comes to.
#[derive(Debug, Clone, Copy, PartialEq, Eq, Structural)]
pub enum Followed {
    /// There is no such file.
    Missing,
    /// The file is no Markdown document.
    NotMarkdown,
    /// The document is current now.
    Current,
}

/// The session after following a link that leads to `target`, if to any file,
/// and what the tabs hear of it.
pub open spec fn followed(session: SessionView, target: Option<Seq<u8>>) -> (
    SessionView,
    Seq<Event>,
    Followed,
) {
    match target {
        None => (session, seq![], Followed::Missing),
        Some(path) => if !names_markdown(path) {
            (session, seq![], Followed::NotMarkdown)
        } else {
            let (next, events) = switched(session, path);
            (next, events, Followed::Current)
        },
    }
}

/// Whether a session is in order: no image is held twice.
pub open spec fn well_formed(session: SessionView) -> bool {
    distinct(session.images)
}

impl Session {
    /// A session that previews `path`.
    pub fn new(path: FilePath) -> (session: Session)
        ensures
            session@ == (SessionView { path: path@, images: seq![], opened: false }),
            well_formed(session@),
    {
        let images: Vec<FilePath> = Vec::new();
        assert(paths(images@) == Seq::<Seq<u8>>::empty());
        Session { path, images, opened: false }
    }

    /// The document being previewed.
    pub fn path(&self) -> (path: &FilePath)
        ensures
            path@ == self@.path,
    {
        &self.path
    }

    /// The images that the document has shown.
    pub fn images(&self) -> (images: &Vec<FilePath>)
        ensures
            paths(images@) == self@.images,
    {
        &self.images
    }

    /// Whether an `open` request came since this was last asked.
    pub fn take_opened(&mut self) -> (opened: bool)
        ensures
            opened == old(self)@.opened,
            final(self)@ == (SessionView { opened: false, ..old(self)@ }),
    {
        let opened = self.opened;
        self.opened = false;
        opened
    }

    /// Make `path` the current document, if it is not already, and tell every
    /// tab to reload.
    pub fn switch_to(&mut self, path: FilePath) -> (events: Vec<Event>)
        ensures
            (final(self)@, events@) == switched(old(self)@, path@),
            well_formed(old(self)@) ==> well_formed(final(self)@),
    {
        let mut events: Vec<Event> = Vec::new();
        if !self.path.is_same(&path) {
            self.path = path;
            self.images = Vec::new();
            assert(paths(self.images@) == Seq::<Seq<u8>>::empty());
            events.push(Event::Reload);
        }
        assert(events@ == switched(old(self)@, path@).1);
        events
    }

    /// Handle a control-socket `open`: make the path the current document (if
    /// it is not already) and ask every tab to scroll to the line. `is_file`
    /// says whether the path names a file. The reply is a refusal.
    pub fn open(&mut self, request: Request, is_file: bool) -> (result: Result<Vec<Event>, Reply>)
        ensures
            match result {
                Ok(events) => opened(old(self)@, request@, is_file) == Ok::<_, Seq<char>>(
                    (final(self)@, events@),
                ),
                Err(reply) => opened(old(self)@, request@, is_file) matches Err(reason) && reply@
                    == ReplyView::Refused(reason) && final(self)@ == old(self)@,
            },
            well_formed(old(self)@) ==> well_formed(final(self)@),
    {
        if !request.path.has_root() {
            let shown = request.path.display();
            let reason = String::from_str("not an absolute path: ").concat(shown.as_str());
            return Err(Reply::Refused(reason));
        }
        if !is_file {
            let shown = request.path.display();
            let reason = String::from_str("not a file: ").concat(shown.as_str());
            return Err(Reply::Refused(reason));
        }
        let line = request.line;
        let mut events = self.switch_to(request.path);
        let ghost before = events@;
        self.opened = true;
        if let Some(line) = line {
            events.push(Event::Scroll(line));
            assert(events@ == before + seq![Event::Scroll(line)]);
        } else {
            assert(events@ == before + Seq::<Event>::empty());
        }
        Ok(events)
    }

    /// Take note of `image`, which was just served for `doc`, unless it is
    /// noted already or `doc` stopped being current in the meantime. Returns
    /// whether the images to watch are now others.
    pub fn watch_image(&mut self, doc: &FilePath, image: FilePath) -> (changed: bool)
        ensures
            (final(self)@, changed) == shown(old(self)@, doc@, image@),
            well_formed(old(self)@) ==> well_formed(final(self)@),
    {
        if !self.path.is_same(doc) || list_holds(&self.images, &image) {
            return false;
        }
        let ghost before = self.images@;
        self.images.push(image);
        proof {
            assert(paths(self.images@) == paths(before).push(image@));
            lemma_lists_more(paths(before), image@);
        }
        true
    }

    /// Follow a link that leads to `target`, if to any file. Checked on the
    /// resolved path, so a `.md` symlink to something else is refused rather
    /// than rendered.
    pub fn follow(&mut self, target: Option<FilePath>) -> (outcome: (Vec<Event>, Followed))
        ensures
            (final(self)@, outcome.0@, outcome.1) == followed(
                old(self)@,
                match target {
                    Some(path) => Some(path@),
                    None => None,
                },
            ),
            well_formed(old(self)@) ==> well_formed(final(self)@),
    {
        let none: Vec<Event> = Vec::new();
        assert(none@ == Seq::<Event>::empty());
        match target {
            None => (none, Followed::Missing),
            Some(path) => {
                if !is_markdown(&path) {
                    return (none, Followed::NotMarkdown);
                }
                let events = self.switch_to(path);
                (events, Followed::Current)
            },
        }
    }
}

/// Which watches are to be replaced.
#[derive(Debug, Clone, Copy, PartialEq, Eq, Structural)]
pub struct Rewatch {
    /// Whether to watch the current document in place of the one before it, and
    /// to stop watching the images of that one.
    pub document: bool,
    /// Whether to watch the images anew.
    pub images: bool,
}

/// Decide which watches are to be replaced after a step of which the tabs hear
/// these events, and which made the images to watch others or not.
pub fn rewatch(events: &Vec<Event>, images_changed: bool) -> (plan: Rewatch)
    ensures
        plan.document == events@.contains(Event::Reload),
        plan.images == images_changed,
{
    let mut i: usize = 0;
    while i < events.len()
        invariant
            i <= events@.len(),
            forall|j: int| 0 <= j < i ==> events@[j] != Event::Reload,
        decreases events@.len() - i,
    {
        if events[i] == Event::Reload {
            assert(events@[i as int] == Event::Reload);
            return Rewatch { document: true, images: images_changed };
        }
        i += 1;
    }
    Rewatch { document: false, images: images_changed }
}

/// The tabs are told to reload exactly when another document becomes current.
/// So the watches are replaced exactly then.
pub proof fn a_reload_means_another_document(
    session: SessionView,
    request: RequestView,
    target: Option<Seq<u8>>,
)
    ensures
        opened(session, request, true) matches Ok((next, events)) ==> (events.contains(
            Event::Reload,
        ) <==> !same_path(session.path, request.path)),
        followed(session, target).1.contains(Event::Reload) <==> target is Some && names_markdown(
            target->0,
        ) && !same_path(session.path, target->0),
{
    if let Ok((next, events)) = opened(session, request, true) {
        if !same_path(session.path, request.path) {
            assert(events[0] == Event::Reload);
        }
    }
    if followed(session, target).1.len() > 0 {
        assert(followed(session, target).1[0] == Event::Reload);
    }
}

/// Opening the document that is current already scrolls without a reload, and
/// keeps its images.
pub proof fn reopening_does_not_reload(session: SessionView, request: RequestView)
    requires
        has_root(request.path),
        same_path(session.path, request.path),
    ensures
        opened(session, request, true) matches Ok((next, events)) ==> {
            &&& next.path == session.path
            &&& next.images == session.images
            &&& !events.contains(Event::Reload)
            &&& request.line is None ==> events.len() == 0
            &&& request.line matches Some(line) ==> events == seq![Event::Scroll(line)]
        },
        opened(session, request, true) is Ok,
{
    let (next, events) = opened(session, request, true)->Ok_0;
    assert(request.line matches Some(line) ==> events == seq![Event::Scroll(line)]);
}

/// Opening another document makes it current, drops the images of the one
/// before it, and makes every tab reload before it scrolls.
pub proof fn opening_another_document_reloads_first(session: SessionView, request: RequestView)
    requires
        has_root(request.path),
        !same_path(session.path, request.path),
    ensures
        opened(session, request, true) matches Ok((next, events)) ==> {
            &&& next.path == request.path
            &&& next.images.len() == 0
            &&& events.len() > 0
            &&& events[0] == Event::Reload
            &&& events.skip(1) == match request.line {
                Some(line) => seq![Event::Scroll(line)],
                None => seq![],
            }
        },
        opened(session, request, true) is Ok,
{
    let (next, events) = opened(session, request, true)->Ok_0;
    assert(events.skip(1) == match request.line {
        Some(line) => seq![Event::Scroll(line)],
        None => seq![],
    });
}

/// Opening a document twice is the same as opening it once, but that the
/// second time no tab reloads.
pub proof fn opening_twice_changes_nothing_more(session: SessionView, request: RequestView)
    requires
        has_root(request.path),
    ensures
        ({
            let (first, _) = opened(session, request, true)->Ok_0;
            let (second, events) = opened(first, request, true)->Ok_0;
            second == first && !events.contains(Event::Reload)
        }),
{
    let (first, _) = opened(session, request, true)->Ok_0;
    reopening_does_not_reload(first, request);
}

/// Only a Markdown file becomes current by a link; after any other link the
/// session is as it was, and no tab hears of it.
pub proof fn only_markdown_is_followed(session: SessionView, target: Option<Seq<u8>>)
    ensures
        ({
            let (next, events, outcome) = followed(session, target);
            &&& outcome == Followed::Current <==> target is Some && names_markdown(target->0)
            &&& outcome != Followed::Current ==> next == session && events.len() == 0
        }),
{
}

/// An image is noted once: serving it again changes nothing.
pub proof fn an_image_is_noted_once(session: SessionView, doc: Seq<u8>, image: Seq<u8>)
    ensures
        ({
            let (next, _) = shown(session, doc, image);
            shown(next, doc, image) == (next, false)
        }),
{
    lemma_lists_more(session.images, image);
}

/// Making a document current: it is the one that is asked for, without images
/// yet, and every tab reloads; where it is current already, nothing changes.
/// Whether an `open` request came is another matter.
pub proof fn switching_makes_the_document_current(session: SessionView, path: Seq<u8>)
    ensures
        ({
            let (next, events) = switched(session, path);
            &&& same_path(next.path, path)
            &&& next.opened == session.opened
            &&& same_path(session.path, path) ==> next == session && events.len() == 0
            &&& !same_path(session.path, path) ==> next.path == path && next.images.len() == 0
                && events == seq![Event::Reload]
        }),
{
}

/// An `open` request is refused exactly if its path is not absolute or names no
/// file, and says which; the path that is refused is the one that was sent. One
/// that is not refused is noted, and makes its path current.
pub proof fn an_open_request_is_noted_or_refused(
    session: SessionView,
    request: RequestView,
    is_file: bool,
)
    ensures
        !has_root(request.path) ==> opened(session, request, is_file) == Err::<
            (SessionView, Seq<Event>),
            Seq<char>,
        >("not an absolute path: "@ + lossy_text(request.path)),
        has_root(request.path) && !is_file ==> opened(session, request, is_file) == Err::<
            (SessionView, Seq<Event>),
            Seq<char>,
        >("not a file: "@ + lossy_text(request.path)),
        has_root(request.path) && is_file ==> (opened(session, request, is_file) matches Ok(
            (next, events),
        ) && next.opened && same_path(next.path, request.path) && (events.contains(Event::Reload)
            <==> !same_path(session.path, request.path)) && (match request.line {
            Some(line) => events.len() > 0 && events.last() == Event::Scroll(line),
            None => forall|i: int| 0 <= i < events.len() ==> events[i] == Event::Reload,
        })),
{
    if has_root(request.path) && is_file {
        a_reload_means_another_document(session, request, None);
    }
}

/// An image that is shown is watched, unless its document is no longer current;
/// the images before it stay, in their order, and nothing else changes.
pub proof fn a_shown_image_is_watched(session: SessionView, doc: Seq<u8>, image: Seq<u8>)
    ensures
        ({
            let (next, changed) = shown(session, doc, image);
            &&& next.path == session.path && next.opened == session.opened
            &&& same_path(session.path, doc) ==> lists(next.images, image)
            &&& changed <==> same_path(session.path, doc) && !lists(session.images, image)
            &&& changed ==> next.images == session.images.push(image)
            &&& !changed ==> next.images == session.images
        }),
{
    lemma_lists_more(session.images, image);
    let more = session.images.push(image);
    assert(same_path(more[more.len() - 1], image));
}

/// Following a link to a Markdown file makes that file current, as switching to
/// it does; to anything else it does nothing, and says what it is.
pub proof fn following_a_link_switches(session: SessionView, path: Seq<u8>)
    ensures
        followed(session, None) == (session, Seq::<Event>::empty(), Followed::Missing),
        !names_markdown(path) ==> followed(session, Some(path)) == (
            session,
            Seq::<Event>::empty(),
            Followed::NotMarkdown,
        ),
        names_markdown(path) ==> followed(session, Some(path)) == (
            switched(session, path).0,
            switched(session, path).1,
            Followed::Current,
        ),
        well_formed(session) <==> distinct(session.images),
{
}

} // verus!
