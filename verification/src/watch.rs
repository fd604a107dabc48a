//! File-change watching.
//!
//! Editors typically save by writing a temporary file and renaming it over the
//! target, so a watch on the file itself can go stale. Instead the parent
//! directory is watched, events are filtered down to the target, and a short
//! debounce makes one signal of the burst that a single save produces.

use vstd::prelude::*;

use crate::path::{
    distinct, has_root, join, join_appends_the_name, lemma_lists_more, lemma_still_lists,
    list_holds, lists, names, parent, parent_drops_the_last_name, paths, same_path, FilePath, DOT,
};

verus! {

/// How long a burst of events is collected, in nanoseconds.
pub const DEBOUNCE: u128 = 80_000_000;

/// A path that an event is about.
#[derive(Debug)]
pub struct Touched {
    pub path: FilePath,
    /// The path with its symlinks resolved, if it can be resolved.
    pub canonical: Option<FilePath>,
}

/// An event of the file system.
#[derive(Debug)]
pub struct Change {
    /// Whether something was only accessed, for example read.
    pub access: bool,
    pub paths: Vec<Touched>,
}

/// Whether a path is `target`, as it stands or resolved.
pub open spec fn is_target(touched: Touched, target: Seq<u8>) -> bool {
    ||| same_path(touched.path@, target)
    ||| touched.canonical is Some && same_path(touched.canonical->0@, target)
}

/// Whether an event is about a change of `target`.
pub open spec fn changes(change: Change, target: Seq<u8>) -> bool {
    !change.access && exists|i: int|
        0 <= i < change.paths@.len() && is_target(#[trigger] change.paths@[i], target)
}

/// Whether an event, `None` if it could not be had, is about a change of
/// `target`.
pub open spec fn touches(event: Option<Change>, target: Seq<u8>) -> bool {
    event is Some && changes(event->0, target)
}

/// Decide whether an event refers to our target file. Pure access events (for
/// example reads) are ignored, so that opening the file in another tool does
/// not trigger a reload.
pub fn event_touches(event: &Option<Change>, target: &FilePath) -> (touched: bool)
    ensures
        touched == touches(*event, target@),
        touched <==> event is Some && !event->0.access && exists|i: int|
            0 <= i < event->0.paths@.len() && (same_path(
                (#[trigger] event->0.paths@[i]).path@,
                target@,
            ) || event->0.paths@[i].canonical is Some && same_path(
                event->0.paths@[i].canonical->0@,
                target@,
            )),
{
    let change = match event {
        Some(change) => change,
        None => return false,
    };
    if change.access {
        return false;
    }
    let mut i: usize = 0;
    while i < change.paths.len()
        invariant
            i <= change.paths@.len(),
            *event == Some(*change),
            !change.access,
            forall|j: int| 0 <= j < i ==> !is_target(#[trigger] change.paths@[j], target@),
        decreases change.paths@.len() - i,
    {
        let touched = &change.paths[i];
        if touched.path.is_same(target) {
            assert(is_target(change.paths@[i as int], target@));
            return true;
        }
        if let Some(canonical) = &touched.canonical {
            if canonical.is_same(target) {
                assert(is_target(change.paths@[i as int], target@));
                return true;
            }
        }
        i += 1;
    }
    false
}

/// Decide whether an event refers to any of the target files.
pub fn event_touches_any(event: &Option<Change>, targets: &Vec<FilePath>) -> (touched: bool)
    ensures
        touched == exists|i: int|
            0 <= i < targets@.len() && touches(*event, (#[trigger] targets@[i])@),
{
    let mut i: usize = 0;
    while i < targets.len()
        invariant
            i <= targets@.len(),
            forall|j: int| 0 <= j < i ==> !touches(*event, (#[trigger] targets@[j])@),
        decreases targets@.len() - i,
    {
        if event_touches(event, &targets[i]) {
            return true;
        }
        i += 1;
    }
    false
}

/// Where to watch for changes of `target`: in its parent directory, or in the
/// working directory if it has none.
pub open spec fn directory_of(target: Seq<u8>) -> Seq<u8> {
    match parent(target) {
        Some(dir) => dir,
        None => seq![DOT],
    }
}

/// The directory to watch for changes of `target`.
pub fn watch_dir(target: &FilePath) -> (dir: FilePath)
    ensures
        dir@ == directory_of(target@),
{
    match target.parent() {
        Some(dir) => dir,
        None => {
            let mut here: Vec<u8> = Vec::new();
            here.push(DOT);
            assert(here@ == seq![DOT]);
            FilePath::from_bytes(here)
        },
    }
}

/// The directories to watch for changes of `targets`, each of them once.
pub fn watch_dirs(targets: &Vec<FilePath>) -> (dirs: Vec<FilePath>)
    ensures
        distinct(paths(dirs@)),
        forall|i: int|
            0 <= i < targets@.len() ==> lists(
                paths(dirs@),
                directory_of((#[trigger] targets@[i])@),
            ),
        forall|dir: Seq<u8>| #[trigger]
            paths(dirs@).contains(dir) ==> exists|i: int|
                0 <= i < targets@.len() && directory_of((#[trigger] targets@[i])@) == dir,
{
    let mut dirs: Vec<FilePath> = Vec::new();
    let mut i: usize = 0;
    while i < targets.len()
        invariant
            i <= targets@.len(),
            distinct(paths(dirs@)),
            forall|k: int|
                0 <= k < i ==> lists(paths(dirs@), directory_of((#[trigger] targets@[k])@)),
            forall|dir: Seq<u8>| #[trigger]
                paths(dirs@).contains(dir) ==> exists|k: int|
                    0 <= k < targets@.len() && directory_of((#[trigger] targets@[k])@) == dir,
        decreases targets@.len() - i,
    {
        let dir = watch_dir(&targets[i]);
        if !list_holds(&dirs, &dir) {
            let ghost before = paths(dirs@);
            dirs.push(dir);
            let ghost after = paths(dirs@);
            assert(after == before.push(dir@));
            proof {
                lemma_lists_more(before, dir@);
                assert forall|k: int| 0 <= k < i implies lists(
                    after,
                    directory_of((#[trigger] targets@[k])@),
                ) by {
                    lemma_still_lists(before, dir@, directory_of(targets@[k]@));
                }
                assert forall|other: Seq<u8>| #[trigger] after.contains(other) implies exists|k: int|
                    0 <= k < targets@.len() && directory_of((#[trigger] targets@[k])@) == other by {
                    let w = choose|w: int| 0 <= w < after.len() && after[w] == other;
                    if w < before.len() {
                        assert(before[w] == other);
                        assert(before.contains(other));
                    } else {
                        assert(directory_of(targets@[i as int]@) == other);
                    }
                }
            }
        }
        i += 1;
    }
    dirs
}

/// Events of the file system on their way to signals.
#[derive(Debug, Clone, Copy, PartialEq, Eq, Structural)]
pub enum Debounce {
    /// Nothing has happened.
    Idle,
    /// The events of a burst are collected until `deadline`, in nanoseconds of
    /// some clock. One of them was about the target if `relevant`.
    Collecting { deadline: u128, relevant: bool },
    /// The watch is over.
    Stopped,
}

/// What happens to a watch.
#[derive(Debug, Clone, Copy, PartialEq, Eq, Structural)]
pub enum Stimulus {
    /// An event, which is about the target if `relevant`.
    Event { relevant: bool },
    /// No event: there was none in time, or there will be no more.
    Nothing,
    /// The signal was sent, or there is nobody left to hear it.
    Sent(bool),
}

/// What a watch does next.
#[derive(Debug, Clone, Copy, PartialEq, Eq, Structural)]
pub enum Response {
    /// Wait for an event.
    Wait,
    /// Wait for an event, this many nanoseconds.
    WaitFor(u128),
    /// Send the signal.
    Signal,
    /// Stop watching.
    Stop,
}

/// What follows when a burst is over.
pub open spec fn burst_over(relevant: bool) -> (Debounce, Response) {
    if relevant {
        (Debounce::Idle, Response::Signal)
    } else {
        (Debounce::Idle, Response::Wait)
    }
}

/// What follows while a burst is collected.
pub open spec fn collecting(deadline: u128, relevant: bool, now: u128) -> (Debounce, Response) {
    if now >= deadline {
        burst_over(relevant)
    } else {
        (Debounce::Collecting { deadline, relevant }, Response::WaitFor((deadline - now) as u128))
    }
}

/// What follows from a stimulus at the time `now`.
pub open spec fn stimulated(state: Debounce, stimulus: Stimulus, now: u128) -> (
    Debounce,
    Response,
) {
    match (state, stimulus) {
        (Debounce::Idle, Stimulus::Event { relevant }) => collecting(
            (now + DEBOUNCE) as u128,
            relevant,
            now,
        ),
        (Debounce::Idle, Stimulus::Sent(true)) => (Debounce::Idle, Response::Wait),
        (Debounce::Collecting { deadline, relevant }, Stimulus::Event { relevant: more }) =>
            collecting(deadline, relevant || more, now),
        (Debounce::Collecting { relevant, .. }, Stimulus::Nothing) => burst_over(relevant),
        _ => (Debounce::Stopped, Response::Stop),
    }
}

impl Debounce {
    /// Go on with a stimulus at the time `now`, in nanoseconds.
    pub fn step(self, stimulus: Stimulus, now: u128) -> (then: (Debounce, Response))
        requires
            self is Idle && stimulus is Event ==> now + DEBOUNCE <= u128::MAX,
        ensures
            then == stimulated(self, stimulus, now),
    {
        let (deadline, relevant) = match (self, stimulus) {
            (Debounce::Idle, Stimulus::Event { relevant }) => (now + DEBOUNCE, relevant),
            (Debounce::Idle, Stimulus::Sent(true)) => return (Debounce::Idle, Response::Wait),
            (Debounce::Collecting { deadline, relevant }, Stimulus::Event { relevant: more }) => (
                deadline,
                relevant || more,
            ),
            (Debounce::Collecting { relevant, .. }, Stimulus::Nothing) => (now, relevant),
            _ => return (Debounce::Stopped, Response::Stop),
        };
        if now < deadline {
            (Debounce::Collecting { deadline, relevant }, Response::WaitFor(deadline - now))
        } else if relevant {
            (Debounce::Idle, Response::Signal)
        } else {
            (Debounce::Idle, Response::Wait)
        }
    }
}

/// How far a watch has come that was idle, then saw an event at `start`, and
/// then the events of `more`, each at its time.
pub open spec fn in_burst(first: bool, start: u128, more: Seq<(bool, u128)>) -> Debounce
    decreases more.len(),
{
    if more.len() == 0 {
        stimulated(Debounce::Idle, Stimulus::Event { relevant: first }, start).0
    } else {
        stimulated(
            in_burst(first, start, more.drop_last()),
            Stimulus::Event { relevant: more.last().0 },
            more.last().1,
        ).0
    }
}

/// Whether any of the events of a burst is about the target.
pub open spec fn any_relevant(first: bool, more: Seq<(bool, u128)>) -> bool {
    first || exists|i: int| 0 <= i < more.len() && (#[trigger] more[i]).0
}

/// A burst is collected until a fixed time after its first event: later ones
/// do not put off its end. When nothing more comes, it makes one signal if any
/// of its events is about the target, and none otherwise.
pub proof fn a_burst_makes_one_signal(
    first: bool,
    start: u128,
    more: Seq<(bool, u128)>,
    now: u128,
)
    requires
        start + DEBOUNCE <= u128::MAX,
        forall|i: int|
            0 <= i < more.len() ==> start <= (#[trigger] more[i]).1 < start + DEBOUNCE,
    ensures
        in_burst(first, start, more) == (Debounce::Collecting {
            deadline: (start + DEBOUNCE) as u128,
            relevant: any_relevant(first, more),
        }),
        stimulated(in_burst(first, start, more), Stimulus::Nothing, now) == (
            Debounce::Idle,
            if any_relevant(first, more) {
                Response::Signal
            } else {
                Response::Wait
            },
        ),
    decreases more.len(),
{
    if more.len() > 0 {
        let fewer = more.drop_last();
        assert forall|i: int| 0 <= i < fewer.len() implies start <= (#[trigger] fewer[i]).1 < start
            + DEBOUNCE by {
            assert(fewer[i] == more[i]);
        }
        a_burst_makes_one_signal(first, start, fewer, now);
        assert(more[more.len() - 1] == more.last());
        if exists|i: int| 0 <= i < fewer.len() && (#[trigger] fewer[i]).0 {
            let w = choose|i: int| 0 <= i < fewer.len() && (#[trigger] fewer[i]).0;
            assert(more[w].0);
        }
        if exists|i: int| 0 <= i < more.len() && (#[trigger] more[i]).0 {
            let w = choose|i: int| 0 <= i < more.len() && (#[trigger] more[i]).0;
            if w < fewer.len() {
                assert(fewer[w].0);
            }
        }
    }
}

/// Reading a file never makes its preview reload.
pub proof fn access_is_no_change(change: Change, target: Seq<u8>)
    requires
        change.access,
    ensures
        !touches(Some(change), target),
{
}

/// An event that is no access and names the target touches it, whatever the
/// path resolves to; so does one that names a path that resolves to the target,
/// whatever that path is as it stands.
pub proof fn naming_the_target_is_enough(change: Change, i: int, target: Seq<u8>)
    requires
        !change.access,
        0 <= i < change.paths@.len(),
        same_path(change.paths@[i].path@, target) || (change.paths@[i].canonical matches Some(
            resolved,
        ) && same_path(resolved@, target)),
    ensures
        touches(Some(change), target),
{
    assert(is_target(change.paths@[i], target));
}

/// An event that names only other paths, which resolve to other paths or to
/// none, touches nothing; nor does one that could not be had.
pub proof fn other_paths_do_not_touch(change: Change, target: Seq<u8>)
    requires
        forall|i: int|
            0 <= i < change.paths@.len() ==> {
                let touched = #[trigger] change.paths@[i];
                &&& !same_path(touched.path@, target)
                &&& touched.canonical matches Some(resolved) ==> !same_path(resolved@, target)
            },
    ensures
        !touches(Some(change), target),
        !touches(None, target),
{
    if touches(Some(change), target) {
        let w = choose|w: int|
            0 <= w < change.paths@.len() && is_target(#[trigger] change.paths@[w], target);
        assert(is_target(change.paths@[w], target));
    }
}

/// More paths, and paths that are resolved, never make a relevant event
/// irrelevant.
pub proof fn more_paths_touch_no_less(change: Change, more: Change, target: Seq<u8>)
    requires
        touches(Some(change), target),
        more.access == change.access,
        forall|i: int|
            0 <= i < change.paths@.len() ==> exists|j: int|
                0 <= j < more.paths@.len() && (#[trigger] more.paths@[j]).path@ == (
                #[trigger] change.paths@[i]).path@ && (change.paths@[i].canonical is Some
                    ==> more.paths@[j].canonical == change.paths@[i].canonical),
    ensures
        touches(Some(more), target),
{
    let w = choose|w: int|
        0 <= w < change.paths@.len() && is_target(#[trigger] change.paths@[w], target);
    let j = choose|j: int|
        0 <= j < more.paths@.len() && (#[trigger] more.paths@[j]).path@ == change.paths@[w].path@
            && (change.paths@[w].canonical is Some ==> more.paths@[j].canonical
            == change.paths@[w].canonical);
    assert(is_target(more.paths@[j], target));
}

/// A file is watched for in the directory that it is in: its parent, or, where
/// it has none, the working directory.
pub proof fn a_file_is_watched_where_it_is(dir: Seq<u8>, name: Seq<u8>, target: Seq<u8>)
    requires
        !name.contains('/' as u8),
        name.len() > 0,
        name != seq!['.' as u8],
    ensures
        names(directory_of(join(dir, name))) == names(dir),
        has_root(directory_of(join(dir, name))) == has_root(dir),
        parent(target) matches Some(up) ==> directory_of(target) == up,
        parent(target) is None ==> directory_of(target) == seq!['.' as u8],
{
    join_appends_the_name(dir, name);
    parent_drops_the_last_name(join(dir, name));
    assert(names(dir).push(name).drop_last() == names(dir));
}

/// A burst starts with any event while the watch is idle, and lasts 80
/// milliseconds from then; an event that comes later than that ends it at once;
/// and a watch stops where its events end, or where nobody hears its signals.
pub proof fn a_burst_lasts_its_time(
    relevant: bool,
    more: bool,
    deadline: u128,
    now: u128,
    stimulus: Stimulus,
)
    requires
        now + 80_000_000 <= u128::MAX,
    ensures
        stimulated(Debounce::Idle, Stimulus::Event { relevant }, now) == (
            Debounce::Collecting { deadline: (now + 80_000_000) as u128, relevant },
            Response::WaitFor(80_000_000),
        ),
        now < deadline ==> stimulated(
            Debounce::Collecting { deadline, relevant },
            Stimulus::Event { relevant: more },
            now,
        ) == (
            Debounce::Collecting { deadline, relevant: relevant || more },
            Response::WaitFor((deadline - now) as u128),
        ),
        now >= deadline ==> stimulated(
            Debounce::Collecting { deadline, relevant },
            Stimulus::Event { relevant: more },
            now,
        ) == (
            Debounce::Idle,
            if relevant || more {
                Response::Signal
            } else {
                Response::Wait
            },
        ),
        stimulated(Debounce::Collecting { deadline, relevant }, Stimulus::Nothing, now) == (
            Debounce::Idle,
            if relevant {
                Response::Signal
            } else {
                Response::Wait
            },
        ),
        stimulated(Debounce::Idle, Stimulus::Sent(true), now) == (Debounce::Idle, Response::Wait),
        stimulated(Debounce::Idle, Stimulus::Sent(false), now) == (
            Debounce::Stopped,
            Response::Stop,
        ),
        stimulated(Debounce::Idle, Stimulus::Nothing, now) == (Debounce::Stopped, Response::Stop),
        stimulated(Debounce::Collecting { deadline, relevant }, Stimulus::Sent(more), now) == (
            Debounce::Stopped,
            Response::Stop,
        ),
        stimulated(Debounce::Stopped, stimulus, now) == (Debounce::Stopped, Response::Stop),
{
}

} // verus!
