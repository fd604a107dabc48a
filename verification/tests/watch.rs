//! Watching for changes.

use mdpreviewer::path::FilePath;
use mdpreviewer::watch::{
    event_touches, event_touches_any, watch_dir, watch_dirs, Change, Debounce, Response, Stimulus,
    Touched, DEBOUNCE,
};

fn path(text: &str) -> FilePath {
    FilePath::from_text(text)
}

fn change(access: bool, touched: &[(&str, Option<&str>)]) -> Option<Change> {
    Some(Change {
        access,
        paths: touched
            .iter()
            .map(|(text, canonical)| Touched {
                path: path(text),
                canonical: canonical.map(path),
            })
            .collect(),
    })
}

#[test]
fn events_are_filtered_down_to_the_target() {
    let target = path("/d/a.md");
    let touches = |event: Option<Change>| event_touches(&event, &target);
    assert!(touches(change(false, &[("/d/a.md", None)])));
    assert!(touches(change(false, &[("/x", None), ("/d/./a.md", None)])));
    assert!(touches(change(false, &[("/link.md", Some("/d/a.md"))])));
    assert!(!touches(change(false, &[("/d/b.md", Some("/d/b.md"))])));
    assert!(!touches(change(false, &[])));
    // Reading the file is no change, and an error is no event.
    assert!(!touches(change(true, &[("/d/a.md", None)])));
    assert!(!touches(None));
}

#[test]
fn any_of_several_targets_counts() {
    let targets = vec![path("/d/a.png"), path("/e/b.png")];
    let event = change(false, &[("/e/b.png", None)]);
    assert!(event_touches_any(&event, &targets));
    assert!(!event_touches_any(&event, &vec![path("/d/a.png")]));
    assert!(!event_touches_any(&event, &vec![]));
}

#[test]
fn directories_are_watched_once() {
    assert_eq!(watch_dir(&path("/d/a.md")), path("/d"));
    assert_eq!(watch_dir(&path("/")), path("."));
    let targets = vec![path("/d/a.png"), path("/e/b.png"), path("/d//c.png")];
    assert_eq!(watch_dirs(&targets), vec![path("/d"), path("/e")]);
    assert_eq!(watch_dirs(&vec![]), vec![]);
}

fn event(relevant: bool) -> Stimulus {
    Stimulus::Event { relevant }
}

#[test]
fn a_burst_makes_one_signal() {
    let (state, response) = Debounce::Idle.step(event(false), 1000);
    assert_eq!(response, Response::WaitFor(DEBOUNCE));
    let (state, response) = state.step(event(true), 1001);
    assert_eq!(response, Response::WaitFor(DEBOUNCE - 1));
    // Later events do not put off its end.
    let (state, response) = state.step(event(false), 2000);
    assert_eq!(response, Response::WaitFor(DEBOUNCE - 1000));
    let (state, response) = state.step(Stimulus::Nothing, 1000 + DEBOUNCE);
    assert_eq!(response, Response::Signal);
    let (state, response) = state.step(Stimulus::Sent(true), 1000 + DEBOUNCE);
    assert_eq!((state, response), (Debounce::Idle, Response::Wait));
}

#[test]
fn a_burst_that_outlasts_its_time_signals_at_once() {
    let (state, _) = Debounce::Idle.step(event(false), 0);
    let (state, response) = state.step(event(true), DEBOUNCE);
    assert_eq!((state, response), (Debounce::Idle, Response::Signal));
}

#[test]
fn other_files_make_no_signal() {
    let (state, _) = Debounce::Idle.step(event(false), 0);
    let (state, _) = state.step(event(false), 1);
    let (state, response) = state.step(Stimulus::Nothing, DEBOUNCE);
    assert_eq!((state, response), (Debounce::Idle, Response::Wait));
}

#[test]
fn a_watch_stops_with_its_source_or_its_listener() {
    let stopped = (Debounce::Stopped, Response::Stop);
    assert_eq!(Debounce::Idle.step(Stimulus::Nothing, 0), stopped);
    assert_eq!(Debounce::Idle.step(Stimulus::Sent(false), 0), stopped);
    assert_eq!(Debounce::Stopped.step(event(true), 0), stopped);
}
