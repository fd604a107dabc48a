//! The server: events, idling, routes, links, images, and the session.

use std::time::Duration;

use mdpreviewer::control::{Reply, Request};
use mdpreviewer::event::{next_frame, sse_frame, Arrival, Event, CONNECTED, EVENTS_HEAD};
use mdpreviewer::idle::{IdleClock, IDLE_GRACE, STEP as MONITOR_STEP};
use mdpreviewer::path::FilePath;
use mdpreviewer::percent::{percent_decode, percent_encode};
use mdpreviewer::server::{
    content_headers, content_page, file_headers, file_link, file_target, image_type, link_status,
    link_target, link_text, monitor, not_found, probe, refuse_link, route, Asset, Config, HeaderLine, Probe, Route,
    Status,
};
use mdpreviewer::session::{rewatch, Followed, Rewatch, Session};

const STEP: Duration = Duration::from_secs(3);

fn path(text: &str) -> FilePath {
    FilePath::from_text(text)
}

fn clock(grace: Duration) -> IdleClock {
    IdleClock::new(grace.as_nanos())
}

#[test]
fn the_server_idles_out_after_the_grace_period() {
    let mut clock = clock(Duration::from_secs(15));
    // Not armed until a first client connects.
    assert!(!clock.tick((STEP * 10).as_nanos(), false, 0, false));
    for _ in 0..4 {
        assert!(!clock.tick(STEP.as_nanos(), true, 0, false));
    }
    assert!(clock.tick(STEP.as_nanos(), true, 0, false));
}

#[test]
fn an_open_request_restarts_the_idle_countdown() {
    let mut clock = clock(Duration::from_secs(15));
    for _ in 0..4 {
        assert!(!clock.tick(STEP.as_nanos(), true, 0, false));
    }
    // The CLI was told there are no clients and is opening a tab: give it
    // the full grace period to connect.
    assert!(!clock.tick(STEP.as_nanos(), true, 0, true));
    for _ in 0..4 {
        assert!(!clock.tick(STEP.as_nanos(), true, 0, false));
    }
    assert!(clock.tick(STEP.as_nanos(), true, 0, false));
}

#[test]
fn reload_is_a_named_event_with_empty_data() {
    assert_eq!(sse_frame(Event::Reload), "event: reload\ndata:\n\n");
}

#[test]
fn scroll_carries_the_line() {
    assert_eq!(sse_frame(Event::Scroll(42)), "event: scroll\ndata: 42\n\n");
    assert_eq!(sse_frame(Event::Images), "event: images\ndata:\n\n");
}

#[test]
fn file_names_are_percent_encoded_for_the_header() {
    assert_eq!(percent_encode("notes-2026_v1.md"), "notes-2026_v1.md");
    assert_eq!(percent_encode("café notes.md"), "caf%C3%A9%20notes.md");
}

#[test]
fn percent_decoding_undoes_the_encoding() {
    assert_eq!(
        percent_decode("caf%C3%A9%20notes.md").as_deref(),
        Some("café notes.md")
    );
    assert_eq!(
        percent_decode("..%2fimg%2Fa.png").as_deref(),
        Some("../img/a.png")
    );
    // A `%` that starts no escape is kept as written.
    assert_eq!(percent_decode("100%.md").as_deref(), Some("100%.md"));
    assert_eq!(percent_decode("%zz").as_deref(), Some("%zz"));
    assert_eq!(percent_decode("%+1").as_deref(), Some("%+1"));
    // Bytes that are not UTF-8 have no path to name.
    assert_eq!(percent_decode("%FF"), None);
}

#[test]
fn only_images_have_a_served_type() {
    assert_eq!(image_type(&path("a/b.PNG")), Some("image/png"));
    assert_eq!(image_type(&path("b.jpeg")), Some("image/jpeg"));
    assert_eq!(image_type(&path("b.svg")), Some("image/svg+xml"));
    for no in ["b.md", "id_rsa", "b.txt", "b.png.bak"] {
        assert_eq!(image_type(&path(no)), None, "{no}");
    }
}

#[test]
fn every_image_type_is_known() {
    for (name, expected) in [
        ("a.jpg", "image/jpeg"),
        ("a.gif", "image/gif"),
        ("a.webp", "image/webp"),
        ("a.AVIF", "image/avif"),
        ("a.bmp", "image/bmp"),
        ("a.ico", "image/x-icon"),
    ] {
        assert_eq!(image_type(&path(name)), Some(expected), "{name}");
    }
    assert_eq!(image_type(&path(".png")), None);
    assert_eq!(image_type(&path("png")), None);
}

#[test]
fn every_text_survives_percent_encoding() {
    for text in ["", "%", "%41", "a b+c", "日本語.md", "\u{0}\u{7f}\u{80}\u{10ffff}"] {
        let encoded = percent_encode(text);
        let plain = |ch: char| ch.is_ascii_alphanumeric() || "-._~%".contains(ch);
        assert!(encoded.chars().all(plain), "{encoded}");
        assert_eq!(percent_decode(&encoded).as_deref(), Some(text));
    }
    assert_eq!(percent_encode("~-._%"), "~-._%25");
    assert_eq!(percent_decode("plain, é").as_deref(), Some("plain, é"));
    assert_eq!(percent_decode("%4"), Some("%4".into()));
    assert_eq!(percent_decode("%25%34%31").as_deref(), Some("%41"));
}

#[test]
fn a_client_or_none_ever_keeps_the_server() {
    let mut clock = IdleClock::new(IDLE_GRACE);
    for _ in 0..10 {
        assert!(!clock.tick(MONITOR_STEP, false, 0, false));
        assert!(!clock.tick(MONITOR_STEP, true, 1, false));
    }
    assert_eq!(clock.idle_time(), 0);
    assert!(!clock.tick(IDLE_GRACE - 1, true, 0, false));
    assert_eq!(clock.idle_time(), IDLE_GRACE - 1);
    assert!(clock.tick(1, true, 0, false));
    // Without a grace period the first idle step is enough.
    assert!(IdleClock::new(0).tick(0, true, 0, false));
    assert!(!IdleClock::new(0).tick(1, false, 0, false));
}

#[test]
fn a_server_without_a_grace_period_never_exits() {
    let config = |idle_grace: Option<u128>| Config {
        url: "http://u/".into(),
        idle_grace,
        control: None,
        exit_on_quit: false,
    };
    assert!(monitor(&config(None)).is_none());
    let mut clock = monitor(&config(Some(2))).unwrap();
    assert_eq!(clock.idle_time(), 0);
    assert!(!clock.tick(1, true, 0, false));
    assert!(clock.tick(1, true, 0, false));
}

#[test]
fn watches_are_replaced_with_the_document() {
    let plan = |document: bool, images: bool| Rewatch { document, images };
    assert_eq!(rewatch(&vec![], false), plan(false, false));
    assert_eq!(rewatch(&vec![], true), plan(false, true));
    assert_eq!(rewatch(&vec![Event::Scroll(1)], false), plan(false, false));
    assert_eq!(
        rewatch(&vec![Event::Scroll(1), Event::Reload], false),
        plan(true, false)
    );
}

#[test]
fn silence_makes_a_heartbeat() {
    assert_eq!(next_frame(Arrival::Quiet).as_deref(), Some(": ping\n\n"));
    assert_eq!(
        next_frame(Arrival::Event(Event::Scroll(u32::MAX))).as_deref(),
        Some("event: scroll\ndata: 4294967295\n\n")
    );
    assert_eq!(next_frame(Arrival::Closed), None);
    assert!(EVENTS_HEAD.starts_with("HTTP/1.1 200 OK\r\nContent-Type: text/event-stream\r\n"));
    assert!(EVENTS_HEAD.ends_with("\r\n\r\n"));
    assert_eq!(CONNECTED, ": connected\n\n");
}

#[test]
fn a_frame_is_one_event() {
    for event in [Event::Reload, Event::Images, Event::Scroll(0), Event::Ping] {
        let frame = sse_frame(event);
        assert_eq!(frame.find("\n\n"), Some(frame.len() - 2), "{frame:?}");
    }
}

#[test]
fn urls_are_routed_by_their_path() {
    assert_eq!(route("/"), Route::Asset(Asset::Shell));
    assert_eq!(route("/?x=1"), Route::Asset(Asset::Shell));
    assert_eq!(route("/content"), Route::Content);
    assert_eq!(route("/events"), Route::Events);
    assert_eq!(route("/open"), Route::Open);
    assert_eq!(
        route("/file?path=a?b&c"),
        Route::File("path=a?b&c".into())
    );
    assert_eq!(route("/file"), Route::File("".into()));
    assert_eq!(route("/assets/app.css"), Route::Asset(Asset::AppCss));
    assert_eq!(route("/assets/app.js"), Route::Asset(Asset::AppJs));
    assert_eq!(
        route("/assets/github-markdown.css"),
        Route::Asset(Asset::GithubMarkdownCss)
    );
    assert_eq!(
        route("/assets/mermaid.min.js"),
        Route::Asset(Asset::MermaidJs)
    );
    assert_eq!(route("/content/"), Route::NotFound);
    assert_eq!(route(""), Route::NotFound);
}

#[test]
fn assets_have_their_content_types() {
    assert_eq!(Asset::Shell.content_type(), "text/html; charset=utf-8");
    assert_eq!(Asset::AppCss.content_type(), "text/css; charset=utf-8");
    assert_eq!(
        Asset::GithubMarkdownCss.content_type(),
        "text/css; charset=utf-8"
    );
    assert_eq!(Asset::AppJs.content_type(), "text/javascript; charset=utf-8");
    assert_eq!(
        Asset::MermaidJs.content_type(),
        "text/javascript; charset=utf-8"
    );
}

fn fields(names: &[&str]) -> Vec<String> {
    names.iter().map(|name| name.to_string()).collect()
}

#[test]
fn only_the_page_may_follow_a_link() {
    let refused = |method: &str, names: &[&str]| refuse_link(method, &fields(names));
    assert_eq!(refused("POST", &["Host", "X-Mdpreviewer"]), None);
    // Header names ignore case, as long as they are ASCII.
    assert_eq!(refused("POST", &["x-mdPREVIEWER"]), None);
    let missing = Some(Status {
        code: 403,
        reason: "missing X-Mdpreviewer header",
    });
    assert_eq!(refused("POST", &[]), missing);
    assert_eq!(refused("POST", &["X-Mdpreviewer-File", "Host"]), missing);
    assert_eq!(refused("POST", &["X-Mdpréviewer", "X-Mdpreviewer "]), missing);
    let wrong_method = Some(Status {
        code: 405,
        reason: "use POST",
    });
    assert_eq!(refused("GET", &["X-Mdpreviewer"]), wrong_method);
    assert_eq!(refused("post", &["X-Mdpreviewer"]), wrong_method);
    assert_eq!(refused("OPTIONS", &[]), wrong_method);
}

#[test]
fn a_link_body_is_text_of_bounded_length() {
    assert_eq!(link_text("b.md".into()), Ok("b.md".into()));
    assert_eq!(
        link_text(vec![0xff]),
        Err(Status {
            code: 400,
            reason: "the link is not UTF-8"
        })
    );
    assert_eq!(link_text(vec![97; 5000]).unwrap().len(), 4096);
    // The limit cuts the last character in two.
    let mut long = vec![97; 4095];
    long.extend("é".bytes());
    assert_eq!(link_text(long).unwrap_err().code, 400);
}

#[test]
fn links_lead_below_the_directory_of_the_document() {
    let doc = path("/notes/docs/a.md");
    let target = |link: &str| link_target(&doc, link);
    assert_eq!(target("b.md"), Some(path("/notes/docs/b.md")));
    assert_eq!(
        target("../b%20c.md").unwrap().as_bytes(),
        "/notes/docs/../b c.md".as_bytes()
    );
    assert_eq!(target(""), None);
    assert_eq!(target("/etc/passwd"), None);
    assert_eq!(target("%2Fetc/passwd"), None);
    assert_eq!(target("%FF.md"), None);
    assert_eq!(link_target(&path("/"), "a.md"), None);
    assert_eq!(target(&percent_encode("a.md")), Some(doc.clone()));
}

#[test]
fn a_file_query_names_a_link() {
    assert_eq!(
        file_link("path=..%2Fimg%2Fdot.png").as_deref(),
        Some("../img/dot.png")
    );
    assert_eq!(
        file_link("v=2&path=a.png&path=b.png").as_deref(),
        Some("a.png")
    );
    assert_eq!(file_link(""), None);
    assert_eq!(file_link("xpath=a.png"), None);
    assert_eq!(file_link("path=%FF&path=a.png"), None);
    assert_eq!(file_link("path=").as_deref(), Some(""));
    // The query's encoding is undone, then the link's own.
    assert_eq!(
        file_target(&path("/d/a.md"), "path=my%2520dot.png"),
        Some(path("/d/my dot.png"))
    );
    assert_eq!(file_target(&path("/d/a.md"), "path="), None);
}

#[test]
fn images_are_served_in_a_sandbox() {
    let lines = file_headers("image/png");
    let expected = [
        ("Content-Type", "image/png"),
        ("Content-Security-Policy", "sandbox"),
        ("X-Content-Type-Options", "nosniff"),
        ("Cache-Control", "no-cache"),
    ];
    assert_eq!(lines.len(), expected.len());
    for (line, (name, value)) in lines.iter().zip(expected) {
        assert_eq!((line.name, line.value.as_str()), (name, value));
    }
}

#[test]
fn statuses_of_links() {
    assert_eq!(link_status(Followed::Missing).code, 404);
    assert_eq!(link_status(Followed::Missing).reason, "no such file");
    assert_eq!(link_status(Followed::NotMarkdown).code, 400);
    assert_eq!(
        link_status(Followed::NotMarkdown).reason,
        "not a Markdown file"
    );
    assert_eq!(link_status(Followed::Current).code, 204);
    assert_eq!(not_found().code, 404);
    assert_eq!(not_found().reason, "not found");
}

#[test]
fn a_document_is_served_under_its_name() {
    let title = |file: FilePath| {
        let mut lines: Vec<HeaderLine> = content_headers(&file);
        let last = lines.pop().unwrap();
        assert_eq!(last.name, "X-Mdpreviewer-File");
        assert_eq!(lines.len(), 1);
        assert_eq!(lines[0].name, "Content-Type");
        assert_eq!(lines[0].value, "text/html; charset=utf-8");
        last.value
    };
    assert_eq!(title(path("/d/café notes.md")), "caf%C3%A9%20notes.md");
    assert_eq!(title(path("/")), "");
    assert_eq!(
        title(FilePath::from_bytes(vec![47, 255, 46, 109, 100])),
        "%EF%BF%BD.md"
    );
}

#[test]
fn a_document_that_cannot_be_read_says_so() {
    assert_eq!(
        content_page(&path("/d/a.md"), Err("gone".into())),
        "<h1>mdpreviewer</h1><p>Could not read <code>/d/a.md</code>: gone</p>"
    );
    assert_eq!(
        content_page(&path("/d/b.md"), Ok("# B\n".into())),
        "<h1 data-sourcepos=\"1:1-1:3\">B</h1>\n"
    );
}

#[test]
fn closed_tabs_drop_out_after_two_pings() {
    assert_eq!(probe(0, 2), Probe::Ping);
    assert_eq!(probe(1, 1), Probe::Ping);
    assert_eq!(probe(2, 1), Probe::Done(1));
    assert_eq!(probe(0, 0), Probe::Done(0));
    assert_eq!(probe(1, 0), Probe::Done(0));
}

fn request(text: &str, line: Option<u32>) -> Request {
    Request {
        path: path(text),
        line,
    }
}

#[test]
fn opening_the_current_document_scrolls_without_reloading() {
    let mut session = Session::new(path("/d/a.md"));
    assert!(!session.take_opened());
    assert_eq!(
        session.open(request("/d/a.md", Some(3)), true),
        Ok(vec![Event::Scroll(3)])
    );
    assert_eq!(session.open(request("/d/./a.md", None), true), Ok(vec![]));
    assert!(session.take_opened());
    assert!(!session.take_opened());
}

#[test]
fn opening_another_document_reloads_and_drops_the_images() {
    let mut session = Session::new(path("/d/a.md"));
    let doc = path("/d/a.md");
    assert!(session.watch_image(&doc, path("/d/x.png")));
    assert!(!session.watch_image(&doc, path("/d//x.png")));
    assert!(session.watch_image(&doc, path("/d/y.png")));
    assert_eq!(session.images().len(), 2);
    assert_eq!(
        session.open(request("/d/b.md", Some(1)), true),
        Ok(vec![Event::Reload, Event::Scroll(1)])
    );
    assert_eq!(session.path(), &path("/d/b.md"));
    assert!(session.images().is_empty());
    // The old document's images are no longer of interest.
    assert!(!session.watch_image(&doc, path("/d/x.png")));
    assert!(session.images().is_empty());
}

#[test]
fn a_refused_request_changes_nothing() {
    let mut session = Session::new(path("/d/a.md"));
    assert_eq!(
        session.open(request("b.md", Some(1)), true),
        Err(Reply::Refused("not an absolute path: b.md".into()))
    );
    assert_eq!(
        session.open(request("/d/nope.md", Some(1)), false),
        Err(Reply::Refused("not a file: /d/nope.md".into()))
    );
    assert_eq!(session.path(), &path("/d/a.md"));
    assert!(!session.take_opened());
}

#[test]
fn only_a_link_to_markdown_is_followed() {
    let mut session = Session::new(path("/d/a.md"));
    assert_eq!(session.follow(None), (vec![], Followed::Missing));
    assert_eq!(
        session.follow(Some(path("/d/notes.txt"))),
        (vec![], Followed::NotMarkdown)
    );
    assert_eq!(session.path(), &path("/d/a.md"));
    assert_eq!(
        session.follow(Some(path("/d/b.markdown"))),
        (vec![Event::Reload], Followed::Current)
    );
    assert_eq!(
        session.follow(Some(path("/d/b.markdown"))),
        (vec![], Followed::Current)
    );
    assert!(!session.take_opened());
}
