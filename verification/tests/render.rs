//! Rendering.

use mdpreviewer::path::FilePath;
use mdpreviewer::render::{
    assemble_page, is_markdown, render_front_matter, render_markdown, FrontMatter,
};

#[test]
fn front_matter_renders_as_collapsed_yaml_block() {
    let html = render_markdown("---\ntitle: Hello\ntags: [a, b]\n---\n# Body\n");
    assert!(
        html.starts_with("<details class=\"frontmatter\" data-sourcepos=\"1:1-4:3\">"),
        "{html}"
    );
    assert!(
        html.contains("<code class=\"language-yaml\">title: Hello\ntags: [a, b]</code>"),
        "{html}"
    );
    // Line numbers count the front matter, matching the editor's cursor line.
    assert!(
        html.contains("<h1 data-sourcepos=\"5:1-5:6\">Body</h1>"),
        "{html}"
    );
    // The closing fence must not turn the YAML into a setext heading.
    assert!(!html.contains("<h2"), "{html}");
    assert!(!html.contains("---"), "{html}");
}

#[test]
fn front_matter_is_escaped() {
    let html = render_markdown("---\ndesc: \"<b>&</b>\"\n---\n");
    assert!(
        html.contains("desc: &quot;&lt;b&gt;&amp;&lt;/b&gt;&quot;"),
        "{html}"
    );
}

#[test]
fn documents_without_front_matter_are_unchanged() {
    let html = render_markdown("# Title\n\ntext\n");
    assert_eq!(
        html,
        "<h1 data-sourcepos=\"1:1-1:7\">Title</h1>\n<p data-sourcepos=\"3:1-3:4\">text</p>\n"
    );
}

#[test]
fn mid_document_rule_is_not_front_matter() {
    let html = render_markdown("intro\n\n---\n\nmore\n");
    assert!(!html.contains("frontmatter"), "{html}");
    assert!(html.contains("<hr data-sourcepos=\"3:1-3:3\" />"), "{html}");
}

#[test]
fn mermaid_fences_keep_their_source_position() {
    let html = render_markdown("text\n\n```mermaid\nflowchart LR\n```\n");
    assert!(
        html.contains("<pre data-sourcepos=\"3:1-5:3\"><code class=\"language-mermaid\">"),
        "{html}"
    );
}

/// What is shown of a document's front matter, with its position.
fn shown(markdown: &str) -> Option<(String, String)> {
    let html = render_markdown(markdown);
    let rest = html.strip_prefix("<details class=\"frontmatter\" data-sourcepos=\"")?;
    let (position, rest) = rest.split_once('"')?;
    let (_, rest) = rest.split_once("<code class=\"language-yaml\">")?;
    let (yaml, _) = rest.split_once("</code>")?;
    Some((position.into(), yaml.into()))
}

fn found(position: &str, yaml: &str) -> Option<(String, String)> {
    Some((position.into(), yaml.into()))
}

#[test]
fn front_matter_needs_both_delimiter_lines() {
    assert_eq!(shown("---\na: 1\n---\n"), found("1:1-3:3", "a: 1"));
    assert_eq!(shown("---\na: 1\n---"), found("1:1-3:3", "a: 1"));
    assert_eq!(shown("---\n\n---\n"), found("1:1-3:3", ""));
    assert_eq!(shown("---\na: 1\n\n---\n\n\nx\n"), found("1:1-4:3", "a: 1"));
    assert_eq!(shown("\u{feff}---\na: 1\n---\nx\n"), found("1:1-3:3", "a: 1"));
    for none in [
        "",
        "---",
        "---\n",
        "---\n---\n",
        "---\na: 1\n",
        "--- \na: 1\n---\n",
        "----\na: 1\n----\n",
        "---\na: 1\n---x\n",
        "---\na: 1\n --- \n",
        "\n---\na: 1\n---\n",
        "\u{feff}\u{feff}---\na: 1\n---\n",
        "---\ra: 1\r---\r",
    ] {
        assert_eq!(shown(none), None, "{none:?}");
    }
}

#[test]
fn front_matter_may_end_its_lines_with_a_carriage_return() {
    assert_eq!(
        shown("---\r\na: 1\r\n---\r\n\r\nx\r\n"),
        found("1:1-3:3", "\r\na: 1\r")
    );
    // A closing line that ends so is taken before one that does not.
    assert_eq!(
        shown("---\na: 1\n---\nb: 2\n---\r\nx\n"),
        found("1:1-5:3", "a: 1\n---\nb: 2")
    );
    assert_eq!(
        shown("---\na: 1\n---x\nb: 2\n---\nx\n"),
        found("1:1-5:3", "a: 1\n---x\nb: 2")
    );
    assert_eq!(shown("---\na: 1\n---x\nb: 2\n---"), None);
}

#[test]
fn literal_html_passes_through() {
    let html = render_markdown("<kbd>C-s</kbd> <a href=\"javascript:x\">y</a>\n\n[z](javascript:w)\n");
    assert!(html.contains("<kbd>C-s</kbd>"), "{html}");
    assert!(html.contains("href=\"javascript:w\""), "{html}");
    assert!(!html.contains("omitted"), "{html}");
}

#[test]
fn the_extensions_are_on() {
    let table = render_markdown("| a |\n| - |\n| b |\n");
    assert!(table.contains("<table"), "{table}");
    let strike = render_markdown("~~gone~~\n");
    assert!(strike.contains("<del"), "{strike}");
    let link = render_markdown("see https://example.org now\n");
    assert!(link.contains("<a") && link.contains("href=\"https://example.org\""), "{link}");
    let task = render_markdown("- [x] done\n");
    assert!(task.contains("type=\"checkbox\""), "{task}");
    let note = render_markdown("a[^1]\n\n[^1]: b\n");
    assert!(note.contains("footnote"), "{note}");
}

fn front(raw: &str) -> FrontMatter {
    FrontMatter {
        raw: raw.into(),
        position: "1:1-12:3".into(),
    }
}

fn block(raw: &str) -> String {
    let mut html = String::from("before");
    render_front_matter(&front(raw), &mut html);
    html
}

fn expected(yaml: &str) -> String {
    format!(
        "before<details class=\"frontmatter\" data-sourcepos=\"1:1-12:3\">\
         <summary>Front matter</summary>\n\
         <pre><code class=\"language-yaml\">{yaml}</code></pre></details>\n"
    )
}

#[test]
fn the_yaml_stands_between_the_delimiters() {
    assert_eq!(block("---\na: 1\n\nb: 2\n---\n\n"), expected("a: 1\n\nb: 2"));
    assert_eq!(block("---\n---\n"), expected(""));
    // Without both delimiters everything is shown.
    assert_eq!(block("---\na: 1\n"), expected("---\na: 1"));
    assert_eq!(block("---"), expected("---"));
    assert_eq!(block("\n a: 1 \n"), expected(" a: 1 "));
}

#[test]
fn markup_in_yaml_is_text() {
    assert_eq!(
        block("---\n<\">&\u{0}é\n---"),
        expected("&lt;&quot;&gt;&amp;\u{fffd}é")
    );
}

#[test]
fn a_page_is_its_front_matter_and_its_html() {
    assert_eq!(assemble_page(&None, "<p>x</p>\n"), "<p>x</p>\n");
    let page = assemble_page(&Some(front("---\na: 1\n---\n")), "<p>x</p>\n");
    assert_eq!(format!("before{page}"), format!("{}<p>x</p>\n", expected("a: 1")));
}

#[test]
fn only_markdown_files_are_synced() {
    for yes in ["a.md", "docs/README.MD", "notes.markdown", "/abs/x.Md"] {
        assert!(is_markdown(&FilePath::from_text(yes)), "{yes}");
    }
    for no in ["main.rs", "[scratch]", "foo.md.bak", ".md", "Makefile", ""] {
        assert!(!is_markdown(&FilePath::from_text(no)), "{no}");
    }
}
