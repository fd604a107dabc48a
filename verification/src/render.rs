//! Markdown to HTML rendering.
//!
//! Fenced `mermaid` blocks are left as ordinary code blocks
//! (`<pre><code class="language-mermaid">`) and turned into diagrams by the
//! browser client. Front matter becomes a collapsed YAML block.

use comrak::nodes::NodeValue;
use comrak::options::{Extension, Render};
use comrak::{format_html, parse_document, Arena, Options};
use vstd::prelude::*;
use vstd::string::*;
use vstd::utf8::*;

use crate::decimal::decimal;
use crate::path::{extension, FilePath};
use crate::text::{
    a_prefix_and_the_rest_make_the_text, is_white, lower, same_bytes, strip_prefix, strip_suffix,
    text_before, text_behind, to_lower, trim, trim_end, trim_text, Margin,
};

verus! {

/// The line that opens and closes front matter.
pub const FRONT_MATTER_DELIMITER: &'static str = "---";

/// Whether a path names a Markdown file: its extension is `md` or `markdown`,
/// in any case.
pub open spec fn names_markdown(path: Seq<u8>) -> bool {
    extension(path) matches Some(ext) && (lower(ext) == encode_utf8("md"@) || lower(ext)
        == encode_utf8("markdown"@))
}

/// Whether `path` names a Markdown file.
pub fn is_markdown(path: &FilePath) -> (markdown: bool)
    ensures
        markdown == names_markdown(path@),
        markdown <==> extension(path@) is Some && (lower(extension(path@)->0) == encode_utf8("md"@)
            || lower(extension(path@)->0) == encode_utf8("markdown"@)),
{
    match path.extension() {
        None => false,
        Some(ext) => {
            let ext = to_lower(ext.as_slice());
            same_bytes(ext.as_slice(), "md".as_bytes()) || same_bytes(
                ext.as_slice(),
                "markdown".as_bytes(),
            )
        },
    }
}

/// The front matter of a document: its text with the delimiter lines, and
/// where it starts and ends in the source, as `line:column-line:column`.
#[derive(Debug, Clone, PartialEq, Eq)]
pub struct FrontMatter {
    pub raw: String,
    pub position: String,
}

/// What a [`FrontMatter`] says.
#[verifier::ext_equal]
pub struct FrontMatterView {
    pub raw: Seq<char>,
    pub position: Seq<char>,
}

impl View for FrontMatter {
    type V = FrontMatterView;

    open spec fn view(&self) -> FrontMatterView {
        FrontMatterView { raw: self.raw@, position: self.position@ }
    }
}

/// What front matter, if there is any, says.
pub open spec fn front_matter_view(front: Option<FrontMatter>) -> Option<FrontMatterView> {
    match front {
        Some(front) => Some(front@),
        None => None,
    }
}

/// The HTML that comrak formats the document as which it parses `markdown`,
/// with the extensions and rendering options given, the rest at their defaults.
pub uninterp spec fn comrak_html(
    markdown: Seq<char>,
    table: bool,
    strikethrough: bool,
    autolink: bool,
    tasklist: bool,
    footnotes: bool,
    raw_html: bool,
    sourcepos: bool,
    delimiter: Seq<char>,
) -> Seq<char>;

/// `text` without a byte order mark at its start.
pub open spec fn without_mark(text: Seq<char>) -> Seq<char> {
    if text.len() > 0 && text[0] == '\u{feff}' {
        text.skip(1)
    } else {
        text
    }
}

/// What follows the line end that `text` starts with, if it starts with one.
pub open spec fn behind_line_end(text: Seq<char>) -> Option<Seq<char>> {
    if text.len() > 0 && text[0] == '\n' {
        Some(text.skip(1))
    } else if text.len() > 1 && text[0] == '\r' && text[1] == '\n' {
        Some(text.skip(2))
    } else {
        None
    }
}

/// Where `pattern` first occurs in `text`.
pub open spec fn find(text: Seq<char>, pattern: Seq<char>) -> Option<int>
    decreases text.len(),
{
    if strip_prefix(text, pattern) is Some {
        Some(0)
    } else if text.len() == 0 {
        None
    } else {
        match find(text.skip(1), pattern) {
            Some(i) => Some(i + 1),
            None => None,
        }
    }
}

/// What follows the line end and the delimiter that close front matter, where
/// `body` follows its first line. A closing line that ends in a carriage return
/// and a newline is looked for first, then one that ends in a newline, then the
/// delimiter at the start of any line.
pub open spec fn behind_closing(body: Seq<char>, delimiter: Seq<char>) -> Option<Seq<char>> {
    let closing = seq!['\n'] + delimiter;
    let at = if find(body, closing + seq!['\r', '\n']) is Some {
        find(body, closing + seq!['\r', '\n'])
    } else if find(body, closing + seq!['\n']) is Some {
        find(body, closing + seq!['\n'])
    } else {
        find(body, closing)
    };
    match at {
        Some(i) => Some(body.skip(i + closing.len())),
        None => None,
    }
}

/// What follows the front matter that `text` starts with, if it starts with
/// any: a first line that is the delimiter, and behind it a line that is the
/// delimiter again, or the delimiter at the end of the text. A blank line
/// behind that belongs to the front matter.
pub open spec fn behind_front_matter(text: Seq<char>, delimiter: Seq<char>) -> Option<Seq<char>> {
    let body = match strip_prefix(text, delimiter) {
        Some(rest) => behind_line_end(rest),
        None => None,
    };
    let rest = match body {
        Some(body) => behind_closing(body, delimiter),
        None => None,
    };
    match rest {
        Some(rest) => if rest.len() == 0 {
            Some(rest)
        } else {
            match behind_line_end(rest) {
                Some(after) => match behind_line_end(after) {
                    Some(more) => Some(more),
                    None => Some(after),
                },
                None => None,
            }
        },
        None => None,
    }
}

/// `text` without spaces, tabs and line ends at its end.
pub open spec fn without_blank_end(text: Seq<char>) -> Seq<char>
    decreases text.len(),
{
    if text.len() > 0 && (text.last() == ' ' || text.last() == '\t' || text.last() == '\n'
        || text.last() == '\r') {
        without_blank_end(text.drop_last())
    } else {
        text
    }
}

/// How often `text` goes on to a new line.
pub open spec fn line_breaks(text: Seq<char>) -> nat
    decreases text.len(),
{
    if text.len() == 0 {
        0
    } else if text.last() == '\n' {
        line_breaks(text.drop_last()) + 1
    } else {
        line_breaks(text.drop_last())
    }
}

/// The front matter at the start of `markdown`, between lines that are
/// `delimiter`: the text with the delimiter lines, and its position, from the
/// first character to the end of the closing delimiter, counted in bytes.
pub open spec fn front_matter_in(markdown: Seq<char>, delimiter: Seq<char>) -> Option<
    FrontMatterView,
> {
    let text = without_mark(markdown);
    match behind_front_matter(text, delimiter) {
        Some(rest) => {
            let raw = text.take(text.len() - rest.len());
            Some(
                FrontMatterView {
                    raw,
                    position: "1:1-"@ + decimal(1 + line_breaks(without_blank_end(raw))) + ":"@
                        + decimal(encode_utf8(delimiter).len()),
                },
            )
        },
        None => None,
    }
}

/// Calls `comrak::parse_document` and `comrak::format_html`. The HTML is a
/// function of the arguments, under the name above. The first node of the
/// document is front matter exactly where the text starts with it, and then
/// holds its text and its position.
#[verifier::external_body]
fn comrak_document(
    markdown: &str,
    table: bool,
    strikethrough: bool,
    autolink: bool,
    tasklist: bool,
    footnotes: bool,
    raw_html: bool,
    sourcepos: bool,
    delimiter: &str,
) -> (document: (String, Option<FrontMatter>))
    ensures
        document.0@ == comrak_html(
            markdown@,
            table,
            strikethrough,
            autolink,
            tasklist,
            footnotes,
            raw_html,
            sourcepos,
            delimiter@,
        ),
        front_matter_view(document.1) == front_matter_in(markdown@, delimiter@),
{
    let arena = Arena::new();
    let options = Options {
        extension: Extension::builder().table(table).strikethrough(strikethrough).autolink(autolink)
            .tasklist(tasklist).footnotes(footnotes).front_matter_delimiter(delimiter.to_owned()).build(),
        render: Render::builder().maybe_unsafe(Some(raw_html)).sourcepos(sourcepos).build(),
        ..Options::default()
    };
    let root = parse_document(&arena, markdown, &options);
    let mut html = String::new();
    format_html(root, &options, &mut html).unwrap();
    (html, root.first_child().and_then(|node| match &node.data().value {
        NodeValue::FrontMatter(raw) => Some(FrontMatter { raw: raw.clone(), position: node.data().sourcepos.to_string() }),
        _ => None,
    }))
}

/// How `ch` is written in HTML text.
pub open spec fn escaped_char(ch: char) -> Seq<char> {
    if ch == '"' {
        "&quot;"@
    } else if ch == '&' {
        "&amp;"@
    } else if ch == '<' {
        "&lt;"@
    } else if ch == '>' {
        "&gt;"@
    } else if ch == '\u{0}' {
        "\u{fffd}"@
    } else {
        seq![ch]
    }
}

/// `text` written in HTML text.
pub open spec fn html_text(text: Seq<char>) -> Seq<char>
    decreases text.len(),
{
    if text.len() == 0 {
        seq![]
    } else {
        html_text(text.drop_last()) + escaped_char(text.last())
    }
}

/// Calls `comrak::html::escape`: each character is appended as itself, or,
/// where it could be taken for markup, as its entity. A null character becomes
/// the replacement character.
#[verifier::external_body]
fn push_html_text(html: &mut String, text: &str)
    ensures
        final(html)@ == old(html)@ + html_text(text@),
{
    comrak::html::escape(html, text).expect("writing to a String cannot fail");
}

/// Text written in HTML holds nothing that could open or close a tag or an
/// attribute.
pub proof fn html_text_holds_no_markup(text: Seq<char>)
    ensures
        !html_text(text).contains('<'),
        !html_text(text).contains('>'),
        !html_text(text).contains('"'),
    decreases text.len(),
{
    if text.len() > 0 {
        reveal_strlit("&quot;");
        reveal_strlit("&amp;");
        reveal_strlit("&lt;");
        reveal_strlit("&gt;");
        reveal_strlit("\u{fffd}");
        let before = html_text(text.drop_last());
        let last = escaped_char(text.last());
        html_text_holds_no_markup(text.drop_last());
        assert forall|i: int| 0 <= i < html_text(text).len() implies html_text(text)[i] != '<'
            && html_text(text)[i] != '>' && html_text(text)[i] != '"' by {
            if i < before.len() {
                assert(before.contains(before[i]));
            } else {
                assert(html_text(text)[i] == last[i - before.len()]);
            }
        }
    }
}

/// The YAML in raw front matter: what stands between the delimiters, or all
/// of it where they are missing, without newlines around it.
pub open spec fn yaml_in(raw: Seq<char>) -> Seq<char> {
    let inner = match strip_prefix(trim(raw, Margin::White), FRONT_MATTER_DELIMITER@) {
        Some(rest) => match strip_suffix(rest, FRONT_MATTER_DELIMITER@) {
            Some(yaml) => yaml,
            None => raw,
        },
        None => raw,
    };
    trim(inner, Margin::Newlines)
}

/// Front matter as a collapsed code block, tagged with its source position.
pub open spec fn front_matter_html(front: FrontMatterView) -> Seq<char> {
    "<details class=\"frontmatter\" data-sourcepos=\""@ + front.position + "\"><summary>Front matter</summary>\n"@
        + "<pre><code class=\"language-yaml\">"@ + html_text(yaml_in(front.raw))
        + "</code></pre></details>\n"@
}

/// The page of a document: its front matter, if it has any, and its HTML.
pub open spec fn page_html(front: Option<FrontMatterView>, html: Seq<char>) -> Seq<char> {
    match front {
        Some(front) => front_matter_html(front) + html,
        None => html,
    }
}

/// Append raw front matter as a collapsed YAML code block, tagged with the
/// front matter's source lines.
pub fn render_front_matter(front: &FrontMatter, html: &mut String)
    ensures
        final(html)@ == old(html)@ + front_matter_html(front@),
        final(html)@ == old(html)@ + (
        "<details class=\"frontmatter\" data-sourcepos=\""@ + front.position@
            + "\"><summary>Front matter</summary>\n"@ + "<pre><code class=\"language-yaml\">"@
            + html_text(yaml_in(front.raw@)) + "</code></pre></details>\n"@),
{
    let raw = front.raw.as_str();
    let inner = match text_behind(trim_text(raw, Margin::White), FRONT_MATTER_DELIMITER) {
        Some(rest) => match text_before(rest, FRONT_MATTER_DELIMITER) {
            Some(yaml) => yaml,
            None => raw,
        },
        None => raw,
    };
    let yaml = trim_text(inner, Margin::Newlines);
    assert(yaml@ == yaml_in(raw@));
    html.append("<details class=\"frontmatter\" data-sourcepos=\"");
    html.append(front.position.as_str());
    html.append("\"><summary>Front matter</summary>\n");
    html.append("<pre><code class=\"language-yaml\">");
    push_html_text(html, yaml);
    html.append("</code></pre></details>\n");
    assert(html@ == old(html)@ + front_matter_html(front@));
}

/// Put a document's page together from its front matter and its HTML.
pub fn assemble_page(front: &Option<FrontMatter>, html: &str) -> (page: String)
    ensures
        page@ == page_html(front_matter_view(*front), html@),
        *front is None ==> page@ == html@,
        *front matches Some(matter) ==> page@ == (
        "<details class=\"frontmatter\" data-sourcepos=\""@ + matter.position@
            + "\"><summary>Front matter</summary>\n"@ + "<pre><code class=\"language-yaml\">"@
            + html_text(yaml_in(matter.raw@)) + "</code></pre></details>\n"@) + html@,
{
    let mut page = String::new();
    if let Some(front) = front {
        render_front_matter(front, &mut page);
    }
    page.append(html);
    assert(page@ == page_html(front_matter_view(*front), html@));
    page
}

/// The page for a Markdown document: tables, strikethrough, autolinks, task
/// lists and footnotes are on, HTML in the document is passed through, and
/// blocks are tagged with their source position.
pub open spec fn preview_html(markdown: Seq<char>) -> Seq<char> {
    page_html(
        front_matter_in(markdown, FRONT_MATTER_DELIMITER@),
        comrak_html(
            markdown,
            true,
            true,
            true,
            true,
            true,
            true,
            true,
            FRONT_MATTER_DELIMITER@,
        ),
    )
}

/// Render a Markdown document to an HTML fragment suitable for insertion into
/// the preview shell's `#content` element. The files are the user's own, so
/// literal HTML passes through untouched.
pub fn render_markdown(markdown: &str) -> (page: String)
    ensures
        page@ == preview_html(markdown@),
        front_matter_in(markdown@, "---"@) is None ==> page@ == comrak_html(
            markdown@,
            true,
            true,
            true,
            true,
            true,
            true,
            true,
            "---"@,
        ),
        front_matter_in(markdown@, "---"@) matches Some(front) ==> page@ == (
        "<details class=\"frontmatter\" data-sourcepos=\""@ + front.position
            + "\"><summary>Front matter</summary>\n"@ + "<pre><code class=\"language-yaml\">"@
            + html_text(yaml_in(front.raw)) + "</code></pre></details>\n"@) + comrak_html(
            markdown@,
            true,
            true,
            true,
            true,
            true,
            true,
            true,
            "---"@,
        ),
{
    let (html, front) = comrak_document(
        markdown,
        true,
        true,
        true,
        true,
        true,
        true,
        true,
        FRONT_MATTER_DELIMITER,
    );
    assemble_page(&front, html.as_str())
}

/// What follows a line end is shorter by one or two characters.
proof fn lemma_behind_line_end(text: Seq<char>)
    ensures
        behind_line_end(text) matches Some(rest) ==> {
            let n = text.len() - rest.len();
            &&& 1 <= n <= 2
            &&& rest == text.skip(n)
            &&& forall|i: int| 0 <= i < n ==> text[i] == '\r' || text[i] == '\n'
        },
{
}

/// A pattern is found where it stands.
proof fn lemma_find(text: Seq<char>, pattern: Seq<char>)
    ensures
        find(text, pattern) matches Some(i) ==> 0 <= i && i + pattern.len() <= text.len()
            && text.subrange(i, i + pattern.len()) == pattern,
    decreases text.len(),
{
    if strip_prefix(text, pattern) is Some {
        assert(text.subrange(0, pattern.len() as int) == text.take(pattern.len() as int));
    } else if text.len() > 0 {
        lemma_find(text.skip(1), pattern);
        if let Some(i) = find(text.skip(1), pattern) {
            assert(text.subrange(i + 1, i + 1 + pattern.len()) == text.skip(1).subrange(
                i,
                i + pattern.len(),
            ));
        }
    }
}

/// The closing delimiter stands where it is found: `body` is what is before its
/// line end, that line end, the delimiter, and what is behind it.
proof fn lemma_closing(body: Seq<char>, delimiter: Seq<char>) -> (before: Seq<char>)
    requires
        behind_closing(body, delimiter) is Some,
    ensures
        body == before + (seq!['\n'] + delimiter) + behind_closing(body, delimiter)->0,
{
    let closing = seq!['\n'] + delimiter;
    let crlf = closing + seq!['\r', '\n'];
    let lf = closing + seq!['\n'];
    lemma_find(body, crlf);
    lemma_find(body, lf);
    lemma_find(body, closing);
    let pattern = if find(body, crlf) is Some {
        crlf
    } else if find(body, lf) is Some {
        lf
    } else {
        closing
    };
    let i = find(body, pattern)->0;
    assert(pattern.take(closing.len() as int) == closing);
    assert(body.subrange(i, i + closing.len()) == body.subrange(i, i + pattern.len()).take(
        closing.len() as int,
    ));
    let before = body.take(i);
    assert(body == before + closing + body.skip(i + closing.len()));
    before
}

/// The parts of a text with front matter, put together in another way.
proof fn lemma_regrouped(
    delimiter: Seq<char>,
    line_end: Seq<char>,
    before: Seq<char>,
    blank: Seq<char>,
    rest: Seq<char>,
)
    ensures
        delimiter + (line_end + (before + (seq!['\n'] + delimiter) + (blank + rest))) == delimiter
            + (line_end + before + seq!['\n']) + delimiter + blank + rest,
{
}

/// What stands behind a closing delimiter is line ends and the rest.
proof fn lemma_rest(text: Seq<char>, behind: Seq<char>, delimiter: Seq<char>) -> (blank: Seq<char>)
    requires
        behind_front_matter(text, delimiter) is Some,
        strip_prefix(text, delimiter) matches Some(first) && behind_line_end(first) matches Some(
            body,
        ) && behind_closing(body, delimiter) == Some(behind),
    ensures
        behind == blank + behind_front_matter(text, delimiter)->0,
        forall|i: int| 0 <= i < blank.len() ==> blank[i] == '\r' || blank[i] == '\n',
{
    let rest = behind_front_matter(text, delimiter)->0;
    lemma_behind_line_end(behind);
    if let Some(after) = behind_line_end(behind) {
        lemma_behind_line_end(after);
    }
    let blank = behind.take(behind.len() - rest.len());
    assert(behind == blank + rest);
    blank
}

/// Front matter is the delimiter, what is between the delimiters, the delimiter
/// again, and line ends.
#[verifier::spinoff_prover]
#[verifier::rlimit(40)]
proof fn lemma_front_matter(text: Seq<char>, delimiter: Seq<char>) -> (parts: (
    Seq<char>,
    Seq<char>,
))
    requires
        behind_front_matter(text, delimiter) is Some,
    ensures
        text == delimiter + parts.0 + delimiter + parts.1 + behind_front_matter(
            text,
            delimiter,
        )->0,
        forall|i: int| 0 <= i < parts.1.len() ==> parts.1[i] == '\r' || parts.1[i] == '\n',
{
    let rest = behind_front_matter(text, delimiter)->0;
    let first = strip_prefix(text, delimiter)->0;
    let body = behind_line_end(first)->0;
    let behind = behind_closing(body, delimiter)->0;
    let before = lemma_closing(body, delimiter);
    let blank = lemma_rest(text, behind, delimiter);
    lemma_behind_line_end(first);
    let line_end = first.take(first.len() - body.len());
    assert(first == line_end + body);
    assert(text == delimiter + first);
    assert(text == delimiter + (line_end + (before + (seq!['\n'] + delimiter) + (blank + rest))));
    lemma_regrouped(delimiter, line_end, before, blank, rest);
    let between = line_end + before + seq!['\n'];
    assert(text == delimiter + between + delimiter + blank + rest);
    (between, blank)
}

/// Trimming takes white space off the end, up to what is not white.
proof fn lemma_trim_end(text: Seq<char>, blank: Seq<char>)
    requires
        text.len() > 0,
        !is_white(text.last()),
        forall|i: int| 0 <= i < blank.len() ==> is_white(#[trigger] blank[i]),
    ensures
        trim_end(text + blank, Margin::White) == text,
    decreases blank.len(),
{
    if blank.len() > 0 {
        assert((text + blank).last() == blank[blank.len() - 1]);
        assert((text + blank).drop_last() == text + blank.drop_last());
        lemma_trim_end(text, blank.drop_last());
    } else {
        assert(text + blank == text);
    }
}

/// Front matter is a leading part of the document, but for a byte order mark,
/// and opens with the delimiter. What is shown of it is what is between its two
/// delimiters, without newlines around it.
pub proof fn front_matter_shows_what_is_between(markdown: Seq<char>)
    ensures
        front_matter_in(markdown, FRONT_MATTER_DELIMITER@) matches Some(front) ==> {
            let text = without_mark(markdown);
            &&& front.raw == text.take(front.raw.len() as int)
            &&& strip_prefix(text, FRONT_MATTER_DELIMITER@) is Some
            &&& exists|between: Seq<char>, blank: Seq<char>|
                #![trigger FRONT_MATTER_DELIMITER@ + between + FRONT_MATTER_DELIMITER@ + blank]
                front.raw == FRONT_MATTER_DELIMITER@ + between + FRONT_MATTER_DELIMITER@ + blank
                    && yaml_in(front.raw) == trim(between, Margin::Newlines)
        },
{
    if let Some(front) = front_matter_in(markdown, FRONT_MATTER_DELIMITER@) {
        reveal_strlit("---");
        let delimiter = FRONT_MATTER_DELIMITER@;
        let text = without_mark(markdown);
        let rest = behind_front_matter(text, delimiter)->0;
        let (between, blank) = lemma_front_matter(text, delimiter);
        let raw = delimiter + between + delimiter + blank;
        assert(text.take(text.len() - rest.len()) == raw);
        assert(front.raw == raw);
        assert(raw[0] == '-');
        let inner = delimiter + between + delimiter;
        assert(inner.last() == '-');
        lemma_trim_end(inner, blank);
        assert(trim(raw, Margin::White) == inner);
        assert(inner.take(delimiter.len() as int) == delimiter);
        assert(inner.skip(delimiter.len() as int) == between + delimiter);
        assert((between + delimiter).skip(between.len() as int) == delimiter);
        assert((between + delimiter).take(between.len() as int) == between);
    }
}

/// The page of a document is made from the whole of its text: comrak's HTML of
/// exactly that text, with every extension, literal HTML and source positions
/// on, behind the block of the front matter that the text has.
pub proof fn a_page_is_of_the_whole_text(markdown: Seq<char>)
    ensures
        front_matter_in(markdown, "---"@) is None ==> preview_html(markdown) == comrak_html(
            markdown,
            true,
            true,
            true,
            true,
            true,
            true,
            true,
            "---"@,
        ),
        front_matter_in(markdown, "---"@) matches Some(front) ==> preview_html(markdown) == (
        "<details class=\"frontmatter\" data-sourcepos=\""@ + front.position
            + "\"><summary>Front matter</summary>\n"@ + "<pre><code class=\"language-yaml\">"@
            + html_text(yaml_in(front.raw)) + "</code></pre></details>\n"@) + comrak_html(
            markdown,
            true,
            true,
            true,
            true,
            true,
            true,
            true,
            "---"@,
        ),
{
}

/// Text is written in HTML one character after another, each as itself but for
/// those that could be taken for markup, and a null character.
pub proof fn text_is_escaped_one_for_one(a: Seq<char>, b: Seq<char>, ch: char)
    ensures
        html_text(a + b) == html_text(a) + html_text(b),
        html_text(seq!['"']) == "&quot;"@,
        html_text(seq!['&']) == "&amp;"@,
        html_text(seq!['<']) == "&lt;"@,
        html_text(seq!['>']) == "&gt;"@,
        html_text(seq!['\u{0}']) == seq!['\u{fffd}'],
        ch != '"' && ch != '&' && ch != '<' && ch != '>' && ch != '\u{0}' ==> html_text(seq![ch])
            == seq![ch],
    decreases b.len(),
{
    reveal_strlit("\u{fffd}");
    assert forall|c: char| #[trigger] html_text(seq![c]) == escaped_char(c) by {
        assert(seq![c].drop_last() == Seq::<char>::empty());
        assert(html_text(seq![c].drop_last()) == Seq::<char>::empty());
    }
    if b.len() > 0 {
        text_is_escaped_one_for_one(a, b.drop_last(), ch);
        assert((a + b).drop_last() == a + b.drop_last());
        assert((a + b).last() == b.last());
    } else {
        assert(a + b == a);
        assert(html_text(b) == Seq::<char>::empty());
    }
}

/// A pattern is found at the first place where it stands, and nowhere only
/// where it does not occur.
pub proof fn a_pattern_is_found_where_it_first_stands(
    text: Seq<char>,
    pattern: Seq<char>,
    j: int,
)
    ensures
        find(text, pattern) matches Some(i) ==> 0 <= i && i + pattern.len() <= text.len()
            && text.subrange(i, i + pattern.len()) == pattern,
        0 <= j && j + pattern.len() <= text.len() && text.subrange(j, j + pattern.len()) == pattern
            ==> (find(text, pattern) matches Some(i) && i <= j),
    decreases text.len(),
{
    lemma_find(text, pattern);
    if 0 <= j && j + pattern.len() <= text.len() && text.subrange(j, j + pattern.len()) == pattern {
        if j == 0 {
            assert(text.take(pattern.len() as int) == text.subrange(0, pattern.len() as int));
        } else {
            assert(text.skip(1).subrange(j - 1, j - 1 + pattern.len()) == text.subrange(
                j,
                j + pattern.len(),
            ));
            a_pattern_is_found_where_it_first_stands(text.skip(1), pattern, j - 1);
        }
    }
}

/// Lines are counted by their ends, wherever a text is parted.
pub proof fn line_breaks_add_up(a: Seq<char>, b: Seq<char>, ch: char)
    ensures
        line_breaks(a + b) == line_breaks(a) + line_breaks(b),
        line_breaks(seq![ch]) == (if ch == '\n' {
            1int
        } else {
            0
        }),
        line_breaks(Seq::empty()) == 0,
    decreases b.len(),
{
    assert(seq![ch].drop_last() == Seq::<char>::empty());
    assert(line_breaks(seq![ch].drop_last()) == 0);
    if b.len() > 0 {
        line_breaks_add_up(a, b.drop_last(), ch);
        assert((a + b).drop_last() == a + b.drop_last());
    } else {
        assert(a + b == a);
    }
}

/// A text has front matter where its first line is `---` and a later line is
/// `---` again. It runs to the end of the first such line, with a blank line
/// behind it; its position counts the lines up to there. A byte order mark
/// before it does not matter.
#[verifier::rlimit(40)]
pub proof fn front_matter_stands_between_delimiter_lines(inner: Seq<char>, rest: Seq<char>)
    requires
        !inner.contains('\r'),
        !rest.contains('\r'),
        forall|j: int|
            0 <= j < inner.len() ==> #[trigger] (inner + "\n---\n"@).subrange(j, j + 5)
                != "\n---\n"@,
    ensures
        ({
            let text = "---\n"@ + inner + "\n---\n"@ + rest;
            let blank = if rest.len() > 0 && rest[0] == '\n' {
                seq!['\n']
            } else {
                Seq::<char>::empty()
            };
            let front = FrontMatterView {
                raw: "---\n"@ + inner + "\n---\n"@ + blank,
                position: "1:1-"@ + decimal(3 + line_breaks(inner)) + ":"@ + decimal(3),
            };
            &&& front_matter_in(text, "---"@) == Some(front)
            &&& front_matter_in(seq!['\u{feff}'] + text, "---"@) == Some(front)
        }),
{
    reveal_strlit("---\n");
    reveal_strlit("\n---\n");
    reveal_strlit("---");
    let delimiter = "---"@;
    let text = "---\n"@ + inner + "\n---\n"@ + rest;
    let marked = seq!['\u{feff}'] + text;
    assert(without_mark(text) == text);
    assert(marked.skip(1) == text);
    assert(text.take(3) == delimiter);
    let first = text.skip(3);
    let body = inner + "\n---\n"@ + rest;
    assert(first[0] == '\n');
    assert(first.skip(1) == body);
    let closing = seq!['\n'] + delimiter;
    let crlf = closing + seq!['\r', '\n'];
    let lf = closing + seq!['\n'];
    assert(lf == "\n---\n"@);
    a_pattern_is_found_where_it_first_stands(body, crlf, 0);
    if let Some(i) = find(body, crlf) {
        assert(crlf[4] == '\r');
        assert(body.subrange(i, i + 6)[4] == body[i + 4]);
        if i + 4 < inner.len() {
            assert(inner.contains(inner[i + 4]));
        } else if i + 4 >= inner.len() + 5 {
            assert(rest.contains(rest[i + 4 - inner.len() - 5]));
        }
        assert(false);
    }
    assert(body.subrange(inner.len() as int, (inner.len() + 5) as int) == lf);
    a_pattern_is_found_where_it_first_stands(body, lf, inner.len() as int);
    let i = find(body, lf)->0;
    if i < inner.len() {
        assert(body.subrange(i, i + 5) == (inner + "\n---\n"@).subrange(i, i + 5));
        assert(false);
    }
    let behind = body.skip(i + 4);
    assert(closing.len() == 4);
    assert(behind == seq!['\n'] + rest);
    assert(behind_closing(body, delimiter) == Some(behind));
    assert(behind.skip(1) == rest);
    if rest.len() > 0 {
        assert(rest.contains(rest[0]));
    }
    let blank = if rest.len() > 0 && rest[0] == '\n' {
        seq!['\n']
    } else {
        Seq::<char>::empty()
    };
    let raw = "---\n"@ + inner + "\n---\n"@ + blank;
    let more = rest.skip(blank.len() as int);
    assert(more == (if blank.len() == 0 {
        rest
    } else {
        rest.skip(1)
    }));
    assert(behind_front_matter(text, delimiter) == Some(more));
    assert(text.take(text.len() - more.len()) == raw);
    let trimmed = "---\n"@ + inner + "\n---"@;
    reveal_strlit("\n---");
    assert(raw == trimmed + (seq!['\n'] + blank));
    lemma_blank_end(trimmed, seq!['\n'] + blank);
    lemma_delimiter_breaks(inner);
    lemma_delimiter_width();
}

/// Line ends at the end of a text are blank.
proof fn lemma_blank_end(text: Seq<char>, blank: Seq<char>)
    requires
        text.len() > 0,
        text.last() == '-',
        forall|i: int| 0 <= i < blank.len() ==> #[trigger] blank[i] == '\n',
    ensures
        without_blank_end(text + blank) == text,
    decreases blank.len(),
{
    if blank.len() > 0 {
        assert((text + blank).last() == blank[blank.len() - 1]);
        assert((text + blank).drop_last() == text + blank.drop_last());
        lemma_blank_end(text, blank.drop_last());
    } else {
        assert(text + blank == text);
    }
}

/// The lines of front matter, up to its closing delimiter.
proof fn lemma_delimiter_breaks(inner: Seq<char>)
    ensures
        line_breaks("---\n"@ + inner + "\n---"@) == 2 + line_breaks(inner),
{
    reveal_strlit("---\n");
    reveal_strlit("\n---");
    let d = seq!['-'];
    let n = seq!['\n'];
    assert("---\n"@ == d + d + d + n);
    assert("\n---"@ == n + d + d + d);
    line_breaks_add_up(d, d, '-');
    line_breaks_add_up(d + d, d, '-');
    line_breaks_add_up(d + d + d, n, '\n');
    line_breaks_add_up(n, d, '\n');
    line_breaks_add_up(n + d, d, '-');
    line_breaks_add_up(n + d + d, d, '-');
    line_breaks_add_up("---\n"@, inner, '-');
    line_breaks_add_up("---\n"@ + inner, "\n---"@, '-');
}

/// The delimiter is three bytes long.
proof fn lemma_delimiter_width()
    ensures
        encode_utf8("---"@).len() == 3,
{
    reveal_strlit("---");
    is_ascii_chars_encode_utf8("---"@);
}

/// A text that does not start with a line that is `---`, or in which no line
/// starts with `---` after the first, has no front matter.
pub proof fn front_matter_needs_both_delimiters(text: Seq<char>, delimiter: Seq<char>)
    ensures
        text.len() > 0 && text[0] != '\u{feff}' && !(text.len() > delimiter.len() && text.take(
            delimiter.len() as int,
        ) == delimiter && (text[delimiter.len() as int] == '\n' || text[delimiter.len() as int]
            == '\r')) ==> front_matter_in(text, delimiter) is None,
        delimiter.len() > 0 && delimiter[0] != '\u{feff}' && (forall|j: int|
            delimiter.len() <= j && j + 1 + delimiter.len() <= text.len()
                ==> #[trigger] text.subrange(j, j + 1 + delimiter.len()) != seq!['\n'] + delimiter)
            && text.len() > 0 && text[0] != '\u{feff}' ==> front_matter_in(text, delimiter) is None,
{
    if front_matter_in(text, delimiter) is Some && text.len() > 0 && text[0] != '\u{feff}' {
        let first = strip_prefix(text, delimiter)->0;
        let body = behind_line_end(first)->0;
        lemma_behind_line_end(first);
        let before = lemma_closing(body, delimiter);
        let behind = behind_closing(body, delimiter)->0;
        let closing = seq!['\n'] + delimiter;
        let j = text.len() - body.len() + before.len();
        assert(first == text.skip(delimiter.len() as int));
        assert(body == text.skip(text.len() - body.len()));
        assert(body.subrange(before.len() as int, (before.len() + closing.len()) as int) == closing);
        assert(text.subrange(j, j + closing.len()) == body.subrange(
            before.len() as int,
            (before.len() + closing.len()) as int,
        ));
        assert(text.subrange(j, j + 1 + delimiter.len()) == closing);
        assert(first[0] == text[delimiter.len() as int]);
    }
}

/// The YAML of front matter is what stands between its delimiters, without
/// newlines around it; where a delimiter is missing, it is all there is. What
/// front matter says is what it holds.
pub proof fn yaml_is_what_is_between(raw: Seq<char>, yaml: Seq<char>, front: FrontMatter)
    ensures
        trim(raw, Margin::White) == "---"@ + yaml + "---"@ ==> yaml_in(raw) == trim(
            yaml,
            Margin::Newlines,
        ),
        strip_prefix(trim(raw, Margin::White), "---"@) is None ==> yaml_in(raw) == trim(
            raw,
            Margin::Newlines,
        ),
        strip_prefix(trim(raw, Margin::White), "---"@) matches Some(rest) ==> strip_suffix(
            rest,
            "---"@,
        ) is None ==> yaml_in(raw) == trim(raw, Margin::Newlines),
        front@.raw == front.raw@,
        front@.position == front.position@,
        front_matter_view(Some(front)) == Some(front@),
        front_matter_view(None) is None,
{
    let whole = "---"@ + yaml + "---"@;
    if trim(raw, Margin::White) == whole {
        assert(whole == "---"@ + (yaml + "---"@));
        a_prefix_and_the_rest_make_the_text(whole, "---"@, yaml + "---"@);
        a_prefix_and_the_rest_make_the_text(yaml + "---"@, "---"@, yaml);
    }
}

} // verus!
