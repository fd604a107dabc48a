//! The command line: what an invocation asks for, and what it does about a
//! server that is, or is not, already running.

use vstd::prelude::*;
use vstd::string::*;
use vstd::utf8::*;

use crate::control::{
    send_error_text, Reply, ReplyView, SendError, SendErrorView,
};
use crate::decimal::{
    decimal, decimal_reads_back, is_digit, number, push_decimal, read_number, unsigned,
};
use crate::path::{join, last_index, FilePath};
use crate::render::{is_markdown, names_markdown};
use crate::text::{chars_of, lemma_first_byte, lossy_text, same_text, strip_prefix, text_behind, texts};

verus! {

/// How the program is called.
pub const USAGE: &'static str = "usage: mdpreviewer [--line N] [--no-open] <file.md>\n       mdpreviewer --sync [--line N] <file.md>\n       mdpreviewer --restart [--line N] [--no-open] <file.md>\n       mdpreviewer --quit";

/// Printed under [`USAGE`] by `--help`.
pub const OPTIONS: &'static str = "options:
      --line N     scroll the preview to line N
      --no-open    start the server without opening a browser tab
      --sync       only update a running preview, and say nothing
      --restart    stop a running preview, then open a new one
      --quit       stop a running preview
  -h, --help       show this help
  -V, --version    show the version";

/// What `--version` says.
pub const VERSION: &'static str = "mdpreviewer 0.1.0";

/// What this invocation does.
#[derive(Debug, Clone, Copy, PartialEq, Eq, Structural)]
pub enum Mode {
    /// Show a file, starting a server if none is running.
    Open,
    /// Only update a running server.
    Sync,
    /// Stop a running server.
    Quit,
    /// Stop a running server, then open.
    Restart,
}

/// The arguments, taken apart.
#[derive(Debug, PartialEq, Eq)]
pub struct Args {
    /// The file to show. `None` only in [`Mode::Quit`], which takes no file.
    pub file: Option<String>,
    pub line: Option<u32>,
    pub mode: Mode,
    pub no_open: bool,
}

/// What [`Args`] say.
#[verifier::ext_equal]
pub struct ArgsView {
    pub file: Option<Seq<char>>,
    pub line: Option<u32>,
    pub mode: Mode,
    pub no_open: bool,
}

/// The view of a text that may be missing.
pub open spec fn text_view(text: Option<String>) -> Option<Seq<char>> {
    match text {
        Some(text) => Some(text@),
        None => None,
    }
}

impl View for Args {
    type V = ArgsView;

    open spec fn view(&self) -> ArgsView {
        ArgsView {
            file: text_view(self.file),
            line: self.line,
            mode: self.mode,
            no_open: self.no_open,
        }
    }
}

/// An option that answers and exits, without starting or contacting a server.
#[derive(Debug, Clone, Copy, PartialEq, Eq, Structural)]
pub enum EarlyExit {
    Help,
    Version,
}

/// What an early exit prints.
pub open spec fn early_text(early: EarlyExit) -> Seq<char> {
    match early {
        EarlyExit::Help => USAGE@ + "\n\n"@ + OPTIONS@,
        EarlyExit::Version => VERSION@,
    }
}

impl EarlyExit {
    /// What to print, to stdout: it was asked for.
    pub fn message(self) -> (text: String)
        ensures
            text@ == early_text(self),
            self is Help ==> text@ == USAGE@ + "\n\n"@ + OPTIONS@,
            self is Version ==> text@ == VERSION@,
    {
        match self {
            EarlyExit::Help => String::from_str(USAGE).concat("\n\n").concat(OPTIONS),
            EarlyExit::Version => String::from_str(VERSION),
        }
    }
}

/// Whether `arg` asks for help.
pub open spec fn asks_help(arg: Seq<char>) -> bool {
    arg == "-h"@ || arg == "--help"@
}

/// Whether `arg` asks for the version.
pub open spec fn asks_version(arg: Seq<char>) -> bool {
    arg == "-V"@ || arg == "--version"@
}

/// The option among `args` that should answer straight away. Help beats
/// version wherever the two appear.
pub open spec fn early_in(args: Seq<Seq<char>>) -> Option<EarlyExit> {
    if exists|i: int| 0 <= i < args.len() && asks_help(#[trigger] args[i]) {
        Some(EarlyExit::Help)
    } else if exists|i: int| 0 <= i < args.len() && asks_version(#[trigger] args[i]) {
        Some(EarlyExit::Version)
    } else {
        None
    }
}

/// Look for an option that should answer straight away.
///
/// These are found before the arguments are parsed, so `--help` explains
/// itself even when the rest of the command line is wrong, which is when it is
/// most worth having.
pub fn early_exit(raw: &[String]) -> (early: Option<EarlyExit>)
    ensures
        early == early_in(texts(raw@)),
{
    let ghost args = texts(raw@);
    let mut found: Option<EarlyExit> = None;
    let mut i: usize = 0;
    while i < raw.len()
        invariant
            i <= raw@.len(),
            args == texts(raw@),
            forall|j: int| 0 <= j < i ==> !asks_help(#[trigger] args[j]),
            found is None ==> forall|j: int| 0 <= j < i ==> !asks_version(#[trigger] args[j]),
            found is Some ==> found == Some(EarlyExit::Version) && exists|j: int|
                0 <= j < i && asks_version(#[trigger] args[j]),
        decreases raw@.len() - i,
    {
        let arg = raw[i].as_str();
        assert(args[i as int] == arg@);
        if same_text(arg, "-h") || same_text(arg, "--help") {
            return Some(EarlyExit::Help);
        }
        if same_text(arg, "-V") || same_text(arg, "--version") {
            found = Some(EarlyExit::Version);
        }
        i += 1;
    }
    found
}

/// The mode that an option selects.
pub open spec fn mode_option(arg: Seq<char>) -> Option<Mode> {
    if arg == "--sync"@ {
        Some(Mode::Sync)
    } else if arg == "--quit"@ {
        Some(Mode::Quit)
    } else if arg == "--restart"@ {
        Some(Mode::Restart)
    } else {
        None
    }
}

/// The arguments as they stand before any is read.
pub open spec fn no_args() -> ArgsView {
    ArgsView { file: None, line: None, mode: Mode::Open, no_open: false }
}

/// What `so_far` comes to when nothing is left to read.
pub open spec fn finished(so_far: ArgsView) -> Result<ArgsView, Seq<char>> {
    if so_far.mode == Mode::Quit && so_far.file is Some {
        Err("--quit takes no file"@)
    } else if so_far.mode != Mode::Quit && so_far.file is None {
        Err("missing file"@)
    } else {
        Ok(so_far)
    }
}

/// What the arguments say when `so_far` was read before `args`, or what is
/// wrong with them.
pub open spec fn args_from(so_far: ArgsView, args: Seq<Seq<char>>) -> Result<ArgsView, Seq<char>>
    decreases args.len(),
{
    if args.len() == 0 {
        finished(so_far)
    } else {
        let arg = args[0];
        let rest = args.skip(1);
        if let Some(mode) = mode_option(arg) {
            if so_far.mode != Mode::Open {
                Err("--sync, --quit and --restart are mutually exclusive"@)
            } else {
                args_from(ArgsView { mode, ..so_far }, rest)
            }
        } else if arg == "--no-open"@ {
            args_from(ArgsView { no_open: true, ..so_far }, rest)
        } else if arg == "--line"@ {
            if rest.len() == 0 {
                Err("--line needs a value"@)
            } else {
                match number(rest[0], u32::MAX as nat) {
                    Some(n) => args_from(
                        ArgsView { line: Some(n as u32), ..so_far },
                        rest.skip(1),
                    ),
                    None => Err("invalid line number: "@ + rest[0]),
                }
            }
        } else if strip_prefix(arg, "--"@) is Some {
            Err("unknown option: "@ + arg)
        } else if so_far.file is Some {
            Err("unexpected argument: "@ + arg)
        } else {
            args_from(ArgsView { file: Some(arg), ..so_far }, rest)
        }
    }
}

/// What a command line says, or what is wrong with it.
pub open spec fn args_in(args: Seq<Seq<char>>) -> Result<ArgsView, Seq<char>> {
    args_from(no_args(), args)
}

/// The mode that an option selects.
fn mode_of_option(arg: &str) -> (mode: Option<Mode>)
    ensures
        mode == mode_option(arg@),
{
    if same_text(arg, "--sync") {
        Some(Mode::Sync)
    } else if same_text(arg, "--quit") {
        Some(Mode::Quit)
    } else if same_text(arg, "--restart") {
        Some(Mode::Restart)
    } else {
        None
    }
}

/// Take the arguments apart.
pub fn parse_args(args: &[String]) -> (parsed: Result<Args, String>)
    ensures
        match parsed {
            Ok(parsed) => args_in(texts(args@)) == Ok::<ArgsView, Seq<char>>(parsed@),
            Err(message) => args_in(texts(args@)) == Err::<ArgsView, Seq<char>>(message@),
        },
        parsed matches Ok(parsed) ==> (args_in(texts(args@)) matches Ok(said) && parsed.line
            == said.line && parsed.mode == said.mode && parsed.no_open == said.no_open && (
        parsed.file is Some <==> said.file is Some) && (parsed.file matches Some(file) ==> said.file
            == Some(file@))),
{
    let ghost all = texts(args@);
    let mut file: Option<String> = None;
    let mut line: Option<u32> = None;
    let mut mode = Mode::Open;
    let mut no_open = false;
    let mut i: usize = 0;
    assert(all.skip(0) == all);
    while i < args.len()
        invariant
            i <= args@.len(),
            all == texts(args@),
            args_in(all) == args_from(
                ArgsView { file: text_view(file), line, mode, no_open },
                all.skip(i as int),
            ),
        decreases args@.len() - i,
    {
        let arg = args[i].as_str();
        proof {
            assert(all.skip(i as int)[0] == arg@);
            assert(all.skip(i as int).skip(1) == all.skip(i + 1));
        }
        if let Some(next_mode) = mode_of_option(arg) {
            if mode != Mode::Open {
                return Err(
                    String::from_str("--sync, --quit and --restart are mutually exclusive"),
                );
            }
            mode = next_mode;
        } else if same_text(arg, "--no-open") {
            no_open = true;
        } else if same_text(arg, "--line") {
            i += 1;
            if i == args.len() {
                return Err(String::from_str("--line needs a value"));
            }
            let value = args[i].as_str();
            proof {
                assert(all.skip(i as int)[0] == value@);
                assert(all.skip(i as int).skip(1) == all.skip(i + 1));
            }
            match read_number(value, u32::MAX as u64) {
                Some(n) => {
                    line = Some(n as u32);
                },
                None => return Err(String::from_str("invalid line number: ").concat(value)),
            }
        } else if text_behind(arg, "--").is_some() {
            return Err(String::from_str("unknown option: ").concat(arg));
        } else if file.is_some() {
            return Err(String::from_str("unexpected argument: ").concat(arg));
        } else {
            file = Some(arg.to_owned());
        }
        i += 1;
    }
    if mode == Mode::Quit && file.is_some() {
        return Err(String::from_str("--quit takes no file"));
    }
    if mode != Mode::Quit && file.is_none() {
        return Err(String::from_str("missing file"));
    }
    Ok(Args { file, line, mode, no_open })
}

/// Reading on keeps a mode that was selected, selects Sync mode where
/// `--sync` is among the arguments, and ends with a file unless in Quit mode.
proof fn lemma_args_from(so_far: ArgsView, args: Seq<Seq<char>>)
    ensures
        args_from(so_far, args) matches Ok(parsed) ==> {
            &&& parsed.file is None <==> parsed.mode == Mode::Quit
            &&& so_far.mode != Mode::Open ==> parsed.mode == so_far.mode
            &&& args.contains("--sync"@) ==> parsed.mode == Mode::Sync
            &&& so_far.no_open ==> parsed.no_open
            &&& args.contains("--no-open"@) ==> parsed.no_open
        },
    decreases args.len(),
{
    if args.len() > 0 {
        reveal_strlit("--sync");
        reveal_strlit("--no-open");
        reveal_strlit("--line");
        reveal_strlit("--quit");
        reveal_strlit("--restart");
        assert("--no-open"@[2] == 'n' && "--restart"@[2] == 'r');
        let arg = args[0];
        let rest = args.skip(1);
        assert forall|x: Seq<char>| #[trigger] args.contains(x) implies x == arg || rest.contains(
            x,
        ) by {
            let i = choose|i: int| 0 <= i < args.len() && args[i] == x;
            if i > 0 {
                assert(rest[i - 1] == x);
            }
        }
        if let Some(mode) = mode_option(arg) {
            if so_far.mode == Mode::Open {
                lemma_args_from(ArgsView { mode, ..so_far }, rest);
            }
        } else if arg == "--no-open"@ {
            lemma_args_from(ArgsView { no_open: true, ..so_far }, rest);
        } else if arg == "--line"@ {
            if rest.len() > 0 {
                let value = rest[0];
                let after = rest.skip(1);
                assert forall|x: Seq<char>| #[trigger] rest.contains(x) implies x == value
                    || after.contains(x) by {
                    let i = choose|i: int| 0 <= i < rest.len() && rest[i] == x;
                    if i > 0 {
                        assert(after[i - 1] == x);
                    }
                }
                if let Some(n) = number(value, u32::MAX as nat) {
                    lemma_options_are_no_numbers();
                    lemma_args_from(ArgsView { line: Some(n as u32), ..so_far }, after);
                }
            }
        } else if strip_prefix(arg, "--"@) is None && so_far.file is None {
            lemma_args_from(ArgsView { file: Some(arg), ..so_far }, rest);
        }
    }
}

/// An option is no line number.
proof fn lemma_options_are_no_numbers()
    ensures
        number("--sync"@, u32::MAX as nat) is None,
        number("--no-open"@, u32::MAX as nat) is None,
{
    reveal_strlit("--sync");
    reveal_strlit("--no-open");
    assert(!is_digit("--sync"@[0]));
    assert(!is_digit("--no-open"@[0]));
}

/// Arguments that are accepted name a file unless they ask to quit, and then
/// they name none.
pub proof fn only_quit_takes_no_file(args: Seq<Seq<char>>)
    ensures
        args_in(args) matches Ok(parsed) ==> (parsed.file is None <==> parsed.mode == Mode::Quit),
{
    lemma_args_from(no_args(), args);
}

/// Wherever `--sync` stands among arguments that are accepted, they ask for
/// Sync mode. So it also excludes every other mode.
pub proof fn sync_anywhere_means_sync(args: Seq<Seq<char>>)
    requires
        args.contains("--sync"@),
    ensures
        args_in(args) matches Ok(parsed) ==> parsed.mode == Mode::Sync,
{
    lemma_args_from(no_args(), args);
}

/// Wherever `--no-open` stands among arguments that are accepted, it counts.
pub proof fn no_open_anywhere_counts(args: Seq<Seq<char>>)
    requires
        args.contains("--no-open"@),
    ensures
        args_in(args) matches Ok(parsed) ==> parsed.no_open,
{
    lemma_args_from(no_args(), args);
}

/// Arguments that are accepted select no second mode.
proof fn lemma_one_mode(so_far: ArgsView, args: Seq<Seq<char>>, i: int, j: int)
    requires
        args_from(so_far, args) is Ok,
        0 <= j < args.len(),
        mode_option(args[j]) is Some,
    ensures
        so_far.mode == Mode::Open,
        0 <= i < j ==> mode_option(args[i]) is None,
    decreases args.len(),
{
    let arg = args[0];
    let rest = args.skip(1);
    if j > 0 {
        assert(rest[j - 1] == args[j]);
        if 0 < i < j {
            assert(rest[i - 1] == args[i]);
        }
        if let Some(mode) = mode_option(arg) {
            lemma_one_mode(ArgsView { mode, ..so_far }, rest, i - 1, j - 1);
        } else if arg == "--no-open"@ {
            lemma_one_mode(ArgsView { no_open: true, ..so_far }, rest, i - 1, j - 1);
        } else if arg == "--line"@ {
            let value = rest[0];
            let after = rest.skip(1);
            let n = number(value, u32::MAX as nat)->0;
            lemma_modes_are_no_numbers(value);
            assert(after[j - 2] == args[j]);
            if 1 < i < j {
                assert(after[i - 2] == args[i]);
            }
            lemma_one_mode(ArgsView { line: Some(n as u32), ..so_far }, after, i - 2, j - 2);
        } else {
            lemma_one_mode(ArgsView { file: Some(arg), ..so_far }, rest, i - 1, j - 1);
        }
    }
}

/// What selects a mode is no line number.
proof fn lemma_modes_are_no_numbers(arg: Seq<char>)
    ensures
        mode_option(arg) is Some ==> number(arg, u32::MAX as nat) is None,
{
    reveal_strlit("--sync");
    reveal_strlit("--quit");
    reveal_strlit("--restart");
    if mode_option(arg) is Some {
        assert(!is_digit(arg[0]));
    }
}

/// The modes exclude each other: arguments that select two, or one twice, are
/// not accepted.
pub proof fn modes_exclude_each_other(args: Seq<Seq<char>>, i: int, j: int)
    requires
        0 <= i < j < args.len(),
        mode_option(args[i]) is Some,
        mode_option(args[j]) is Some,
    ensures
        args_in(args) is Err,
{
    if args_in(args) is Ok {
        lemma_one_mode(no_args(), args, i, j);
    }
}

/// Whether `unit` is what is read as one: an argument by itself, or `--line`
/// and its value.
pub open spec fn is_unit(unit: Seq<Seq<char>>) -> bool {
    ||| unit.len() == 1 && unit[0] != "--line"@
    ||| unit.len() == 2 && unit[0] == "--line"@
}

/// The arguments that are these units, one behind the other.
pub open spec fn flat(units: Seq<Seq<Seq<char>>>) -> Seq<Seq<char>>
    decreases units.len(),
{
    if units.len() == 0 {
        seq![]
    } else {
        units[0] + flat(units.skip(1))
    }
}

/// The value of the last `--line` among the units.
pub open spec fn last_line(units: Seq<Seq<Seq<char>>>) -> Option<Seq<char>>
    decreases units.len(),
{
    if units.len() == 0 {
        None
    } else if last_line(units.skip(1)) is Some {
        last_line(units.skip(1))
    } else if units[0].len() == 2 {
        Some(units[0][1])
    } else {
        None
    }
}

/// Whether a unit names a file.
spec fn names_file(unit: Seq<Seq<char>>) -> bool {
    &&& unit.len() == 1
    &&& mode_option(unit[0]) is None
    &&& unit[0] != "--no-open"@
    &&& strip_prefix(unit[0], "--"@) is None
}

/// Whether a unit can be read after `so_far`.
spec fn fits(so_far: ArgsView, unit: Seq<Seq<char>>) -> bool {
    if unit.len() == 2 {
        number(unit[1], u32::MAX as nat) is Some
    } else if mode_option(unit[0]) is Some {
        so_far.mode == Mode::Open
    } else if names_file(unit) {
        so_far.file is None
    } else {
        unit[0] == "--no-open"@
    }
}

/// What the arguments say when a unit that fits is read after `so_far`.
spec fn read_unit(so_far: ArgsView, unit: Seq<Seq<char>>) -> ArgsView {
    if unit.len() == 2 {
        ArgsView { line: Some(number(unit[1], u32::MAX as nat)->0 as u32), ..so_far }
    } else if let Some(mode) = mode_option(unit[0]) {
        ArgsView { mode, ..so_far }
    } else if names_file(unit) {
        ArgsView { file: Some(unit[0]), ..so_far }
    } else {
        ArgsView { no_open: true, ..so_far }
    }
}

/// Whether all units can be read after `so_far`, in their order.
spec fn all_fit(so_far: ArgsView, units: Seq<Seq<Seq<char>>>) -> bool
    decreases units.len(),
{
    units.len() == 0 || fits(so_far, units[0]) && all_fit(
        read_unit(so_far, units[0]),
        units.skip(1),
    )
}

/// What the arguments say when units that fit are read after `so_far`.
spec fn read_all(so_far: ArgsView, units: Seq<Seq<Seq<char>>>) -> ArgsView
    decreases units.len(),
{
    if units.len() == 0 {
        so_far
    } else {
        read_all(read_unit(so_far, units[0]), units.skip(1))
    }
}

/// Reading arguments is reading their units.
proof fn lemma_units(so_far: ArgsView, units: Seq<Seq<Seq<char>>>)
    requires
        forall|i: int| 0 <= i < units.len() ==> is_unit(#[trigger] units[i]),
    ensures
        all_fit(so_far, units) ==> args_from(so_far, flat(units)) == finished(
            read_all(so_far, units),
        ),
        !all_fit(so_far, units) ==> args_from(so_far, flat(units)) is Err,
    decreases units.len(),
{
    if units.len() > 0 {
        let unit = units[0];
        let more = units.skip(1);
        let args = flat(units);
        assert(is_unit(unit));
        assert forall|i: int| 0 <= i < more.len() implies is_unit(#[trigger] more[i]) by {
            assert(more[i] == units[i + 1]);
        }
        lemma_units(read_unit(so_far, unit), more);
        reveal_strlit("--sync");
        reveal_strlit("--quit");
        reveal_strlit("--restart");
        reveal_strlit("--no-open");
        reveal_strlit("--line");
        assert("--line"@[2] == 'l' && "--sync"@[2] == 's' && "--quit"@[2] == 'q');
        assert(args[0] == unit[0]);
        if unit.len() == 2 {
            assert(args.skip(1)[0] == unit[1]);
            assert(args.skip(1).skip(1) == flat(more));
        } else {
            assert(args.skip(1) == flat(more));
        }
    }
}

/// Two states that say the same but for the line.
spec fn alike(a: ArgsView, b: ArgsView) -> bool {
    a.file == b.file && a.mode == b.mode && a.no_open == b.no_open
}

/// The line so far makes no difference to what can be read, nor to what it
/// says of anything else.
proof fn lemma_alike(a: ArgsView, b: ArgsView, units: Seq<Seq<Seq<char>>>)
    requires
        alike(a, b),
    ensures
        all_fit(a, units) == all_fit(b, units),
        alike(read_all(a, units), read_all(b, units)),
    decreases units.len(),
{
    if units.len() > 0 {
        lemma_alike(read_unit(a, units[0]), read_unit(b, units[0]), units.skip(1));
    }
}

/// Two units can change places, but for the line.
proof fn lemma_swap(so_far: ArgsView, a: Seq<Seq<char>>, b: Seq<Seq<char>>)
    ensures
        (fits(so_far, a) && fits(read_unit(so_far, a), b)) == (fits(so_far, b) && fits(
            read_unit(so_far, b),
            a,
        )),
        fits(so_far, a) && fits(read_unit(so_far, a), b) ==> alike(
            read_unit(read_unit(so_far, a), b),
            read_unit(read_unit(so_far, b), a),
        ),
{
}

/// A unit can be read first, but for the line.
proof fn lemma_to_front(so_far: ArgsView, units: Seq<Seq<Seq<char>>>, k: int)
    requires
        0 <= k < units.len(),
    ensures
        ({
            let moved = seq![units[k]] + units.remove(k);
            &&& all_fit(so_far, moved) == all_fit(so_far, units)
            &&& all_fit(so_far, units) ==> alike(read_all(so_far, moved), read_all(so_far, units))
        }),
    decreases k,
{
    let unit = units[k];
    let moved = seq![unit] + units.remove(k);
    if k == 0 {
        assert(moved == units);
    } else {
        let first = units[0];
        let tail = units.skip(1);
        let after = read_unit(so_far, first);
        lemma_to_front(after, tail, k - 1);
        let rest = tail.remove(k - 1);
        assert(tail[k - 1] == unit);
        assert((seq![unit] + rest).skip(1) == rest);
        assert(moved.skip(1) == units.remove(k));
        assert(moved.skip(1)[0] == first);
        assert(moved.skip(1).skip(1) == rest);
        lemma_swap(so_far, first, unit);
        if fits(so_far, first) && fits(after, unit) {
            lemma_alike(
                read_unit(after, unit),
                read_unit(read_unit(so_far, unit), first),
                rest,
            );
        }
        reveal_with_fuel(all_fit, 3);
        reveal_with_fuel(read_all, 3);
    }
}

/// The order of units makes no difference, but for the line.
proof fn lemma_order(
    so_far: ArgsView,
    units: Seq<Seq<Seq<char>>>,
    others: Seq<Seq<Seq<char>>>,
)
    requires
        units.to_multiset() == others.to_multiset(),
    ensures
        all_fit(so_far, units) == all_fit(so_far, others),
        all_fit(so_far, units) ==> alike(read_all(so_far, units), read_all(so_far, others)),
    decreases units.len(),
{
    units.to_multiset_ensures();
    others.to_multiset_ensures();
    assert(units.len() == others.len());
    if units.len() > 0 {
        let unit = units[0];
        assert(units.contains(unit));
        assert(others.to_multiset().count(unit) > 0);
        let k = choose|k: int| 0 <= k < others.len() && others[k] == unit;
        let moved = seq![unit] + others.remove(k);
        lemma_to_front(so_far, others, k);
        assert(units.remove(0) == units.skip(1));
        assert(units.remove(0).to_multiset() == others.remove(k).to_multiset());
        lemma_order(read_unit(so_far, unit), units.skip(1), others.remove(k));
        assert(moved.skip(1) == others.remove(k));
    }
}

/// The line that units say is that of the last `--line`.
proof fn lemma_last_line(so_far: ArgsView, units: Seq<Seq<Seq<char>>>)
    ensures
        read_all(so_far, units).line == match last_line(units) {
            Some(value) => Some(number(value, u32::MAX as nat)->0 as u32),
            None => so_far.line,
        },
    decreases units.len(),
{
    if units.len() > 0 {
        lemma_last_line(read_unit(so_far, units[0]), units.skip(1));
    }
}

/// The arguments may stand in any order, as long as each `--line` stays beside
/// its value, and the last `--line` stays the last: in one order they are
/// accepted exactly if they are in the other, and they say the same.
pub proof fn arguments_may_stand_in_any_order(
    units: Seq<Seq<Seq<char>>>,
    others: Seq<Seq<Seq<char>>>,
)
    requires
        forall|i: int| 0 <= i < units.len() ==> is_unit(#[trigger] units[i]),
        units.to_multiset() == others.to_multiset(),
        last_line(units) == last_line(others),
    ensures
        args_in(flat(units)) is Ok <==> args_in(flat(others)) is Ok,
        args_in(flat(units)) is Ok ==> args_in(flat(units)) == args_in(flat(others)),
{
    units.to_multiset_ensures();
    others.to_multiset_ensures();
    assert forall|i: int| 0 <= i < others.len() implies is_unit(#[trigger] others[i]) by {
        assert(others.contains(others[i]));
        assert(units.to_multiset().count(others[i]) > 0);
        let k = choose|k: int| 0 <= k < units.len() && units[k] == others[i];
        assert(is_unit(units[k]));
    }
    lemma_units(no_args(), units);
    lemma_units(no_args(), others);
    lemma_order(no_args(), units, others);
    lemma_last_line(no_args(), units);
    lemma_last_line(no_args(), others);
}

/// Help beats version, and everything else, wherever it appears.
pub proof fn help_wins(args: Seq<Seq<char>>, i: int)
    requires
        0 <= i < args.len(),
        asks_help(args[i]),
    ensures
        early_in(args) == Some(EarlyExit::Help),
{
}

/// What the program does first.
#[derive(Debug, PartialEq, Eq)]
pub enum Launch {
    /// Print this and exit.
    Answer(String),
    /// Exit without a word.
    Silent,
    /// Complain about the arguments.
    Misuse(String),
    /// Complain about the file.
    Refuse(String),
    /// Update a running server.
    Sync(Args),
    /// Stop a running server.
    Quit,
    /// Stop a running server, then open.
    Restart(Args),
    /// Show the file.
    Open(Args),
}

/// What a [`Launch`] says.
#[verifier::ext_equal]
pub enum LaunchView {
    Answer(Seq<char>),
    Silent,
    Misuse(Seq<char>),
    Refuse(Seq<char>),
    Sync(ArgsView),
    Quit,
    Restart(ArgsView),
    Open(ArgsView),
}

impl View for Launch {
    type V = LaunchView;

    open spec fn view(&self) -> LaunchView {
        match self {
            Launch::Answer(text) => LaunchView::Answer(text@),
            Launch::Silent => LaunchView::Silent,
            Launch::Misuse(text) => LaunchView::Misuse(text@),
            Launch::Refuse(text) => LaunchView::Refuse(text@),
            Launch::Sync(args) => LaunchView::Sync(args@),
            Launch::Quit => LaunchView::Quit,
            Launch::Restart(args) => LaunchView::Restart(args@),
            Launch::Open(args) => LaunchView::Open(args@),
        }
    }
}

/// A failure as it is printed.
pub open spec fn failure_text(message: Seq<char>) -> Seq<char> {
    "mdpreviewer: "@ + message
}

/// A failure as it is printed: always, since a refusal without an explanation
/// looks like a broken key binding.
pub fn failure(message: &str) -> (text: String)
    ensures
        text@ == failure_text(message@),
        text@ == "mdpreviewer: "@ + message@,
{
    String::from_str("mdpreviewer: ").concat(message)
}

/// The file that accepted arguments name, or nothing.
pub open spec fn file_text(args: ArgsView) -> Seq<char> {
    match args.file {
        Some(file) => file,
        None => seq![],
    }
}

/// What the program does first, given the arguments it was called with.
pub open spec fn launch_in(raw: Seq<Seq<char>>) -> LaunchView {
    match early_in(raw) {
        Some(early) => LaunchView::Answer(early_text(early)),
        None => match args_in(raw) {
            Err(message) => if raw.contains("--sync"@) {
                LaunchView::Silent
            } else {
                LaunchView::Misuse(failure_text(message + "\n"@ + USAGE@))
            },
            Ok(args) => match args.mode {
                Mode::Sync => LaunchView::Sync(args),
                Mode::Quit => LaunchView::Quit,
                _ => if !names_markdown(encode_utf8(file_text(args))) {
                    LaunchView::Refuse(failure_text("not a Markdown file: "@ + file_text(args)))
                } else if args.mode == Mode::Restart {
                    LaunchView::Restart(args)
                } else {
                    LaunchView::Open(args)
                },
            },
        },
    }
}

/// Whether `text` is among `list`.
fn holds_text(list: &[String], text: &str) -> (found: bool)
    ensures
        found == texts(list@).contains(text@),
{
    let mut i: usize = 0;
    while i < list.len()
        invariant
            i <= list@.len(),
            forall|j: int| 0 <= j < i ==> texts(list@)[j] != text@,
        decreases list@.len() - i,
    {
        assert(texts(list@)[i as int] == list@[i as int]@);
        if same_text(list[i].as_str(), text) {
            return true;
        }
        i += 1;
    }
    false
}

/// Decide what to do first. Sync mode runs on every save, so it never
/// complains. A file that is no Markdown is refused before a restart, so that
/// a stray keypress in a source file cannot take the server down with it.
pub fn launch(raw: &[String]) -> (launch: Launch)
    ensures
        launch@ == launch_in(texts(raw@)),
{
    if let Some(early) = early_exit(raw) {
        return Launch::Answer(early.message());
    }
    let args = match parse_args(raw) {
        Ok(args) => args,
        Err(message) => {
            if holds_text(raw, "--sync") {
                return Launch::Silent;
            }
            let text = message.concat("\n").concat(USAGE);
            return Launch::Misuse(failure(text.as_str()));
        },
    };
    match args.mode {
        Mode::Sync => return Launch::Sync(args),
        Mode::Quit => return Launch::Quit,
        _ => {},
    }
    let file = args.file_or_empty();
    if !is_markdown(&FilePath::from_text(file)) {
        let text = String::from_str("not a Markdown file: ").concat(file);
        return Launch::Refuse(failure(text.as_str()));
    }
    if args.mode == Mode::Restart {
        Launch::Restart(args)
    } else {
        Launch::Open(args)
    }
}

impl Args {
    /// The file that the arguments name, or nothing.
    pub fn file_or_empty(&self) -> (file: &str)
        ensures
            file@ == file_text(self@),
    {
        match &self.file {
            Some(file) => file.as_str(),
            None => {
                proof {
                    reveal_strlit("");
                    assert(""@ == Seq::<char>::empty());
                }
                ""
            },
        }
    }
}

/// What the program does first on a system without control sockets.
pub open spec fn alone(launch: LaunchView) -> LaunchView {
    match launch {
        LaunchView::Sync(_) | LaunchView::Quit => LaunchView::Silent,
        LaunchView::Restart(args) => LaunchView::Open(args),
        _ => launch,
    }
}

/// Decide what to do first on a system without control sockets: there is no
/// running server to update or to stop, so Sync and Quit mode do nothing, and
/// Restart mode opens.
pub fn without_control(launch: Launch) -> (other: Launch)
    ensures
        other@ == alone(launch@),
{
    match launch {
        Launch::Sync(_) => Launch::Silent,
        Launch::Quit => Launch::Silent,
        Launch::Restart(args) => Launch::Open(args),
        other => other,
    }
}

/// With `--sync` among the arguments, and neither help nor the version asked
/// for, the program never complains: it updates a running server or does
/// nothing.
pub proof fn sync_never_complains(raw: Seq<Seq<char>>)
    requires
        raw.contains("--sync"@),
        early_in(raw) is None,
    ensures
        launch_in(raw) is Silent || launch_in(raw) is Sync,
{
    sync_anywhere_means_sync(raw);
}

/// A file is opened, or the server restarted for it, only if it is Markdown.
pub proof fn only_markdown_is_opened(raw: Seq<Seq<char>>)
    ensures
        launch_in(raw) matches LaunchView::Open(args) ==> args.mode == Mode::Open
            && args.file is Some && names_markdown(encode_utf8(args.file->0)),
        launch_in(raw) matches LaunchView::Restart(args) ==> args.mode == Mode::Restart
            && args.file is Some && names_markdown(encode_utf8(args.file->0)),
{
    only_quit_takes_no_file(raw);
}

/// `text` without the slashes at its start.
pub open spec fn behind_slashes(text: Seq<char>) -> Seq<char>
    decreases text.len(),
{
    if text.len() > 0 && text[0] == '/' {
        behind_slashes(text.skip(1))
    } else {
        text
    }
}

/// The path that `file` names for a user whose home is `home`. Only a `~` that
/// is the whole first name is the home, and only where there is one.
pub open spec fn home_path(file: Seq<char>, home: Option<Seq<u8>>) -> Seq<u8> {
    if file.len() > 0 && file[0] == '~' && (file.len() == 1 || file[1] == '/') {
        match home {
            Some(dir) if dir.len() > 0 => join(dir, encode_utf8(behind_slashes(file.skip(1)))),
            _ => encode_utf8(file),
        }
    } else {
        encode_utf8(file)
    }
}

/// The view of a path that may be missing.
pub open spec fn path_view(path: Option<&FilePath>) -> Option<Seq<u8>> {
    match path {
        Some(path) => Some(path@),
        None => None,
    }
}

/// Expand a leading `~`. An editor may name a file relative to the home, and
/// `~` is an ordinary directory name to the system. `~user` names someone
/// else's home, which only a shell can resolve.
pub fn expand_home(file: &str, home: Option<&FilePath>) -> (path: FilePath)
    ensures
        path@ == home_path(file@, path_view(home)),
{
    let chars = chars_of(file);
    if chars.len() == 0 || chars[0] != '~' || (chars.len() > 1 && chars[1] != '/') {
        return FilePath::from_text(file);
    }
    match home {
        Some(dir) => {
            if dir.as_bytes().len() == 0 {
                return FilePath::from_text(file);
            }
            let mut i: usize = 1;
            while i < chars.len() && chars[i] == '/'
                invariant
                    1 <= i <= chars@.len(),
                    chars@ == file@,
                    behind_slashes(file@.skip(i as int)) == behind_slashes(file@.skip(1)),
                decreases chars@.len() - i,
            {
                assert(file@.skip(i as int).skip(1) == file@.skip(i + 1));
                i += 1;
            }
            let rest = file.substring_char(i, chars.len());
            assert(rest@ == file@.skip(i as int));
            dir.join(&FilePath::from_text(rest))
        },
        None => FilePath::from_text(file),
    }
}

/// The URL to open in a browser.
pub open spec fn page_at(url: Seq<char>, line: Option<u32>) -> Seq<char> {
    match line {
        Some(n) => url + "#line="@ + decimal(n as nat),
        None => url,
    }
}

/// The URL to open in a browser. `#line=N` tells a freshly opened tab where to
/// scroll, since it was not connected yet when the editor asked.
pub fn page_url(url: &str, line: Option<u32>) -> (page: String)
    ensures
        page@ == page_at(url@, line),
        line is None ==> page@ == url@,
        line matches Some(n) ==> page@ == url@ + "#line="@ + decimal(n as nat),
{
    let mut page = url.to_owned();
    if let Some(n) = line {
        page.append("#line=");
        push_decimal(&mut page, n as u64);
    }
    page
}

/// The base URL of a server on local port `port`.
pub fn local_url(port: u16) -> (url: String)
    ensures
        url@ == "http://127.0.0.1:"@ + decimal(port as nat) + "/"@,
{
    let mut url = String::from_str("http://127.0.0.1:");
    push_decimal(&mut url, port as u64);
    url.append("/");
    url
}

/// The path that Sync mode hands on, not yet canonical. A file that is no
/// Markdown, or none at all, is left alone.
pub fn sync_target(args: &Args, home: Option<&FilePath>) -> (path: Option<FilePath>)
    ensures
        match (path, args@.file) {
            (Some(path), Some(file)) => names_markdown(encode_utf8(file)) && path@ == home_path(
                file,
                path_view(home),
            ),
            (Some(_), None) => false,
            (None, Some(file)) => !names_markdown(encode_utf8(file)),
            (None, None) => true,
        },
{
    match &args.file {
        Some(file) => {
            if is_markdown(&FilePath::from_text(file.as_str())) {
                Some(expand_home(file.as_str(), home))
            } else {
                None
            }
        },
        None => None,
    }
}

/// No slash starts what is behind the slashes.
proof fn lemma_behind_slashes(text: Seq<char>)
    ensures
        behind_slashes(text).len() > 0 ==> behind_slashes(text)[0] != '/',
    decreases text.len(),
{
    if text.len() > 0 && text[0] == '/' {
        lemma_behind_slashes(text.skip(1));
    }
}

/// Expanding `~` leads below the home directory: what follows never takes the
/// place of it.
pub proof fn home_path_starts_with_the_home(file: Seq<char>, dir: Seq<u8>)
    requires
        file.len() > 0,
        file[0] == '~',
        file.len() == 1 || file[1] == '/',
        dir.len() > 0,
    ensures
        strip_prefix(home_path(file, Some(dir)), dir) is Some,
{
    let rest = behind_slashes(file.skip(1));
    lemma_behind_slashes(file.skip(1));
    lemma_first_byte(rest, '/');
    assert(home_path(file, Some(dir)).take(dir.len() as int) == dir);
}

/// What asking the running server to quit did.
#[derive(Debug, PartialEq, Eq)]
pub enum Stop {
    /// It acknowledged and is going away.
    Stopped,
    /// Nothing was listening.
    NoServer,
    /// Something answered but would not quit. In practice that is a server
    /// from a build that predates `--quit`; it has to be killed by PID.
    Refused,
    /// The socket directory failed its safety check, so no server could be
    /// reached, or have bound there. Carries the reason.
    Unusable(String),
}

/// A server that answers but will not quit predates `--quit`, so there is no
/// way to ask it to go; it has to be killed by PID.
pub const REFUSED: &'static str = "the running preview server is too old to quit; kill it by PID (ps | grep mdpreviewer)";

/// A server that acknowledged but is still there after the wait.
pub const LINGERING: &'static str = "the running preview server did not exit; kill it by PID (ps | grep mdpreviewer)";

/// How a reply to `quit` maps onto [`Stop`].
pub fn classify(result: Result<Reply, SendError>) -> (stop: Stop)
    ensures
        stop is Stopped <==> (result matches Ok(reply) && reply is Bye),
        stop is NoServer <==> (result matches Err(err) && err is NoServer),
        stop !is Unusable,
{
    match result {
        Ok(Reply::Bye) => Stop::Stopped,
        Err(SendError::NoServer) => Stop::NoServer,
        _ => Stop::Refused,
    }
}

/// A server that cannot be reached, because the directory of its socket failed
/// the check with `reason`.
pub fn unreachable_server(reason: &str) -> (stop: Stop)
    ensures
        stop matches Stop::Unusable(text) && text@ == "control socket is unusable: "@ + reason@,
{
    Stop::Unusable(String::from_str("control socket is unusable: ").concat(reason))
}

/// What `--quit` says: a report of success, or a failure. Finding no server is
/// no failure.
pub fn quit_outcome(stop: Stop) -> (outcome: Result<String, String>)
    ensures
        match (stop, outcome) {
            (Stop::Stopped, Ok(text)) => text@ == "stopped the preview server"@,
            (Stop::NoServer, Ok(text)) => text@ == "no preview server running"@,
            (Stop::Refused, Err(text)) => text@ == failure_text(REFUSED@),
            (Stop::Unusable(reason), Err(text)) => text@ == failure_text(reason@),
            _ => false,
        },
{
    match stop {
        Stop::Stopped => Ok(String::from_str("stopped the preview server")),
        Stop::NoServer => Ok(String::from_str("no preview server running")),
        Stop::Refused => Err(failure(REFUSED)),
        Stop::Unusable(reason) => Err(failure(reason.as_str())),
    }
}

/// How `--restart` goes on after asking the running server to quit.
#[derive(Debug, PartialEq, Eq)]
pub enum Restart {
    /// Wait for it to release the socket, then open.
    Await,
    /// There is nothing to wait for: open.
    Open,
    /// Give up, with this failure.
    Fail(String),
}

/// How `--restart` goes on. Opening would hand the file to a server that
/// refused, so that it would look as if the restart did nothing.
pub fn restart_plan(stop: &Stop) -> (plan: Restart)
    ensures
        match *stop {
            Stop::Stopped => plan is Await,
            Stop::NoServer | Stop::Unusable(_) => plan is Open,
            Stop::Refused => plan matches Restart::Fail(text) && text@ == failure_text(REFUSED@),
        },
{
    match stop {
        Stop::Stopped => Restart::Await,
        Stop::Refused => Restart::Fail(failure(REFUSED)),
        Stop::NoServer => Restart::Open,
        Stop::Unusable(_) => Restart::Open,
    }
}

/// What to do while the old server lets go of the socket.
#[derive(Debug, PartialEq, Eq)]
pub enum Waiting {
    /// It is gone: open.
    Open,
    /// Look again after a pause.
    Pause,
    /// Give up, with this failure.
    Fail(String),
}

/// Whether the time of the old server is up, when it has been waited for this
/// many milliseconds.
pub fn is_past(waited_ms: u64) -> (past: bool)
    ensures
        past == (waited_ms >= RESTART_TIMEOUT_MS),
        past <==> waited_ms >= 2000,
{
    waited_ms >= RESTART_TIMEOUT_MS
}

/// Whether to wait longer for the old server, which is still `listening` or
/// not, and whose time may be `past`.
pub fn wait_for_exit(listening: bool, past: bool) -> (step: Waiting)
    ensures
        step is Open <==> !listening,
        step is Pause <==> listening && !past,
        step matches Waiting::Fail(text) ==> text@ == failure_text(LINGERING@),
{
    if !listening {
        Waiting::Open
    } else if past {
        Waiting::Fail(failure(LINGERING))
    } else {
        Waiting::Pause
    }
}

/// What came of handing the file to a running server.
#[derive(Debug, PartialEq, Eq)]
pub enum Reuse {
    /// Print this URL; done.
    Print(String),
    /// Open a browser tab at this URL; done.
    Browse(String),
    /// A tab shows the file already; done.
    Shown,
    /// Give up, with this failure.
    Fail(String),
    /// No server is running: bind the socket and start one.
    Bind,
    /// The socket cannot be used: warn with this and run a server without it.
    Standalone(String),
}

/// What a [`Reuse`] says.
#[verifier::ext_equal]
pub enum ReuseView {
    Print(Seq<char>),
    Browse(Seq<char>),
    Shown,
    Fail(Seq<char>),
    Bind,
    Standalone(Seq<char>),
}

impl View for Reuse {
    type V = ReuseView;

    open spec fn view(&self) -> ReuseView {
        match self {
            Reuse::Print(url) => ReuseView::Print(url@),
            Reuse::Browse(url) => ReuseView::Browse(url@),
            Reuse::Shown => ReuseView::Shown,
            Reuse::Fail(text) => ReuseView::Fail(text@),
            Reuse::Bind => ReuseView::Bind,
            Reuse::Standalone(text) => ReuseView::Standalone(text@),
        }
    }
}

/// The view of what came of sending a command.
pub open spec fn sent_view(result: Result<Reply, SendError>) -> Result<ReplyView, SendErrorView> {
    match result {
        Ok(reply) => Ok(reply@),
        Err(err) => Err(err@),
    }
}

/// What follows from what came of handing the file to a running server. A new
/// tab opens only if none is open, and only if it may.
pub open spec fn reuse_of(
    sent: Result<ReplyView, SendErrorView>,
    no_open: bool,
    line: Option<u32>,
) -> ReuseView {
    match sent {
        Ok(ReplyView::Accepted { url, clients }) => if no_open {
            ReuseView::Print(url)
        } else if clients == 0 {
            ReuseView::Browse(page_at(url, line))
        } else {
            ReuseView::Shown
        },
        Ok(ReplyView::Bye) => ReuseView::Fail(
            failure_text("unexpected reply from the control socket"@),
        ),
        Ok(ReplyView::Refused(reason)) => ReuseView::Fail(failure_text(reason)),
        Err(SendErrorView::NoServer) => ReuseView::Bind,
        Err(SendErrorView::Unusable(text)) => ReuseView::Standalone(
            failure_text(
                send_error_text(SendErrorView::Unusable(text)) + "; running a standalone preview"@,
            ),
        ),
        Err(err) => ReuseView::Fail(failure_text(send_error_text(err))),
    }
}

/// Decide what follows from handing the file to a running server: point the
/// browser at it when no tab is listening, print the URL with `--no-open`,
/// start a server if none is running, or report what went wrong.
pub fn reuse(result: Result<Reply, SendError>, no_open: bool, line: Option<u32>) -> (next: Reuse)
    ensures
        next@ == reuse_of(sent_view(result), no_open, line),
{
    match result {
        Ok(Reply::Accepted { url, clients }) => {
            if no_open {
                Reuse::Print(url)
            } else if clients == 0 {
                Reuse::Browse(page_url(url.as_str(), line))
            } else {
                Reuse::Shown
            }
        },
        Ok(Reply::Bye) => Reuse::Fail(failure("unexpected reply from the control socket")),
        Ok(Reply::Refused(reason)) => Reuse::Fail(failure(reason.as_str())),
        Err(SendError::NoServer) => Reuse::Bind,
        Err(SendError::Unusable(text)) => {
            let message = SendError::Unusable(text).message().concat(
                "; running a standalone preview",
            );
            Reuse::Standalone(failure(message.as_str()))
        },
        Err(err) => Reuse::Fail(failure(err.message().as_str())),
    }
}

/// The warning that the control socket cannot be used, for this `reason`.
pub fn socket_warning(socket: &FilePath, reason: &str) -> (text: String)
    ensures
        text@ == failure_text(
            "cannot use "@ + lossy_text(socket@) + " ("@ + reason@
                + "); running a standalone preview"@,
        ),
{
    let mut message = String::from_str("cannot use ");
    message.append(socket.display().as_str());
    message.append(" (");
    message.append(reason);
    message.append("); running a standalone preview");
    failure(message.as_str())
}

/// How a new preview is announced.
#[derive(Debug, PartialEq, Eq)]
pub struct Announcement {
    /// The URL to open a browser tab at.
    pub browse: Option<String>,
    /// What to print.
    pub print: Option<String>,
}

/// Open the browser at the preview, scrolled to the line, and report the URL
/// if stdout is a terminal. With `--no-open`, only print the URL, even when
/// stdout is not a terminal.
pub fn announce(url: &str, no_open: bool, line: Option<u32>, terminal: bool) -> (announcement:
    Announcement)
    ensures
        text_view(announcement.browse) == if no_open {
            None
        } else {
            Some(page_at(url@, line))
        },
        text_view(announcement.print) == if no_open || terminal {
            Some(url@)
        } else {
            None
        },
{
    let browse = if no_open {
        None
    } else {
        Some(page_url(url, line))
    };
    let print = if no_open || terminal {
        Some(url.to_owned())
    } else {
        None
    };
    Announcement { browse, print }
}

/// A tab is opened only where no tab is open and the caller may open one.
pub proof fn a_tab_opens_only_if_none_is_open(
    sent: Result<ReplyView, SendErrorView>,
    no_open: bool,
    line: Option<u32>,
)
    ensures
        reuse_of(sent, no_open, line) is Browse <==> !no_open && sent is Ok && sent->Ok_0
            is Accepted && sent->Ok_0->clients == 0,
{
}

/// A server is started only where none is running, or where none can be
/// reached.
pub proof fn a_server_starts_only_if_none_answers(
    sent: Result<ReplyView, SendErrorView>,
    no_open: bool,
    line: Option<u32>,
)
    ensures
        reuse_of(sent, no_open, line) is Bind || reuse_of(sent, no_open, line) is Standalone
            ==> sent is Err && (sent->Err_0 is NoServer || sent->Err_0 is Unusable),
{
}

/// How long open mode waits for a running server before giving up, in
/// milliseconds.
pub const OPEN_TIMEOUT_MS: u64 = 1000;

/// How long sync mode waits, in milliseconds: it runs on every save, so it
/// must stay snappy.
pub const SYNC_TIMEOUT_MS: u64 = 500;

/// How long `--restart` waits for the old server to release the socket, in
/// milliseconds.
pub const RESTART_TIMEOUT_MS: u64 = 2000;

/// How often `--restart` looks whether the old server is gone, in
/// milliseconds.
pub const RESTART_STEP_MS: u64 = 20;

/// Whether the argument at `i` is the file: it is no option, nor the value of
/// one.
pub open spec fn is_file_at(args: Seq<Seq<char>>, i: int) -> bool {
    &&& 0 <= i < args.len()
    &&& strip_prefix(args[i], "--"@) is None
    &&& i == 0 || args[i - 1] != "--line"@
}

/// A number does not look like an option.
proof fn lemma_numbers_are_no_options(text: Seq<char>)
    requires
        number(text, u32::MAX as nat) is Some,
    ensures
        strip_prefix(text, "--"@) is None,
        text != "--line"@,
        text != "--no-open"@,
        mode_option(text) is None,
{
    reveal_strlit("--");
    reveal_strlit("--line");
    reveal_strlit("--no-open");
    reveal_strlit("--sync");
    reveal_strlit("--quit");
    reveal_strlit("--restart");
    if text.len() > 1 && text[0] == '-' {
        assert(!is_digit(unsigned(text)[0]));
        assert(false);
    }
    if strip_prefix(text, "--"@) is Some {
        assert(text.take(2)[0] == '-');
    }
}

/// The options are five different texts, and each starts as options do.
proof fn lemma_options_differ()
    ensures
        mode_option("--line"@) is None,
        mode_option("--no-open"@) is None,
        "--line"@ != "--no-open"@,
        strip_prefix("--line"@, "--"@) is Some,
        strip_prefix("--no-open"@, "--"@) is Some,
        strip_prefix("--sync"@, "--"@) is Some,
        strip_prefix("--quit"@, "--"@) is Some,
        strip_prefix("--restart"@, "--"@) is Some,
        mode_option("--sync"@) == Some(Mode::Sync),
        mode_option("--quit"@) == Some(Mode::Quit),
        mode_option("--restart"@) == Some(Mode::Restart),
{
    reveal_strlit("--");
    reveal_strlit("--line");
    reveal_strlit("--no-open");
    reveal_strlit("--sync");
    reveal_strlit("--quit");
    reveal_strlit("--restart");
    assert("--line"@[2] == 'l' && "--no-open"@[2] == 'n' && "--sync"@[2] == 's' && "--quit"@[2]
        == 'q' && "--restart"@[2] == 'r');
    assert("--line"@.take(2) == "--"@);
    assert("--no-open"@.take(2) == "--"@);
    assert("--sync"@.take(2) == "--"@);
    assert("--quit"@.take(2) == "--"@);
    assert("--restart"@.take(2) == "--"@);
}

/// How many arguments are read first, and what they come to.
spec fn first_read(so_far: ArgsView, args: Seq<Seq<char>>) -> (int, ArgsView) {
    if let Some(mode) = mode_option(args[0]) {
        (1, ArgsView { mode, ..so_far })
    } else if args[0] == "--no-open"@ {
        (1, ArgsView { no_open: true, ..so_far })
    } else if args[0] == "--line"@ {
        (2, ArgsView { line: Some(number(args[1], u32::MAX as nat)->0 as u32), ..so_far })
    } else {
        (1, ArgsView { file: Some(args[0]), ..so_far })
    }
}

/// Reading accepted arguments goes on behind the first.
proof fn lemma_first_read(so_far: ArgsView, args: Seq<Seq<char>>)
    requires
        args_from(so_far, args) is Ok,
        args.len() > 0,
    ensures
        ({
            let (n, after) = first_read(so_far, args);
            &&& n <= args.len()
            &&& args_from(so_far, args) == args_from(after, args.skip(n))
            &&& args[n - 1] != "--line"@
            &&& n == 2 ==> number(args[1], u32::MAX as nat) is Some && args[0] == "--line"@
            &&& n == 1 && mode_option(args[0]) is Some ==> so_far.mode == Mode::Open
            &&& n == 1 && mode_option(args[0]) is None && args[0] != "--no-open"@
                ==> so_far.file is None && strip_prefix(args[0], "--"@) is None
            &&& n == 1 ==> args[0] != "--line"@
        }),
{
    lemma_options_differ();
    if args[0] == "--line"@ {
        lemma_numbers_are_no_options(args[1]);
        assert(args.skip(1)[0] == args[1]);
        assert(args.skip(1).skip(1) == args.skip(2));
    }
}

/// The last `--line` says the line.
proof fn lemma_line_said(so_far: ArgsView, args: Seq<Seq<char>>, i: int)
    requires
        args_from(so_far, args) is Ok,
    ensures
        0 <= i < args.len() && args[i] == "--line"@ ==> i + 1 < args.len() && number(
            args[i + 1],
            u32::MAX as nat,
        ) is Some,
        0 <= i < args.len() && args[i] == "--line"@ && (forall|j: int|
            i < j < args.len() ==> #[trigger] args[j] != "--line"@) ==> args_from(
            so_far,
            args,
        )->Ok_0.line == Some(number(args[i + 1], u32::MAX as nat)->0 as u32),
        (forall|j: int| 0 <= j < args.len() ==> #[trigger] args[j] != "--line"@) ==> args_from(
            so_far,
            args,
        )->Ok_0.line == so_far.line,
    decreases args.len(),
{
    if args.len() > 0 {
        lemma_first_read(so_far, args);
        let (n, after) = first_read(so_far, args);
        let rest = args.skip(n);
        lemma_line_said(after, rest, i - n);
        if n <= i < args.len() {
            assert(rest[i - n] == args[i]);
            if i + 1 < args.len() {
                assert(rest[i - n + 1] == args[i + 1]);
            }
        }
        assert forall|j: int| 0 <= j < rest.len() implies #[trigger] rest[j] == args[j + n] by {}
    }
}

/// The file that is said is the argument that is one.
proof fn lemma_file_said(so_far: ArgsView, args: Seq<Seq<char>>, i: int)
    requires
        args_from(so_far, args) is Ok,
    ensures
        is_file_at(args, i) ==> args_from(so_far, args)->Ok_0.file == Some(args[i])
            && so_far.file is None,
        (forall|k: int| !#[trigger] is_file_at(args, k)) ==> args_from(so_far, args)->Ok_0.file
            == so_far.file,
    decreases args.len(),
{
    if args.len() > 0 {
        lemma_first_read(so_far, args);
        lemma_options_differ();
        let (n, after) = first_read(so_far, args);
        let rest = args.skip(n);
        lemma_tail(args, n);
        lemma_file_said(after, rest, i - n);
        assert(is_file_at(args, i) && i >= n ==> is_file_at(rest, i - n) && rest[i - n] == args[i]);
        if after.file is Some {
            assert forall|k: int| !#[trigger] is_file_at(rest, k) by {
                lemma_file_said(after, rest, k);
            }
        }
        if forall|k: int| !#[trigger] is_file_at(args, k) {
            assert(!is_file_at(args, 0));
            assert forall|k: int| !#[trigger] is_file_at(rest, k) by {
                assert(!is_file_at(args, k + n));
            }
        }
    }
}

/// What is the file among the arguments behind the first is so among all.
proof fn lemma_tail(args: Seq<Seq<char>>, n: int)
    requires
        1 <= n <= args.len(),
        args[n - 1] != "--line"@,
    ensures
        forall|k: int| #[trigger] is_file_at(args.skip(n), k) ==> is_file_at(args, k + n),
        forall|k: int| k >= n && #[trigger] is_file_at(args, k) ==> is_file_at(args.skip(n), k - n),
{
    let rest = args.skip(n);
    assert forall|k: int| #[trigger] is_file_at(rest, k) implies is_file_at(args, k + n) by {
        assert(rest[k] == args[k + n]);
        if k > 0 {
            assert(rest[k - 1] == args[k + n - 1]);
        }
    }
    assert forall|k: int| k >= n && #[trigger] is_file_at(args, k) implies is_file_at(
        rest,
        k - n,
    ) by {
        assert(rest[k - n] == args[k]);
        if k > n {
            assert(rest[k - n - 1] == args[k - 1]);
        }
    }
}

/// There is no second file among accepted arguments.
proof fn lemma_one_file(so_far: ArgsView, args: Seq<Seq<char>>, i: int, j: int)
    requires
        args_from(so_far, args) is Ok,
        is_file_at(args, i),
        is_file_at(args, j),
    ensures
        i == j,
    decreases args.len(),
{
    lemma_first_read(so_far, args);
    lemma_options_differ();
    let (n, after) = first_read(so_far, args);
    lemma_tail(args, n);
    if i >= n && j >= n {
        lemma_one_file(after, args.skip(n), i - n, j - n);
    } else if i >= n {
        lemma_file_said(after, args.skip(n), i - n);
    } else if j >= n {
        lemma_file_said(after, args.skip(n), j - n);
    }
}

/// The mode that is said is the one that an option selects, and every option
/// is known.
proof fn lemma_mode_said(so_far: ArgsView, args: Seq<Seq<char>>, i: int)
    requires
        args_from(so_far, args) is Ok,
    ensures
        0 <= i < args.len() && mode_option(args[i]) is Some ==> mode_option(args[i]) == Some(
            args_from(so_far, args)->Ok_0.mode,
        ) && so_far.mode == Mode::Open,
        (forall|k: int| 0 <= k < args.len() ==> mode_option(#[trigger] args[k]) is None)
            ==> args_from(so_far, args)->Ok_0.mode == so_far.mode,
        0 <= i < args.len() && args[i] == "--no-open"@ ==> args_from(so_far, args)->Ok_0.no_open,
        (forall|k: int| 0 <= k < args.len() ==> #[trigger] args[k] != "--no-open"@) ==> args_from(
            so_far,
            args,
        )->Ok_0.no_open == so_far.no_open,
        so_far.no_open ==> args_from(so_far, args)->Ok_0.no_open,
        so_far.mode != Mode::Open ==> args_from(so_far, args)->Ok_0.mode == so_far.mode,
        0 <= i < args.len() && strip_prefix(args[i], "--"@) is Some ==> args[i] == "--line"@
            || args[i] == "--no-open"@ || mode_option(args[i]) is Some,
    decreases args.len(),
{
    if args.len() > 0 {
        lemma_first_read(so_far, args);
        lemma_options_differ();
        let (n, after) = first_read(so_far, args);
        let rest = args.skip(n);
        lemma_mode_said(after, rest, i - n);
        if n == 2 {
            lemma_numbers_are_no_options(args[1]);
        }
        if n <= i < args.len() {
            assert(rest[i - n] == args[i]);
        }
        assert forall|j: int| 0 <= j < rest.len() implies #[trigger] rest[j] == args[j + n] by {}
        if forall|k: int| 0 <= k < args.len() ==> #[trigger] args[k] != "--no-open"@ {
            assert(args[0] != "--no-open"@);
        }
        if forall|k: int| 0 <= k < args.len() ==> mode_option(#[trigger] args[k]) is None {
            assert(mode_option(args[0]) is None);
        }
    }
}

/// Where arguments are accepted, the line that they say is the number behind
/// the last `--line` among them, unchanged for every number that a line can
/// have, and they say none exactly if there is no `--line`.
pub proof fn the_last_line_is_the_one_said(args: Seq<Seq<char>>, i: int, n: nat)
    ensures
        args_in(args) matches Ok(parsed) ==> {
            &&& parsed.line is None <==> !args.contains("--line"@)
            &&& 0 <= i < args.len() && args[i] == "--line"@ && !args.skip(i + 1).contains(
                "--line"@,
            ) ==> i + 1 < args.len() && (number(args[i + 1], u32::MAX as nat) matches Some(said)
                && parsed.line is Some && parsed.line->0 == said)
            &&& 0 <= i && i + 1 < args.len() && args[i] == "--line"@ && !args.skip(i + 1).contains(
                "--line"@,
            ) && args[i + 1] == decimal(n) && n <= u32::MAX ==> parsed.line is Some
                && parsed.line->0 == n
        },
{
    if let Ok(parsed) = args_in(args) {
        lemma_line_said(no_args(), args, i);
        if 0 <= i < args.len() && args[i] == "--line"@ && !args.skip(i + 1).contains("--line"@) {
            assert forall|j: int| i < j < args.len() implies #[trigger] args[j] != "--line"@ by {
                assert(args.skip(i + 1)[j - i - 1] == args[j]);
            }
            if n <= u32::MAX {
                decimal_reads_back(n, u32::MAX as nat);
            }
        }
        if args.contains("--line"@) {
            let last = last_index(args, "--line"@);
            lemma_last_option(args);
            lemma_line_said(no_args(), args, last);
        } else {
            assert forall|j: int| 0 <= j < args.len() implies #[trigger] args[j] != "--line"@ by {
                assert(args.contains(args[j]));
            }
        }
    }
}

/// The last `--line` stands where it is found.
proof fn lemma_last_option(args: Seq<Seq<char>>)
    requires
        args.contains("--line"@),
    ensures
        ({
            let i = last_index(args, "--line"@);
            &&& 0 <= i < args.len() && args[i] == "--line"@
            &&& forall|j: int| i < j < args.len() ==> #[trigger] args[j] != "--line"@
        }),
    decreases args.len(),
{
    if args.last() != "--line"@ {
        let k = choose|k: int| 0 <= k < args.len() && args[k] == "--line"@;
        assert(args.drop_last()[k] == "--line"@);
        lemma_last_option(args.drop_last());
        assert forall|j: int| last_index(args, "--line"@) < j < args.len() implies #[trigger] args[j]
            != "--line"@ by {
            if j < args.len() - 1 {
                assert(args.drop_last()[j] == args[j]);
            }
        }
    }
}

/// Where arguments are accepted, the file that they say is exactly the one
/// argument that does not start with `--` and does not stand behind `--line`;
/// there is no second such argument, and they say none exactly if there is
/// none.
pub proof fn the_file_is_the_argument_that_is_no_option(args: Seq<Seq<char>>, i: int, j: int)
    ensures
        is_file_at(args, i) <==> 0 <= i < args.len() && strip_prefix(args[i], "--"@) is None && (i
            == 0 || args[i - 1] != "--line"@),
        args_in(args) matches Ok(parsed) ==> {
            &&& is_file_at(args, i) ==> parsed.file == Some(args[i])
            &&& is_file_at(args, i) && is_file_at(args, j) ==> i == j
            &&& parsed.file is None <==> forall|k: int| !#[trigger] is_file_at(args, k)
        },
{
    if let Ok(parsed) = args_in(args) {
        lemma_file_said(no_args(), args, i);
        if is_file_at(args, i) && is_file_at(args, j) {
            lemma_one_file(no_args(), args, i, j);
        }
        if exists|k: int| #[trigger] is_file_at(args, k) {
            let k = choose|k: int| #[trigger] is_file_at(args, k);
            lemma_file_said(no_args(), args, k);
        }
    }
}

/// Where arguments are accepted, their mode is the one that an option among
/// them selects, and opening where none does; and `--no-open` counts exactly if
/// it is there.
pub proof fn the_mode_is_the_one_selected(args: Seq<Seq<char>>)
    ensures
        args_in(args) matches Ok(parsed) ==> {
            &&& parsed.mode == Mode::Sync <==> args.contains("--sync"@)
            &&& parsed.mode == Mode::Quit <==> args.contains("--quit"@)
            &&& parsed.mode == Mode::Restart <==> args.contains("--restart"@)
            &&& parsed.no_open <==> args.contains("--no-open"@)
        },
{
    if let Ok(parsed) = args_in(args) {
        lemma_options_differ();
        lemma_mode_said(no_args(), args, 0);
        assert forall|i: int| 0 <= i < args.len() && mode_option(#[trigger] args[i]) is Some implies
            mode_option(args[i]) == Some(parsed.mode) by {
            lemma_mode_said(no_args(), args, i);
        }
        assert forall|i: int| 0 <= i < args.len() && #[trigger] args[i] == "--no-open"@ implies
            parsed.no_open by {
            lemma_mode_said(no_args(), args, i);
        }
        if parsed.mode != Mode::Open {
            let k = choose|k: int| 0 <= k < args.len() && mode_option(#[trigger] args[k]) is Some;
            assert(args.contains(args[k]));
        }
    }
}

/// Whether all that is asked of arguments holds of those that are read after
/// `so_far`.
spec fn acceptable(so_far: ArgsView, args: Seq<Seq<char>>) -> bool {
    &&& forall|i: int|
        0 <= i < args.len() && (#[trigger] args.skip(i))[0] == "--line"@ ==> args.skip(i).len() > 1
            && number(args.skip(i)[1], u32::MAX as nat) is Some
    &&& forall|i: int|
        0 <= i < args.len() && strip_prefix(#[trigger] args[i], "--"@) is Some ==> args[i]
            == "--line"@ || args[i] == "--no-open"@ || mode_option(args[i]) is Some
    &&& forall|i: int, j: int|
        0 <= i < j < args.len() ==> mode_option(#[trigger] args[i]) is None || mode_option(
            #[trigger] args[j],
        ) is None
    &&& so_far.mode != Mode::Open ==> forall|i: int|
        0 <= i < args.len() ==> mode_option(#[trigger] args[i]) is None
    &&& forall|i: int, j: int| #[trigger]
        is_file_at(args, i) && #[trigger] is_file_at(args, j) ==> i == j
    &&& so_far.file is Some ==> forall|i: int| !#[trigger] is_file_at(args, i)
    &&& (so_far.mode == Mode::Quit || args.contains("--quit"@)) <==> so_far.file is None && (
    forall|i: int| !#[trigger] is_file_at(args, i))
}

/// What is asked of arguments is asked of those behind the first.
#[verifier::rlimit(40)]
proof fn lemma_acceptable_tail(so_far: ArgsView, args: Seq<Seq<char>>)
    requires
        acceptable(so_far, args),
        args.len() > 0,
    ensures
        ({
            let (n, after) = first_read(so_far, args);
            &&& n <= args.len()
            &&& n == 2 ==> number(args[1], u32::MAX as nat) is Some
            &&& args[n - 1] != "--line"@
            &&& mode_option(args[0]) is Some ==> so_far.mode == Mode::Open
            &&& n == 1 && mode_option(args[0]) is None && args[0] != "--no-open"@
                ==> so_far.file is None && strip_prefix(args[0], "--"@) is None
            &&& acceptable(after, args.skip(n))
        }),
{
    lemma_options_differ();
    let (n, after) = first_read(so_far, args);
    assert(args.skip(0) == args);
    if n == 2 {
        lemma_numbers_are_no_options(args[1]);
    }
    let rest = args.skip(n);
    lemma_tail(args, n);
    assert forall|i: int| 0 <= i < rest.len() && (#[trigger] rest.skip(i))[0] == "--line"@ implies
        rest.skip(i).len() > 1 && number(rest.skip(i)[1], u32::MAX as nat) is Some by {
        assert(rest.skip(i) == args.skip(i + n));
    }
    assert forall|i: int| 0 <= i < rest.len() implies #[trigger] rest[i] == args[i + n] by {}
    assert forall|i: int, j: int| 0 <= i < j < rest.len() implies mode_option(#[trigger] rest[i])
        is None || mode_option(#[trigger] rest[j]) is None by {
        assert(rest[i] == args[i + n] && rest[j] == args[j + n]);
    }
    assert forall|i: int, j: int| #[trigger]
        is_file_at(rest, i) && #[trigger] is_file_at(rest, j) implies i == j by {
        assert(is_file_at(args, i + n) && is_file_at(args, j + n));
    }
    if n == 1 && mode_option(args[0]) is None && args[0] != "--no-open"@ {
        assert(is_file_at(args, 0));
    }
    if after.mode != Mode::Open {
        assert forall|i: int| 0 <= i < rest.len() implies mode_option(#[trigger] rest[i])
            is None by {
            assert(rest[i] == args[i + n]);
            if so_far.mode == Mode::Open {
                assert(mode_option(args[0]) is Some);
            }
        }
    }
    if after.file is Some {
        assert forall|i: int| !#[trigger] is_file_at(rest, i) by {
            if is_file_at(rest, i) {
                assert(is_file_at(args, i + n));
            }
        }
    }
    lemma_acceptable_end(so_far, args);
}

/// Whether Quit mode is selected, and whether a file is there, does not change
/// while arguments are read.
proof fn lemma_acceptable_end(so_far: ArgsView, args: Seq<Seq<char>>)
    requires
        args.len() > 0,
        ({
            let (n, after) = first_read(so_far, args);
            &&& n <= args.len()
            &&& n == 2 ==> number(args[1], u32::MAX as nat) is Some
            &&& args[n - 1] != "--line"@
            &&& mode_option(args[0]) is Some ==> so_far.mode == Mode::Open
            &&& n == 1 && mode_option(args[0]) is None && args[0] != "--no-open"@
                ==> so_far.file is None && strip_prefix(args[0], "--"@) is None
        }),
    ensures
        ({
            let (n, after) = first_read(so_far, args);
            let rest = args.skip(n);
            &&& (so_far.mode == Mode::Quit || args.contains("--quit"@)) == (after.mode == Mode::Quit
                || rest.contains("--quit"@))
            &&& (so_far.file is None && (forall|i: int| !#[trigger] is_file_at(args, i))) == (
            after.file is None && (forall|i: int| !#[trigger] is_file_at(rest, i)))
        }),
{
    lemma_options_differ();
    let (n, after) = first_read(so_far, args);
    let rest = args.skip(n);
    lemma_tail(args, n);
    if n == 2 {
        lemma_numbers_are_no_options(args[1]);
    }
    if args.contains("--quit"@) {
        let k = choose|k: int| 0 <= k < args.len() && args[k] == "--quit"@;
        if k >= n {
            assert(rest[k - n] == "--quit"@);
        }
    }
    if rest.contains("--quit"@) {
        let k = choose|k: int| 0 <= k < rest.len() && rest[k] == "--quit"@;
        assert(args[k + n] == "--quit"@);
    }
    if so_far.file is None && (forall|i: int| !#[trigger] is_file_at(args, i)) {
        assert(!is_file_at(args, 0));
        assert forall|i: int| !#[trigger] is_file_at(rest, i) by {
            assert(!is_file_at(args, i + n));
        }
    }
    if after.file is None && (forall|i: int| !#[trigger] is_file_at(rest, i)) {
        assert forall|i: int| !#[trigger] is_file_at(args, i) by {
            if i >= n {
                assert(!is_file_at(rest, i - n));
            }
        }
    }
}

/// Arguments of which all holds that is asked are accepted.
proof fn lemma_acceptable(so_far: ArgsView, args: Seq<Seq<char>>)
    requires
        acceptable(so_far, args),
    ensures
        args_from(so_far, args) is Ok,
    decreases args.len(),
{
    if args.len() > 0 {
        let (n, after) = first_read(so_far, args);
        lemma_options_differ();
        lemma_acceptable_tail(so_far, args);
        lemma_acceptable(after, args.skip(n));
        if n == 2 {
            assert(args.skip(1)[0] == args[1]);
            assert(args.skip(1).skip(1) == args.skip(2));
        }
    } else {
        assert(!args.contains("--quit"@));
        assert forall|i: int| !#[trigger] is_file_at(args, i) by {}
    }
}

/// Arguments are accepted exactly if each `--line` is followed by a line
/// number, every other option is known, no two select a mode, no two are the
/// file, and there is no file exactly if `--quit` is among them.
pub proof fn arguments_are_accepted_if_they_fit(args: Seq<Seq<char>>)
    ensures
        args_in(args) is Ok <==> {
            &&& forall|i: int|
                0 <= i < args.len() && (#[trigger] args.skip(i))[0] == "--line"@ ==> args.skip(
                    i,
                ).len() > 1 && number(args.skip(i)[1], u32::MAX as nat) is Some
            &&& forall|i: int|
                0 <= i < args.len() && strip_prefix(#[trigger] args[i], "--"@) is Some ==> args[i]
                    == "--line"@ || args[i] == "--no-open"@ || args[i] == "--sync"@ || args[i]
                    == "--quit"@ || args[i] == "--restart"@
            &&& forall|i: int, j: int|
                0 <= i < j < args.len() ==> mode_option(#[trigger] args[i]) is None || mode_option(
                    #[trigger] args[j],
                ) is None
            &&& forall|i: int, j: int| #[trigger]
                is_file_at(args, i) && #[trigger] is_file_at(args, j) ==> i == j
            &&& args.contains("--quit"@) <==> (forall|i: int| !#[trigger] is_file_at(args, i))
        },
{
    lemma_options_differ();
    if args_in(args) is Ok {
        assert forall|i: int| 0 <= i < args.len() && (#[trigger] args.skip(i))[0]
            == "--line"@ implies args.skip(i).len() > 1 && number(
            args.skip(i)[1],
            u32::MAX as nat,
        ) is Some by {
            lemma_line_said(no_args(), args, i);
        }
        assert forall|i: int| 0 <= i < args.len() && strip_prefix(#[trigger] args[i], "--"@)
            is Some implies args[i] == "--line"@ || args[i] == "--no-open"@ || args[i] == "--sync"@
            || args[i] == "--quit"@ || args[i] == "--restart"@ by {
            lemma_mode_said(no_args(), args, i);
        }
        assert forall|i: int, j: int| 0 <= i < j < args.len() implies mode_option(
            #[trigger] args[i],
        ) is None || mode_option(#[trigger] args[j]) is None by {
            if mode_option(args[i]) is Some && mode_option(args[j]) is Some {
                modes_exclude_each_other(args, i, j);
            }
        }
        assert forall|i: int, j: int| #[trigger]
            is_file_at(args, i) && #[trigger] is_file_at(args, j) implies i == j by {
            lemma_one_file(no_args(), args, i, j);
        }
        the_mode_is_the_one_selected(args);
        the_file_is_the_argument_that_is_no_option(args, 0, 0);
        only_quit_takes_no_file(args);
    } else if acceptable(no_args(), args) {
        lemma_acceptable(no_args(), args);
    }
}

/// Arguments are read one after another. The first that cannot be read is what
/// is complained of, and what is left out or too much is complained of at the
/// end.
pub proof fn arguments_are_read_one_by_one(
    so_far: ArgsView,
    arg: Seq<char>,
    rest: Seq<Seq<char>>,
)
    ensures
        ({
            let all = seq![arg] + rest;
            let then = args_from(so_far, all);
            &&& arg == "--sync"@ || arg == "--quit"@ || arg == "--restart"@ ==> if so_far.mode
                != Mode::Open {
                then == Err::<ArgsView, Seq<char>>(
                    "--sync, --quit and --restart are mutually exclusive"@,
                )
            } else {
                then == args_from(
                    ArgsView {
                        mode: if arg == "--sync"@ {
                            Mode::Sync
                        } else if arg == "--quit"@ {
                            Mode::Quit
                        } else {
                            Mode::Restart
                        },
                        ..so_far
                    },
                    rest,
                )
            }
            &&& arg == "--no-open"@ ==> then == args_from(ArgsView { no_open: true, ..so_far }, rest)
            &&& arg == "--line"@ && rest.len() == 0 ==> then == Err::<ArgsView, Seq<char>>(
                "--line needs a value"@,
            )
            &&& arg == "--line"@ && rest.len() > 0 ==> match number(rest[0], u32::MAX as nat) {
                Some(n) => then == args_from(
                    ArgsView { line: Some(n as u32), ..so_far },
                    rest.skip(1),
                ),
                None => then == Err::<ArgsView, Seq<char>>("invalid line number: "@ + rest[0]),
            }
            &&& strip_prefix(arg, "--"@) is Some && arg != "--sync"@ && arg != "--quit"@ && arg
                != "--restart"@ && arg != "--no-open"@ && arg != "--line"@ ==> then == Err::<
                ArgsView,
                Seq<char>,
            >("unknown option: "@ + arg)
            &&& strip_prefix(arg, "--"@) is None && so_far.file is Some ==> then == Err::<
                ArgsView,
                Seq<char>,
            >("unexpected argument: "@ + arg)
            &&& strip_prefix(arg, "--"@) is None && so_far.file is None ==> then == args_from(
                ArgsView { file: Some(arg), ..so_far },
                rest,
            )
        }),
        ({
            let end = args_from(so_far, Seq::empty());
            &&& so_far.mode == Mode::Quit && so_far.file is Some ==> end == Err::<
                ArgsView,
                Seq<char>,
            >("--quit takes no file"@)
            &&& so_far.mode != Mode::Quit && so_far.file is None ==> end == Err::<
                ArgsView,
                Seq<char>,
            >("missing file"@)
            &&& (so_far.mode == Mode::Quit <==> so_far.file is None) ==> end == Ok::<
                ArgsView,
                Seq<char>,
            >(so_far)
        }),
        args_in(rest) == args_from(
            ArgsView { file: None, line: None, mode: Mode::Open, no_open: false },
            rest,
        ),
{
    lemma_options_differ();
    let all = seq![arg] + rest;
    assert(all[0] == arg);
    assert(all.skip(1) == rest);
}

/// Help is given exactly if it is asked for, and the version exactly if it is
/// and help is not.
pub proof fn an_early_exit_is_asked_for(args: Seq<Seq<char>>)
    ensures
        early_in(args) == Some(EarlyExit::Help) <==> args.contains("-h"@) || args.contains(
            "--help"@,
        ),
        early_in(args) == Some(EarlyExit::Version) <==> !args.contains("-h"@) && !args.contains(
            "--help"@,
        ) && (args.contains("-V"@) || args.contains("--version"@)),
        early_text(EarlyExit::Help) == USAGE@ + "\n\n"@ + OPTIONS@,
        early_text(EarlyExit::Version) == "mdpreviewer 0.1.0"@,
{
    assert forall|x: Seq<char>| #[trigger] args.contains(x) implies exists|i: int|
        0 <= i < args.len() && #[trigger] args[i] == x by {}
    assert forall|i: int| 0 <= i < args.len() implies args.contains(#[trigger] args[i]) by {}
}

/// What the program does first follows from its arguments: it answers where it
/// is asked to, complains of arguments that are not accepted, unless in Sync
/// mode, and of a file that is no Markdown; else it does what the arguments
/// say, and all that they say.
pub proof fn a_launch_goes_by_its_arguments(raw: Seq<Seq<char>>)
    ensures
        early_in(raw) matches Some(early) ==> launch_in(raw) == LaunchView::Answer(
            early_text(early),
        ),
        early_in(raw) is None ==> match args_in(raw) {
            Err(message) => if raw.contains("--sync"@) {
                launch_in(raw) is Silent
            } else {
                launch_in(raw) == LaunchView::Misuse(
                    "mdpreviewer: "@ + (message + "\n"@ + USAGE@),
                )
            },
            Ok(args) => {
                &&& args.mode == Mode::Sync ==> launch_in(raw) == LaunchView::Sync(args)
                &&& args.mode == Mode::Quit ==> launch_in(raw) is Quit
                &&& args.mode == Mode::Open || args.mode == Mode::Restart ==> args.file is Some
                &&& args.mode == Mode::Open && names_markdown(encode_utf8(args.file->0))
                    ==> launch_in(raw) == LaunchView::Open(args)
                &&& args.mode == Mode::Restart && names_markdown(encode_utf8(args.file->0))
                    ==> launch_in(raw) == LaunchView::Restart(args)
                &&& (args.mode == Mode::Open || args.mode == Mode::Restart) && !names_markdown(
                    encode_utf8(args.file->0),
                ) ==> launch_in(raw) == LaunchView::Refuse(
                    "mdpreviewer: "@ + ("not a Markdown file: "@ + args.file->0),
                )
            },
        },
{
    only_quit_takes_no_file(raw);
}

/// Without control sockets, Sync and Quit mode do nothing, a restart opens with
/// the same arguments, and everything else is as it is with them.
pub proof fn a_launch_without_control_keeps_its_arguments(launch: LaunchView)
    ensures
        launch is Sync || launch is Quit ==> alone(launch) is Silent,
        launch matches LaunchView::Restart(args) ==> alone(launch) == LaunchView::Open(args),
        !(launch is Sync || launch is Quit || launch is Restart) ==> alone(launch) == launch,
{
}

/// A file is where its text says, byte for byte, but that a first name that is
/// just `~` stands for the home directory, where there is one.
pub proof fn a_file_is_where_its_text_says(file: Seq<char>, home: Option<Seq<u8>>, n: nat)
    ensures
        file.len() == 0 || file[0] != '~' || (file.len() > 1 && file[1] != '/') ==> home_path(
            file,
            home,
        ) == encode_utf8(file),
        home is None || home->0.len() == 0 ==> home_path(file, home) == encode_utf8(file),
        home is Some && home->0.len() > 0 && (file.len() == 0 || file[0] != '/') ==> home_path(
            seq!['~'] + Seq::new(n + 1, |i: int| '/') + file,
            home,
        ) == join(home->0, encode_utf8(file)),
        home is Some && home->0.len() > 0 ==> home_path(seq!['~'], home) == join(
            home->0,
            encode_utf8(Seq::empty()),
        ),
{
    let slashes = Seq::new(n + 1, |i: int| '/');
    let whole = seq!['~'] + slashes + file;
    assert(whole[0] == '~' && whole[1] == '/');
    assert(whole.skip(1) == slashes + file);
    assert(seq!['~'].skip(1) == Seq::<char>::empty());
    if file.len() == 0 || file[0] != '/' {
        lemma_slashes(n + 1, file);
    }
}

/// Slashes before what starts with none are all behind.
proof fn lemma_slashes(n: nat, rest: Seq<char>)
    requires
        rest.len() == 0 || rest[0] != '/',
    ensures
        behind_slashes(Seq::new(n, |i: int| '/') + rest) == rest,
    decreases n,
{
    let slashes = Seq::new(n, |i: int| '/');
    if n > 0 {
        assert((slashes + rest).skip(1) == Seq::new((n - 1) as nat, |i: int| '/') + rest);
        lemma_slashes((n - 1) as nat, rest);
    } else {
        assert(slashes + rest == rest);
    }
}

/// The page to open is the URL itself where there is no line, and with a line
/// the URL and that line behind `#line=`. Failures are printed behind the
/// program's name.
pub proof fn a_page_is_at_its_line(url: Seq<char>, n: u32, message: Seq<char>)
    ensures
        page_at(url, None) == url,
        page_at(url, Some(n)) == url + "#line="@ + decimal(n as nat),
        failure_text(message) == "mdpreviewer: "@ + message,
{
}

/// Each answer of a running server, and each failure to reach one, has its
/// consequence.
pub proof fn each_reply_has_its_consequence(
    url: Seq<char>,
    clients: usize,
    text: Seq<char>,
    no_open: bool,
    line: Option<u32>,
    err: SendErrorView,
)
    ensures
        ({
            let next = reuse_of(Ok(ReplyView::Accepted { url, clients }), no_open, line);
            &&& no_open ==> next == ReuseView::Print(url)
            &&& !no_open && clients > 0 ==> next is Shown
            &&& !no_open && clients == 0 && line is None ==> next == ReuseView::Browse(url)
            &&& !no_open && clients == 0 && line is Some ==> next == ReuseView::Browse(
                url + "#line="@ + decimal(line->0 as nat),
            )
        }),
        reuse_of(Ok(ReplyView::Bye), no_open, line) == ReuseView::Fail(
            "mdpreviewer: "@ + "unexpected reply from the control socket"@,
        ),
        reuse_of(Ok(ReplyView::Refused(text)), no_open, line) == ReuseView::Fail(
            "mdpreviewer: "@ + text,
        ),
        reuse_of(Err(SendErrorView::NoServer), no_open, line) is Bind,
        reuse_of(Err(SendErrorView::Unusable(text)), no_open, line) == ReuseView::Standalone(
            "mdpreviewer: "@ + (send_error_text(SendErrorView::Unusable(text))
                + "; running a standalone preview"@),
        ),
        !(err is NoServer) && !(err is Unusable) ==> reuse_of(Err(err), no_open, line)
            == ReuseView::Fail("mdpreviewer: "@ + send_error_text(err)),
{
}

/// What arguments, and what follows from them, say is what they hold.
pub proof fn arguments_say_what_they_hold(
    args: Args,
    launch: Launch,
    reuse: Reuse,
    text: String,
    path: &FilePath,
    sent: Result<Reply, SendError>,
)
    ensures
        args@.line == args.line,
        args@.mode == args.mode,
        args@.no_open == args.no_open,
        args@.file is None <==> args.file is None,
        args.file matches Some(file) ==> args@.file == Some(file@) && file_text(args@) == file@,
        args.file is None ==> file_text(args@) == Seq::<char>::empty(),
        text_view(Some(text)) == Some(text@),
        text_view(None) is None,
        path_view(Some(path)) == Some(path@),
        path_view(None) is None,
        sent matches Ok(reply) ==> sent_view(sent) == Ok::<ReplyView, SendErrorView>(reply@),
        sent matches Err(err) ==> sent_view(sent) == Err::<ReplyView, SendErrorView>(err@),
        launch matches Launch::Answer(text) ==> launch@ == LaunchView::Answer(text@),
        launch matches Launch::Misuse(text) ==> launch@ == LaunchView::Misuse(text@),
        launch matches Launch::Refuse(text) ==> launch@ == LaunchView::Refuse(text@),
        launch matches Launch::Sync(args) ==> launch@ == LaunchView::Sync(args@),
        launch matches Launch::Restart(args) ==> launch@ == LaunchView::Restart(args@),
        launch matches Launch::Open(args) ==> launch@ == LaunchView::Open(args@),
        launch is Silent <==> launch@ is Silent,
        launch is Quit <==> launch@ is Quit,
        reuse matches Reuse::Print(url) ==> reuse@ == ReuseView::Print(url@),
        reuse matches Reuse::Browse(url) ==> reuse@ == ReuseView::Browse(url@),
        reuse matches Reuse::Fail(text) ==> reuse@ == ReuseView::Fail(text@),
        reuse matches Reuse::Standalone(text) ==> reuse@ == ReuseView::Standalone(text@),
        reuse is Shown <==> reuse@ is Shown,
        reuse is Bind <==> reuse@ is Bind,
{
}

} // verus!
