//! The showcase app's plain logic: sections, command-line options, and the
//! calculator keypad driven by the Gleam guest.

use vstd::prelude::*;
use crate::theme::Mode;
use crate::text::{append_str, chars_are, chars_of, int_string, int_text, string_from_chars};
use crate::icons::{trim, trim_chars, trim_start, trim_end, is_white_space};

verus! {

broadcast use vstd::seq_lib::group_seq_properties;

/// ASCII letters lowered; every other character kept.
pub open spec fn ascii_lower(s: Seq<char>) -> Seq<char> {
    s.map_values(|c: char| if 'A' <= c <= 'Z' { ((c as u32) + 32) as char } else { c })
}

fn lower_char(c: char) -> (d: char)
    ensures
        d == (if 'A' <= c <= 'Z' { ((c as u32) + 32) as char } else { c }),
{
    if 'A' <= c && c <= 'Z' {
        ((c as u32 + 32) as u8) as char
    } else {
        c
    }
}

/// `s` trimmed and lowered, as keys are compared.
pub open spec fn key_of(s: Seq<char>) -> Seq<char> {
    ascii_lower(trim(s))
}

fn key_chars(s: &str) -> (k: Vec<char>)
    ensures
        k@ == key_of(s@),
{
    let cs = chars_of(s);
    let t = trim_chars(&cs);
    let mut out: Vec<char> = Vec::new();
    let mut i: usize = 0;
    while i < t.len()
        invariant
            i <= t@.len(),
            out@ == ascii_lower(t@.take(i as int)),
        decreases t@.len() - i,
    {
        out.push(lower_char(t[i]));
        i = i + 1;
        assert(out@ =~= ascii_lower(t@.take(i as int)));
    }
    assert(t@.take(i as int) =~= t@);
    out
}

/// The mode a word names: `dark`/`d` or `light`/`l`, any case, spaces around ignored.
pub open spec fn mode_named(s: Seq<char>) -> Option<Mode> {
    let k = key_of(s);
    if k == "dark"@ || k == "d"@ {
        Some(Mode::Dark)
    } else if k == "light"@ || k == "l"@ {
        Some(Mode::Light)
    } else {
        None
    }
}

pub fn parse_mode(s: &str) -> (m: Option<Mode>)
    ensures
        m == mode_named(s@),
{
    let k = key_chars(s);
    if chars_are(&k, "dark") || chars_are(&k, "d") {
        Some(Mode::Dark)
    } else if chars_are(&k, "light") || chars_are(&k, "l") {
        Some(Mode::Light)
    } else {
        None
    }
}

/// Sections of the showcase.
#[derive(Debug, Clone, Copy, PartialEq, Eq, Structural)]
pub enum Nav {
    Overview,
    Typography,
    Actions,
    Surfaces,
    Palette,
    Forms,
}

/// The section a word names, any case, spaces around ignored.
pub open spec fn nav_named(s: Seq<char>) -> Option<Nav> {
    let k = key_of(s);
    if k == "overview"@ || k == "home"@ {
        Some(Nav::Overview)
    } else if k == "typography"@ || k == "type"@ || k == "text"@ {
        Some(Nav::Typography)
    } else if k == "actions"@ || k == "buttons"@ {
        Some(Nav::Actions)
    } else if k == "surfaces"@ || k == "cards"@ {
        Some(Nav::Surfaces)
    } else if k == "palette"@ || k == "colors"@ {
        Some(Nav::Palette)
    } else if k == "forms"@ || k == "form"@ {
        Some(Nav::Forms)
    } else {
        None
    }
}

/// A section's menu label.
pub open spec fn nav_label_of(n: Nav) -> Seq<char> {
    match n {
        Nav::Overview => "Overview"@,
        Nav::Typography => "Typography"@,
        Nav::Actions => "Actions"@,
        Nav::Surfaces => "Surfaces"@,
        Nav::Palette => "Palette"@,
        Nav::Forms => "Forms"@,
    }
}

proof fn lemma_key_of_plain(s: Seq<char>, lower: Seq<char>)
    requires
        s.len() > 0,
        !is_white_space(s[0]),
        !is_white_space(s.last()),
        lower.len() == s.len(),
        forall|i: int| 0 <= i < s.len() ==> lower[i] == (if 'A' <= #[trigger] s[i] <= 'Z' { ((s[i] as u32) + 32) as char } else { s[i] }),
    ensures
        key_of(s) == lower,
{
    assert(trim_start(s) == s);
    assert(trim_end(s) == s);
    assert(ascii_lower(s) =~= lower);
}

/// A section's own label names it: parsing the label gives the section back.
pub proof fn lemma_label_names_its_section(n: Nav)
    ensures
        nav_named(nav_label_of(n)) == Some(n),
{
    reveal_strlit("Overview");
    reveal_strlit("Typography");
    reveal_strlit("Actions");
    reveal_strlit("Surfaces");
    reveal_strlit("Palette");
    reveal_strlit("Forms");
    reveal_strlit("overview");
    reveal_strlit("home");
    reveal_strlit("typography");
    reveal_strlit("type");
    reveal_strlit("text");
    reveal_strlit("actions");
    reveal_strlit("buttons");
    reveal_strlit("surfaces");
    reveal_strlit("cards");
    reveal_strlit("palette");
    reveal_strlit("colors");
    reveal_strlit("forms");
    reveal_strlit("form");
    let s = nav_label_of(n);
    let lower = match n {
        Nav::Overview => "overview"@,
        Nav::Typography => "typography"@,
        Nav::Actions => "actions"@,
        Nav::Surfaces => "surfaces"@,
        Nav::Palette => "palette"@,
        Nav::Forms => "forms"@,
    };
    lemma_key_of_plain(s, lower);
    match n {
        Nav::Overview => {
            assert("overview"@.len() != "home"@.len() || "overview"@[0] != "home"@[0] || "overview"@[1] != "home"@[1]);
            assert("overview"@.len() != "typography"@.len() || "overview"@[0] != "typography"@[0] || "overview"@[1] != "typography"@[1]);
            assert("overview"@.len() != "type"@.len() || "overview"@[0] != "type"@[0] || "overview"@[1] != "type"@[1]);
            assert("overview"@.len() != "text"@.len() || "overview"@[0] != "text"@[0] || "overview"@[1] != "text"@[1]);
            assert("overview"@.len() != "actions"@.len() || "overview"@[0] != "actions"@[0] || "overview"@[1] != "actions"@[1]);
            assert("overview"@.len() != "buttons"@.len() || "overview"@[0] != "buttons"@[0] || "overview"@[1] != "buttons"@[1]);
            assert("overview"@.len() != "surfaces"@.len() || "overview"@[0] != "surfaces"@[0] || "overview"@[1] != "surfaces"@[1]);
            assert("overview"@.len() != "cards"@.len() || "overview"@[0] != "cards"@[0] || "overview"@[1] != "cards"@[1]);
            assert("overview"@.len() != "palette"@.len() || "overview"@[0] != "palette"@[0] || "overview"@[1] != "palette"@[1]);
            assert("overview"@.len() != "colors"@.len() || "overview"@[0] != "colors"@[0] || "overview"@[1] != "colors"@[1]);
            assert("overview"@.len() != "forms"@.len() || "overview"@[0] != "forms"@[0] || "overview"@[1] != "forms"@[1]);
            assert("overview"@.len() != "form"@.len() || "overview"@[0] != "form"@[0] || "overview"@[1] != "form"@[1]);
        },
        Nav::Typography => {
            assert("typography"@.len() != "overview"@.len() || "typography"@[0] != "overview"@[0] || "typography"@[1] != "overview"@[1]);
            assert("typography"@.len() != "home"@.len() || "typography"@[0] != "home"@[0] || "typography"@[1] != "home"@[1]);
            assert("typography"@.len() != "type"@.len() || "typography"@[0] != "type"@[0] || "typography"@[1] != "type"@[1]);
            assert("typography"@.len() != "text"@.len() || "typography"@[0] != "text"@[0] || "typography"@[1] != "text"@[1]);
            assert("typography"@.len() != "actions"@.len() || "typography"@[0] != "actions"@[0] || "typography"@[1] != "actions"@[1]);
            assert("typography"@.len() != "buttons"@.len() || "typography"@[0] != "buttons"@[0] || "typography"@[1] != "buttons"@[1]);
            assert("typography"@.len() != "surfaces"@.len() || "typography"@[0] != "surfaces"@[0] || "typography"@[1] != "surfaces"@[1]);
            assert("typography"@.len() != "cards"@.len() || "typography"@[0] != "cards"@[0] || "typography"@[1] != "cards"@[1]);
            assert("typography"@.len() != "palette"@.len() || "typography"@[0] != "palette"@[0] || "typography"@[1] != "palette"@[1]);
            assert("typography"@.len() != "colors"@.len() || "typography"@[0] != "colors"@[0] || "typography"@[1] != "colors"@[1]);
            assert("typography"@.len() != "forms"@.len() || "typography"@[0] != "forms"@[0] || "typography"@[1] != "forms"@[1]);
            assert("typography"@.len() != "form"@.len() || "typography"@[0] != "form"@[0] || "typography"@[1] != "form"@[1]);
        },
        Nav::Actions => {
            assert("actions"@.len() != "overview"@.len() || "actions"@[0] != "overview"@[0] || "actions"@[1] != "overview"@[1]);
            assert("actions"@.len() != "home"@.len() || "actions"@[0] != "home"@[0] || "actions"@[1] != "home"@[1]);
            assert("actions"@.len() != "typography"@.len() || "actions"@[0] != "typography"@[0] || "actions"@[1] != "typography"@[1]);
            assert("actions"@.len() != "type"@.len() || "actions"@[0] != "type"@[0] || "actions"@[1] != "type"@[1]);
            assert("actions"@.len() != "text"@.len() || "actions"@[0] != "text"@[0] || "actions"@[1] != "text"@[1]);
            assert("actions"@.len() != "buttons"@.len() || "actions"@[0] != "buttons"@[0] || "actions"@[1] != "buttons"@[1]);
            assert("actions"@.len() != "surfaces"@.len() || "actions"@[0] != "surfaces"@[0] || "actions"@[1] != "surfaces"@[1]);
            assert("actions"@.len() != "cards"@.len() || "actions"@[0] != "cards"@[0] || "actions"@[1] != "cards"@[1]);
            assert("actions"@.len() != "palette"@.len() || "actions"@[0] != "palette"@[0] || "actions"@[1] != "palette"@[1]);
            assert("actions"@.len() != "colors"@.len() || "actions"@[0] != "colors"@[0] || "actions"@[1] != "colors"@[1]);
            assert("actions"@.len() != "forms"@.len() || "actions"@[0] != "forms"@[0] || "actions"@[1] != "forms"@[1]);
            assert("actions"@.len() != "form"@.len() || "actions"@[0] != "form"@[0] || "actions"@[1] != "form"@[1]);
        },
        Nav::Surfaces => {
            assert("surfaces"@.len() != "overview"@.len() || "surfaces"@[0] != "overview"@[0] || "surfaces"@[1] != "overview"@[1]);
            assert("surfaces"@.len() != "home"@.len() || "surfaces"@[0] != "home"@[0] || "surfaces"@[1] != "home"@[1]);
            assert("surfaces"@.len() != "typography"@.len() || "surfaces"@[0] != "typography"@[0] || "surfaces"@[1] != "typography"@[1]);
            assert("surfaces"@.len() != "type"@.len() || "surfaces"@[0] != "type"@[0] || "surfaces"@[1] != "type"@[1]);
            assert("surfaces"@.len() != "text"@.len() || "surfaces"@[0] != "text"@[0] || "surfaces"@[1] != "text"@[1]);
            assert("surfaces"@.len() != "actions"@.len() || "surfaces"@[0] != "actions"@[0] || "surfaces"@[1] != "actions"@[1]);
            assert("surfaces"@.len() != "buttons"@.len() || "surfaces"@[0] != "buttons"@[0] || "surfaces"@[1] != "buttons"@[1]);
            assert("surfaces"@.len() != "cards"@.len() || "surfaces"@[0] != "cards"@[0] || "surfaces"@[1] != "cards"@[1]);
            assert("surfaces"@.len() != "palette"@.len() || "surfaces"@[0] != "palette"@[0] || "surfaces"@[1] != "palette"@[1]);
            assert("surfaces"@.len() != "colors"@.len() || "surfaces"@[0] != "colors"@[0] || "surfaces"@[1] != "colors"@[1]);
            assert("surfaces"@.len() != "forms"@.len() || "surfaces"@[0] != "forms"@[0] || "surfaces"@[1] != "forms"@[1]);
            assert("surfaces"@.len() != "form"@.len() || "surfaces"@[0] != "form"@[0] || "surfaces"@[1] != "form"@[1]);
        },
        Nav::Palette => {
            assert("palette"@.len() != "overview"@.len() || "palette"@[0] != "overview"@[0] || "palette"@[1] != "overview"@[1]);
            assert("palette"@.len() != "home"@.len() || "palette"@[0] != "home"@[0] || "palette"@[1] != "home"@[1]);
            assert("palette"@.len() != "typography"@.len() || "palette"@[0] != "typography"@[0] || "palette"@[1] != "typography"@[1]);
            assert("palette"@.len() != "type"@.len() || "palette"@[0] != "type"@[0] || "palette"@[1] != "type"@[1]);
            assert("palette"@.len() != "text"@.len() || "palette"@[0] != "text"@[0] || "palette"@[1] != "text"@[1]);
            assert("palette"@.len() != "actions"@.len() || "palette"@[0] != "actions"@[0] || "palette"@[1] != "actions"@[1]);
            assert("palette"@.len() != "buttons"@.len() || "palette"@[0] != "buttons"@[0] || "palette"@[1] != "buttons"@[1]);
            assert("palette"@.len() != "surfaces"@.len() || "palette"@[0] != "surfaces"@[0] || "palette"@[1] != "surfaces"@[1]);
            assert("palette"@.len() != "cards"@.len() || "palette"@[0] != "cards"@[0] || "palette"@[1] != "cards"@[1]);
            assert("palette"@.len() != "colors"@.len() || "palette"@[0] != "colors"@[0] || "palette"@[1] != "colors"@[1]);
            assert("palette"@.len() != "forms"@.len() || "palette"@[0] != "forms"@[0] || "palette"@[1] != "forms"@[1]);
            assert("palette"@.len() != "form"@.len() || "palette"@[0] != "form"@[0] || "palette"@[1] != "form"@[1]);
        },
        Nav::Forms => {
            assert("forms"@.len() != "overview"@.len() || "forms"@[0] != "overview"@[0] || "forms"@[1] != "overview"@[1]);
            assert("forms"@.len() != "home"@.len() || "forms"@[0] != "home"@[0] || "forms"@[1] != "home"@[1]);
            assert("forms"@.len() != "typography"@.len() || "forms"@[0] != "typography"@[0] || "forms"@[1] != "typography"@[1]);
            assert("forms"@.len() != "type"@.len() || "forms"@[0] != "type"@[0] || "forms"@[1] != "type"@[1]);
            assert("forms"@.len() != "text"@.len() || "forms"@[0] != "text"@[0] || "forms"@[1] != "text"@[1]);
            assert("forms"@.len() != "actions"@.len() || "forms"@[0] != "actions"@[0] || "forms"@[1] != "actions"@[1]);
            assert("forms"@.len() != "buttons"@.len() || "forms"@[0] != "buttons"@[0] || "forms"@[1] != "buttons"@[1]);
            assert("forms"@.len() != "surfaces"@.len() || "forms"@[0] != "surfaces"@[0] || "forms"@[1] != "surfaces"@[1]);
            assert("forms"@.len() != "cards"@.len() || "forms"@[0] != "cards"@[0] || "forms"@[1] != "cards"@[1]);
            assert("forms"@.len() != "palette"@.len() || "forms"@[0] != "palette"@[0] || "forms"@[1] != "palette"@[1]);
            assert("forms"@.len() != "colors"@.len() || "forms"@[0] != "colors"@[0] || "forms"@[1] != "colors"@[1]);
            assert("forms"@.len() != "form"@.len() || "forms"@[0] != "form"@[0] || "forms"@[1] != "form"@[1]);
        },
    }
}

impl Nav {
    /// Every section, in menu order.
    pub const ALL: [Nav; 6] = [
        Nav::Overview,
        Nav::Typography,
        Nav::Actions,
        Nav::Surfaces,
        Nav::Palette,
        Nav::Forms,
    ];

    pub fn label(self) -> (s: &'static str)
        ensures
            s@ == nav_label_of(self),
    {
        match self {
            Nav::Overview => "Overview",
            Nav::Typography => "Typography",
            Nav::Actions => "Actions",
            Nav::Surfaces => "Surfaces",
            Nav::Palette => "Palette",
            Nav::Forms => "Forms",
        }
    }

    /// Compact labels for phone bottom chips.
    pub fn short_label(self) -> (s: &'static str)
        ensures
            s@ == match self {
                Nav::Overview => "Home"@,
                Nav::Typography => "Text"@,
                Nav::Actions => "Acts"@,
                Nav::Surfaces => "Card"@,
                Nav::Palette => "Pal"@,
                Nav::Forms => "Form"@,
            },
    {
        match self {
            Nav::Overview => "Home",
            Nav::Typography => "Text",
            Nav::Actions => "Acts",
            Nav::Surfaces => "Card",
            Nav::Palette => "Pal",
            Nav::Forms => "Form",
        }
    }

    pub fn parse(s: &str) -> (n: Option<Nav>)
        ensures
            n == nav_named(s@),
    {
        let k = key_chars(s);
        if chars_are(&k, "overview") || chars_are(&k, "home") {
            Some(Nav::Overview)
        } else if chars_are(&k, "typography") || chars_are(&k, "type") || chars_are(&k, "text") {
            Some(Nav::Typography)
        } else if chars_are(&k, "actions") || chars_are(&k, "buttons") {
            Some(Nav::Actions)
        } else if chars_are(&k, "surfaces") || chars_are(&k, "cards") {
            Some(Nav::Surfaces)
        } else if chars_are(&k, "palette") || chars_are(&k, "colors") {
            Some(Nav::Palette)
        } else if chars_are(&k, "forms") || chars_are(&k, "form") {
            Some(Nav::Forms)
        } else {
            None
        }
    }
}

/// Options of the showcase: the section to open, the appearance, and where
/// to write a screenshot.
pub struct CliOptions {
    pub section: Nav,
    pub mode: Mode,
    pub screenshot: Option<String>,
}

/// What the specification sees of the options.
pub struct CliView {
    pub section: Nav,
    pub mode: Mode,
    pub screenshot: Option<Seq<char>>,
}

impl View for CliOptions {
    type V = CliView;

    open spec fn view(&self) -> CliView {
        CliView {
            section: self.section,
            mode: self.mode,
            screenshot: match self.screenshot {
                Some(s) => Some(s@),
                None => None,
            },
        }
    }
}

/// The options the environment gives: a section and a mode that do not
/// parse fall back to the overview and dark.
pub open spec fn env_options(section: Option<Seq<char>>, mode: Option<Seq<char>>, screenshot: Option<Seq<char>>) -> CliView {
    CliView {
        section: match section {
            Some(s) => match nav_named(s) {
                Some(n) => n,
                None => Nav::Overview,
            },
            None => Nav::Overview,
        },
        mode: match mode {
            Some(s) => match mode_named(s) {
                Some(m) => m,
                None => Mode::Dark,
            },
            None => Mode::Dark,
        },
        screenshot,
    }
}

/// The options after a section file's text, trimmed, where it names a section.
pub open spec fn section_text(o: CliView, text: Seq<char>) -> CliView {
    match nav_named(trim(text)) {
        Some(n) => CliView { section: n, ..o },
        None => o,
    }
}

/// The options after a mode file's text, trimmed, where it names a mode.
pub open spec fn mode_text(o: CliView, text: Seq<char>) -> CliView {
    match mode_named(trim(text)) {
        Some(m) => CliView { mode: m, ..o },
        None => o,
    }
}

/// The options after an optional section file.
pub open spec fn after_section_file(o: CliView, text: Option<Seq<char>>) -> CliView {
    match text {
        Some(t) => section_text(o, t),
        None => o,
    }
}

/// The options after an optional mode file.
pub open spec fn after_mode_file(o: CliView, text: Option<Seq<char>>) -> CliView {
    match text {
        Some(t) => mode_text(o, t),
        None => o,
    }
}

/// The characters of an optional string.
pub open spec fn opt_seq(o: Option<String>) -> Option<Seq<char>> {
    match o {
        Some(s) => Some(s@),
        None => None,
    }
}

impl CliOptions {
    /// The options the environment gives (`VIDYA_DEMO_SECTION`,
    /// `VIDYA_DEMO_MODE`, `VIDYA_SCREENSHOT_TO`, each where set).
    pub fn from_env(section: Option<String>, mode: Option<String>, screenshot: Option<String>) -> (o: CliOptions)
        ensures
            o@ == env_options(opt_seq(section), opt_seq(mode), opt_seq(screenshot)),
    {
        let nav = match &section {
            Some(s) => match Nav::parse(s.as_str()) {
                Some(n) => n,
                None => Nav::Overview,
            },
            None => Nav::Overview,
        };
        let m = match &mode {
            Some(s) => match parse_mode(s.as_str()) {
                Some(m) => m,
                None => Mode::Dark,
            },
            None => Mode::Dark,
        };
        CliOptions { section: nav, mode: m, screenshot }
    }

    /// A section file's text, trimmed, picks the section where it names one.
    pub fn with_section_text(self, text: &str) -> (o: CliOptions)
        ensures
            o@ == section_text(self@, text@),
    {
        let t = string_from_chars(&trim_chars(&chars_of(text)));
        match Nav::parse(t.as_str()) {
            Some(n) => CliOptions { section: n, ..self },
            None => self,
        }
    }

    /// A mode file's text, trimmed, picks the mode where it names one.
    pub fn with_mode_text(self, text: &str) -> (o: CliOptions)
        ensures
            o@ == mode_text(self@, text@),
    {
        let t = string_from_chars(&trim_chars(&chars_of(text)));
        match parse_mode(t.as_str()) {
            Some(m) => CliOptions { mode: m, ..self },
            None => self,
        }
    }
}

/// The options after the command-line arguments from `i` on: `--section`/`-s`,
/// `--mode`/`-m` and `--screenshot` each take the next argument; a value that
/// does not parse is skipped, and other arguments are ignored.
pub open spec fn apply_args(o: CliView, args: Seq<Seq<char>>, i: int) -> CliView
    decreases args.len() - i,
{
    if i < 0 || i >= args.len() {
        o
    } else {
        let a = args[i];
        if a == "--section"@ || a == "-s"@ {
            if i + 1 < args.len() {
                let o2 = match nav_named(args[i + 1]) {
                    Some(n) => CliView { section: n, ..o },
                    None => o,
                };
                apply_args(o2, args, i + 2)
            } else {
                o
            }
        } else if a == "--mode"@ || a == "-m"@ {
            if i + 1 < args.len() {
                let o2 = match mode_named(args[i + 1]) {
                    Some(m) => CliView { mode: m, ..o },
                    None => o,
                };
                apply_args(o2, args, i + 2)
            } else {
                o
            }
        } else if a == "--screenshot"@ {
            if i + 1 < args.len() {
                apply_args(CliView { screenshot: Some(args[i + 1]), ..o }, args, i + 2)
            } else {
                o
            }
        } else {
            apply_args(o, args, i + 1)
        }
    }
}

/// The strings' characters.
pub open spec fn strings_view(v: Seq<String>) -> Seq<Seq<char>> {
    v.map_values(|s: String| s@)
}

fn copy_string(s: &String) -> (t: String)
    ensures
        t@ == s@,
{
    string_from_chars(&chars_of(s.as_str()))
}

/// Apply the command-line arguments (the program name left out) to `opts`.
pub fn apply_cli_args(opts: CliOptions, args: &Vec<String>) -> (o: CliOptions)
    ensures
        o@ == apply_args(opts@, strings_view(args@), 0),
{
    let ghost av = strings_view(args@);
    let mut o = opts;
    let mut i: usize = 0;
    while i < args.len()
        invariant
            i <= args@.len() + 1,
            av == strings_view(args@),
            apply_args(opts@, av, 0) == apply_args(o@, av, i as int),
        ensures
            apply_args(opts@, av, 0) == o@,
        decreases args@.len() + 1 - i,
    {
        let a = &args[i];
        assert(av[i as int] == a@);
        if chars_are(&chars_of(a.as_str()), "--section") || chars_are(&chars_of(a.as_str()), "-s") {
            if i + 1 < args.len() {
                assert(av[i + 1] == args@[i + 1]@);
                match Nav::parse(args[i + 1].as_str()) {
                    Some(n) => {
                        o = CliOptions { section: n, ..o };
                    },
                    None => {},
                }
                i = i + 2;
            } else {
                break;
            }
        } else if chars_are(&chars_of(a.as_str()), "--mode") || chars_are(&chars_of(a.as_str()), "-m") {
            if i + 1 < args.len() {
                assert(av[i + 1] == args@[i + 1]@);
                match parse_mode(args[i + 1].as_str()) {
                    Some(m) => {
                        o = CliOptions { mode: m, ..o };
                    },
                    None => {},
                }
                i = i + 2;
            } else {
                break;
            }
        } else if chars_are(&chars_of(a.as_str()), "--screenshot") {
            if i + 1 < args.len() {
                assert(av[i + 1] == args@[i + 1]@);
                let v = copy_string(&args[i + 1]);
                o = CliOptions { screenshot: Some(v), ..o };
                i = i + 2;
            } else {
                break;
            }
        } else {
            i = i + 1;
        }
    }
    o
}

/// The showcase's options from every source, each overriding the one before:
/// the environment (`VIDYA_DEMO_SECTION`, `VIDYA_DEMO_MODE`,
/// `VIDYA_SCREENSHOT_TO`), then the section files `/data/local/tmp/vidya_section`
/// and `/sdcard/vidya_section`, then the mode file `/data/local/tmp/vidya_mode`
/// (each file's text where it could be read), then the command-line arguments.
pub open spec fn cli_options(
    env_section: Option<Seq<char>>,
    env_mode: Option<Seq<char>>,
    env_screenshot: Option<Seq<char>>,
    tmp_section: Option<Seq<char>>,
    sdcard_section: Option<Seq<char>>,
    mode_file: Option<Seq<char>>,
    args: Seq<Seq<char>>,
) -> CliView {
    let e = env_options(env_section, env_mode, env_screenshot);
    let f = after_mode_file(after_section_file(after_section_file(e, tmp_section), sdcard_section), mode_file);
    apply_args(f, args, 0)
}

/// Which source wins: a section the `/sdcard` file names beats the one in
/// `/data/local/tmp` and the environment's; a `--section` argument that names
/// a section beats every file and the environment.
pub proof fn lemma_cli_precedence(
    env_section: Option<Seq<char>>,
    env_mode: Option<Seq<char>>,
    env_screenshot: Option<Seq<char>>,
    tmp_section: Option<Seq<char>>,
    sdcard_section: Option<Seq<char>>,
    mode_file: Option<Seq<char>>,
    args: Seq<Seq<char>>,
)
    ensures
        (sdcard_section matches Some(t) && nav_named(trim(t)) is Some && args.len() == 0)
            ==> cli_options(env_section, env_mode, env_screenshot, tmp_section, sdcard_section,
                mode_file, args).section == nav_named(trim(sdcard_section->Some_0))->Some_0,
        (args.len() == 2 && args[0] == "--section"@ && nav_named(args[1]) is Some)
            ==> cli_options(env_section, env_mode, env_screenshot, tmp_section, sdcard_section,
                mode_file, args).section == nav_named(args[1])->Some_0,
{
    reveal_with_fuel(apply_args, 3);
}

impl CliOptions {
    /// The showcase's options from the environment, the section and mode
    /// files and the command-line arguments (the program name left out), a
    /// later source overriding an earlier one.
    pub fn from_env_and_args(
        env_section: Option<String>,
        env_mode: Option<String>,
        env_screenshot: Option<String>,
        tmp_section: Option<String>,
        sdcard_section: Option<String>,
        mode_file: Option<String>,
        args: &Vec<String>,
    ) -> (o: CliOptions)
        ensures
            o@ == cli_options(opt_seq(env_section), opt_seq(env_mode), opt_seq(env_screenshot),
                opt_seq(tmp_section), opt_seq(sdcard_section), opt_seq(mode_file), strings_view(args@)),
    {
        let mut o = CliOptions::from_env(env_section, env_mode, env_screenshot);
        match &tmp_section {
            Some(t) => {
                o = o.with_section_text(t.as_str());
            },
            None => {},
        }
        match &sdcard_section {
            Some(t) => {
                o = o.with_section_text(t.as_str());
            },
            None => {},
        }
        match &mode_file {
            Some(t) => {
                o = o.with_mode_text(t.as_str());
            },
            None => {},
        }
        apply_cli_args(o, args)
    }
}

/// Value of a run of decimal digits.
pub open spec fn digits_value(ds: Seq<char>) -> int
    decreases ds.len(),
{
    if ds.len() == 0 {
        0
    } else {
        digits_value(ds.drop_last()) * 10 + ((ds.last() as u32) - 48)
    }
}

pub open spec fn is_digit(c: char) -> bool {
    '0' <= c <= '9'
}

/// What `str::parse::<i64>` gives: an optional sign, then one or more ASCII
/// digits and nothing else, whose value fits an `i64`.
/// The digits part of a number: the text after an optional sign.
pub open spec fn unsigned_part(s: Seq<char>) -> Seq<char> {
    if s.len() > 0 && (s[0] == '-' || s[0] == '+') { s.drop_first() } else { s }
}

pub open spec fn all_digits(ds: Seq<char>) -> bool {
    forall|i: int| 0 <= i < ds.len() ==> is_digit(#[trigger] ds[i])
}

pub open spec fn parsed_i64(s: Seq<char>) -> Option<i64> {
    let neg = s.len() > 0 && s[0] == '-';
    let ds = unsigned_part(s);
    if ds.len() == 0 || !all_digits(ds) {
        None
    } else {
        let v = if neg { -digits_value(ds) } else { digits_value(ds) };
        if i64::MIN <= v <= i64::MAX { Some(v as i64) } else { None }
    }
}

proof fn lemma_digits_nonneg(ds: Seq<char>)
    requires
        forall|i: int| 0 <= i < ds.len() ==> is_digit(#[trigger] ds[i]),
    ensures
        digits_value(ds) >= 0,
    decreases ds.len(),
{
    if ds.len() > 0 {
        assert(is_digit(ds[ds.len() - 1]));
        lemma_digits_nonneg(ds.drop_last());
    }
}

/// Parse a decimal `i64` as `str::parse` does.
pub fn parse_i64(s: &str) -> (r: Option<i64>)
    ensures
        r == parsed_i64(s@),
{
    let cs = chars_of(s);
    let n = cs.len();
    let neg = n > 0 && cs[0] == '-';
    let start: usize = if n > 0 && (cs[0] == '-' || cs[0] == '+') { 1 } else { 0 };
    let ghost ds = unsigned_part(cs@);
    assert(ds =~= cs@.skip(start as int));
    if start == n {
        return None;
    }
    // Magnitudes beyond 2^63 are all refused alike, so the running value is capped there.
    let cap: u128 = 9223372036854775809u128;
    let mut acc: u128 = 0;
    let mut i: usize = start;
    while i < n
        invariant
            start <= i <= n,
            n == cs@.len(),
            cs@ == s@,
            neg == (cs@.len() > 0 && cs@[0] == '-'),
            cap == 9223372036854775809u128,
            ds == unsigned_part(cs@),
            ds == cs@.skip(start as int),
            forall|j: int| 0 <= j < i - start ==> is_digit(#[trigger] ds[j]),
            acc as int == (if digits_value(ds.take(i - start)) < cap { digits_value(ds.take(i - start)) } else { cap as int }),
            acc <= cap,
        decreases n - i,
    {
        let c = cs[i];
        if !('0' <= c && c <= '9') {
            assert(!is_digit(ds[i - start]));
            return None;
        }
        let d = (c as u32 - 48) as u128;
        assert(d <= 9);
        let ghost prev = digits_value(ds.take(i - start));
        proof {
            assert(ds.take(i - start + 1).drop_last() =~= ds.take(i - start));
            assert(ds.take(i - start + 1).last() == c);
            lemma_digits_nonneg(ds.take(i - start));
        }
        if acc >= cap {
            assert(prev * 10 + d >= cap) by (nonlinear_arith)
                requires
                    prev >= cap,
                    d >= 0,
            ;
            acc = cap;
        } else {
            assert(acc * 10 + d < 10 * cap) by (nonlinear_arith)
                requires
                    acc < cap,
                    d <= 9,
            ;
            let next = acc * 10 + d;
            acc = if next >= cap { cap } else { next };
        }
        i = i + 1;
    }
    proof {
        assert(ds.take(n - start) =~= ds);
        lemma_digits_nonneg(ds);
    }
    if neg {
        if acc > 9223372036854775808u128 {
            None
        } else if acc == 9223372036854775808u128 {
            Some(i64::MIN)
        } else {
            Some(-(acc as i64))
        }
    } else {
        if acc > 9223372036854775807u128 {
            None
        } else {
            Some(acc as i64)
        }
    }
}

/// What a calculator key asks the Gleam guest to do.
#[derive(Debug, Clone, Copy, PartialEq, Eq, Structural)]
pub enum KeyAction {
    Clear,
    ClearEntry,
    /// Operator code: 1 `+`, 2 `−`, 3 `×`, 4 `÷`.
    Op(i64),
    Equals,
    Digit(i64),
    Ignore,
}

/// The action of the key labelled `label`.
pub open spec fn key_action_of(label: Seq<char>) -> KeyAction {
    if label == "C"@ {
        KeyAction::Clear
    } else if label == "CE"@ {
        KeyAction::ClearEntry
    } else if label == "+"@ {
        KeyAction::Op(1)
    } else if label == "−"@ {
        KeyAction::Op(2)
    } else if label == "×"@ {
        KeyAction::Op(3)
    } else if label == "÷"@ {
        KeyAction::Op(4)
    } else if label == "="@ {
        KeyAction::Equals
    } else {
        match parsed_i64(label) {
            Some(n) => KeyAction::Digit(n),
            None => KeyAction::Ignore,
        }
    }
}

/// The action of a clicked calculator key.
pub fn key_action(label: &str) -> (a: KeyAction)
    ensures
        a == key_action_of(label@),
{
    let k = chars_of(label);
    if chars_are(&k, "C") {
        KeyAction::Clear
    } else if chars_are(&k, "CE") {
        KeyAction::ClearEntry
    } else if chars_are(&k, "+") {
        KeyAction::Op(1)
    } else if chars_are(&k, "−") {
        KeyAction::Op(2)
    } else if chars_are(&k, "×") {
        KeyAction::Op(3)
    } else if chars_are(&k, "÷") {
        KeyAction::Op(4)
    } else if chars_are(&k, "=") {
        KeyAction::Equals
    } else {
        match parse_i64(label) {
            Some(n) => KeyAction::Digit(n),
            None => KeyAction::Ignore,
        }
    }
}

/// The glyph of a pending operator code, if it names one.
pub open spec fn op_glyph_of(code: i64) -> Option<Seq<char>> {
    if code == 1 {
        Some("+"@)
    } else if code == 2 {
        Some("−"@)
    } else if code == 3 {
        Some("×"@)
    } else if code == 4 {
        Some("÷"@)
    } else {
        None
    }
}

/// The keypad's operator keys and the glyph table agree: a key gives the
/// operator with code `c` exactly when `c`'s glyph is the key's label, so
/// `×` multiplies (code 3) and no other key gives an operator.
pub proof fn lemma_keypad_ops_match_glyphs(label: Seq<char>, code: i64)
    ensures
        key_action_of(label) == KeyAction::Op(code) <==> op_glyph_of(code) == Some(label),
{
    broadcast use vstd::string::group_string_axioms;
    reveal_strlit("C");
    reveal_strlit("CE");
    reveal_strlit("+");
    reveal_strlit("−");
    reveal_strlit("×");
    reveal_strlit("÷");
    reveal_strlit("=");
    assert("C"@.len() == 1 && "C"@[0] == 'C');
    assert("CE"@.len() == 2);
    assert("+"@.len() == 1 && "+"@[0] == '+');
    assert("−"@.len() == 1 && "−"@[0] == '−');
    assert("×"@.len() == 1 && "×"@[0] == '×');
    assert("÷"@.len() == 1 && "÷"@[0] == '÷');
    assert("="@.len() == 1 && "="@[0] == '=');
    match parsed_i64(label) {
        Some(n) => {},
        None => {},
    }
}

pub fn op_glyph(code: i64) -> (g: Option<&'static str>)
    ensures
        match op_glyph_of(code) {
            Some(t) => g matches Some(s) && s@ == t,
            None => g is None,
        },
{
    if code == 1 {
        Some("+")
    } else if code == 2 {
        Some("−")
    } else if code == 3 {
        Some("×")
    } else if code == 4 {
        Some("÷")
    } else {
        None
    }
}

/// The calculator's headline: `Error` once the guest has failed, else the
/// value, followed by two spaces and the pending operator when there is one.
pub open spec fn headline_of(value: i64, pending: Option<Seq<char>>, errored: bool) -> Seq<char> {
    if errored {
        "Error"@
    } else {
        match pending {
            Some(op) => int_text(value as int) + "  "@ + op,
            None => int_text(value as int),
        }
    }
}

pub fn headline(value: i64, pending: Option<&str>, errored: bool) -> (h: String)
    ensures
        h@ == headline_of(
            value,
            match pending {
                Some(p) => Some(p@),
                None => None,
            },
            errored,
        ),
{
    if errored {
        return String::from_str("Error");
    }
    let v = int_string(value);
    match pending {
        Some(op) => {
            let mut out: Vec<char> = Vec::new();
            append_str(&mut out, v.as_str());
            append_str(&mut out, "  ");
            append_str(&mut out, op);
            string_from_chars(&out)
        },
        None => v,
    }
}

/// The guest's model and last error after one update: a new model clears
/// the error; a failure keeps the model and records the error.
pub fn apply_update(model: Option<i64>, result: Result<i64, String>) -> (r: (Option<i64>, Option<String>))
    ensures
        match result {
            Ok(n) => r.0 == Some(n) && r.1 is None,
            Err(e) => r.0 == model && r.1 == Some(e),
        },
{
    match result {
        Ok(n) => (Some(n), None),
        Err(e) => (model, Some(e)),
    }
}

/// The other appearance, as the header's toggle switches to.
pub open spec fn other_mode(m: Mode) -> Mode {
    match m {
        Mode::Dark => Mode::Light,
        Mode::Light => Mode::Dark,
    }
}

pub fn toggled(mode: Mode) -> (m: Mode)
    ensures
        m == other_mode(mode),
{
    match mode {
        Mode::Dark => Mode::Light,
        Mode::Light => Mode::Dark,
    }
}

/// The header toggle's label names the mode it switches to.
pub fn toggle_label(mode: Mode) -> (s: &'static str)
    ensures
        s@ == (match mode {
            Mode::Dark => " Light "@,
            Mode::Light => " Dark "@,
        }),
{
    match mode {
        Mode::Dark => " Light ",
        Mode::Light => " Dark ",
    }
}

/// Toggling the appearance twice gives it back.
pub proof fn lemma_toggle_twice(m: Mode)
    ensures
        other_mode(other_mode(m)) == m,
{
}

/// Frames to let fonts and layout settle before a screenshot is taken.
pub const SCREENSHOT_FRAMES: u32 = 12;

/// One frame of a screenshot run: the frame count goes up (saturating), and
/// the capture is asked for once, on the first frame the count reaches
/// `SCREENSHOT_FRAMES`.
pub fn screenshot_tick(frames: u32, requested: bool) -> (r: (u32, bool))
    ensures
        r.0 == (if frames == u32::MAX { u32::MAX } else { (frames + 1) as u32 }),
        r.1 == (!requested && r.0 >= SCREENSHOT_FRAMES),
{
    let n = frames.saturating_add(1);
    (n, !requested && n >= SCREENSHOT_FRAMES)
}

} // verus!
