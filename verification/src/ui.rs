//! Terminal output.
//!
//! Every line a command prints is decided here, so the color policy and the
//! text of each kind of line live in one place. Color is an accent: a run with
//! `--quiet`, a run with `NO_COLOR` set, and a run whose stdout is not a
//! terminal all still carry the glyph and the words.
//!
//! The methods of [`Ui`] return the text to print, or `None` when the run
//! prints nothing for it; the binary writes what they return.

use vstd::prelude::*;

use crate::text::push_str;

verus! {

/// The glyph a result row leads with.
#[derive(Debug, Clone, Copy, PartialEq, Eq, Structural)]
pub enum Mark {
    /// The step passed.
    Pass,
    /// The step failed.
    Fail,
    /// The step needs attention without having failed.
    Warn,
    /// The row reports a fact rather than a result.
    Note,
    /// A diff row for something that appeared.
    Added,
    /// A diff row for something that went away.
    Removed,
    /// A diff row for something that moved or changed shape.
    Changed,
}

/// The single character a mark prints as.
pub open spec fn glyph_text(mark: Mark) -> Seq<char> {
    match mark {
        Mark::Pass => seq!['\u{2713}'],
        Mark::Fail => seq!['\u{2717}'],
        Mark::Warn => seq!['!'],
        Mark::Note => seq!['\u{b7}'],
        Mark::Added => seq!['+'],
        Mark::Removed => seq!['-'],
        Mark::Changed => seq!['~'],
    }
}

impl Mark {
    /// The single character this mark prints as.
    pub fn glyph(self) -> (r: &'static str)
        ensures
            r@ == glyph_text(self),
    {
        let r = match self {
            Mark::Pass => "\u{2713}",
            Mark::Fail => "\u{2717}",
            Mark::Warn => "!",
            Mark::Note => "\u{b7}",
            Mark::Added => "+",
            Mark::Removed => "-",
            Mark::Changed => "~",
        };
        proof {
            reveal_strlit("\u{2713}");
            reveal_strlit("\u{2717}");
            reveal_strlit("!");
            reveal_strlit("\u{b7}");
            reveal_strlit("+");
            reveal_strlit("-");
            reveal_strlit("~");
        }
        r
    }
}

/// One row of a result block.
pub struct Row {
    mark: Mark,
    name: String,
    value: String,
    note: String,
}

/// A row as plain values.
pub struct RowView {
    pub mark: Mark,
    pub name: Seq<char>,
    pub value: Seq<char>,
    pub note: Seq<char>,
}

impl View for Row {
    type V = RowView;

    closed spec fn view(&self) -> RowView {
        RowView { mark: self.mark, name: self.name@, value: self.value@, note: self.note@ }
    }
}

/// A copy of a string slice.
pub fn owned(s: &str) -> (r: String)
    ensures
        r@ == s@,
{
    let mut r = String::new();
    push_str(&mut r, s);
    r
}

impl Row {
    /// A row carrying a mark, a name and a value.
    pub fn new(mark: Mark, name: &str, value: &str) -> (r: Self)
        ensures
            r@ == (RowView { mark, name: name@, value: value@, note: Seq::empty() }),
    {
        Row { mark, name: owned(name), value: owned(value), note: String::new() }
    }

    /// Add the trailing explanation column.
    pub fn note(self, note: &str) -> (r: Self)
        ensures
            r@ == (RowView { note: note@, ..self@ }),
    {
        Row { note: owned(note), ..self }
    }

    /// The mark the row leads with.
    pub fn mark(&self) -> (r: Mark)
        ensures
            r == self@.mark,
    {
        self.mark
    }

    /// The name column.
    pub fn name(&self) -> (r: &str)
        ensures
            r@ == self@.name,
    {
        self.name.as_str()
    }

    /// The value column.
    pub fn value(&self) -> (r: &str)
        ensures
            r@ == self@.value,
    {
        self.value.as_str()
    }

    /// The explanation column.
    pub fn note_text(&self) -> (r: &str)
        ensures
            r@ == self@.note,
    {
        self.note.as_str()
    }
}

/// Green text, as a terminal shows it.
///
/// Trusted: calls `owo_colors::OwoColorize::green` and renders it, which the
/// crate's source writes as `ESC[32m`, the text, then `ESC[39m`.
#[verifier::external_body]
fn green(text: &str) -> (r: String)
    ensures
        r@ == seq!['\u{1b}', '[', '3', '2', 'm'] + text@ + seq!['\u{1b}', '[', '3', '9', 'm'],
{
    owo_colors::OwoColorize::green(&text).to_string()
}

/// Red text, as a terminal shows it.
///
/// Trusted: calls `owo_colors::OwoColorize::red` and renders it, which the
/// crate's source writes as `ESC[31m`, the text, then `ESC[39m`.
#[verifier::external_body]
fn red(text: &str) -> (r: String)
    ensures
        r@ == seq!['\u{1b}', '[', '3', '1', 'm'] + text@ + seq!['\u{1b}', '[', '3', '9', 'm'],
{
    owo_colors::OwoColorize::red(&text).to_string()
}

/// Yellow text, as a terminal shows it.
///
/// Trusted: calls `owo_colors::OwoColorize::yellow` and renders it, which the
/// crate's source writes as `ESC[33m`, the text, then `ESC[39m`.
#[verifier::external_body]
fn yellow(text: &str) -> (r: String)
    ensures
        r@ == seq!['\u{1b}', '[', '3', '3', 'm'] + text@ + seq!['\u{1b}', '[', '3', '9', 'm'],
{
    owo_colors::OwoColorize::yellow(&text).to_string()
}

/// Dimmed text, as a terminal shows it.
///
/// Trusted: calls `owo_colors::OwoColorize::dimmed` and renders it, which the
/// crate's source writes as `ESC[2m`, the text, then `ESC[0m`.
#[verifier::external_body]
fn dimmed(text: &str) -> (r: String)
    ensures
        r@ == seq!['\u{1b}', '[', '2', 'm'] + text@ + seq!['\u{1b}', '[', '0', 'm'],
{
    owo_colors::OwoColorize::dimmed(&text).to_string()
}

/// The accent a mark carries, applied to text.
pub open spec fn painted(mark: Mark, text: Seq<char>) -> Seq<char> {
    match mark {
        Mark::Pass | Mark::Added => seq!['\u{1b}', '[', '3', '2', 'm'] + text + seq!['\u{1b}', '[', '3', '9', 'm'],
        Mark::Fail | Mark::Removed => seq!['\u{1b}', '[', '3', '1', 'm'] + text + seq!['\u{1b}', '[', '3', '9', 'm'],
        Mark::Warn | Mark::Changed => seq!['\u{1b}', '[', '3', '3', 'm'] + text + seq!['\u{1b}', '[', '3', '9', 'm'],
        Mark::Note => seq!['\u{1b}', '[', '2', 'm'] + text + seq!['\u{1b}', '[', '0', 'm'],
    }
}

/// The output sink, holding the color decision for the whole run.
pub struct Ui {
    color: bool,
    quiet: bool,
}

/// The widest and narrowest a divider is drawn.
pub open spec fn clamp_width(width: int) -> int {
    if width < 8 {
        8
    } else if width > 72 {
        72
    } else {
        width
    }
}

impl Ui {
    /// Whether this run emits color.
    pub closed spec fn spec_color(&self) -> bool {
        self.color
    }

    /// Whether this run suppresses everything but failures.
    pub closed spec fn spec_quiet(&self) -> bool {
        self.quiet
    }

    /// Decide once whether this run emits color: never when quiet, never when
    /// `NO_COLOR` is set, and only when stdout is a terminal.
    pub fn new(quiet: bool, no_color: bool, stdout_is_terminal: bool) -> (r: Self)
        ensures
            r.spec_quiet() == quiet,
            r.spec_color() == (!quiet && !no_color && stdout_is_terminal),
    {
        Ui { color: !quiet && !no_color && stdout_is_terminal, quiet }
    }

    /// Whether this run suppresses everything but failures.
    pub fn quiet(&self) -> (r: bool)
        ensures
            r == self.spec_quiet(),
    {
        self.quiet
    }

    /// Whether this run emits color.
    pub fn color(&self) -> (r: bool)
        ensures
            r == self.spec_color(),
    {
        self.color
    }

    /// Apply the mark's accent to a string, or leave it plain.
    pub fn paint(&self, mark: Mark, text: &str) -> (r: String)
        ensures
            r@ == if self.spec_color() {
                painted(mark, text@)
            } else {
                text@
            },
    {
        if !self.color {
            return owned(text);
        }
        match mark {
            Mark::Pass | Mark::Added => green(text),
            Mark::Fail | Mark::Removed => red(text),
            Mark::Warn | Mark::Changed => yellow(text),
            Mark::Note => dimmed(text),
        }
    }

    /// A blank line and one lowercase label opening a block.
    pub fn section(&self, label: &str) -> (r: Option<String>)
        ensures
            self.spec_quiet() ==> r is None,
            !self.spec_quiet() ==> (r matches Some(t) && t@ == seq!['\n'] + if self.spec_color() {
                painted(Mark::Note, label@)
            } else {
                label@
            }),
    {
        if self.quiet {
            return None;
        }
        let mut out = String::new();
        crate::text::push_char(&mut out, '\n');
        let body = if self.color {
            dimmed(label)
        } else {
            owned(label)
        };
        push_str(&mut out, body.as_str());
        Some(out)
    }

    /// A line of plain prose, indented into the current block.
    pub fn line(&self, text: &str) -> (r: Option<String>)
        ensures
            self.spec_quiet() ==> r is None,
            !self.spec_quiet() ==> (r matches Some(t) && t@ == seq![' ', ' '] + text@),
    {
        if self.quiet {
            return None;
        }
        Some(Self::always(text))
    }

    /// A line of prose printed whether or not the run is quiet.
    pub fn always(text: &str) -> (r: String)
        ensures
            r@ == seq![' ', ' '] + text@,
    {
        let mut out = String::new();
        crate::text::push_char(&mut out, ' ');
        crate::text::push_char(&mut out, ' ');
        push_str(&mut out, text);
        out
    }

    /// The dim rule that closes a block, between 8 and 72 columns wide.
    pub fn divider(&self, width: usize) -> (r: Option<String>)
        ensures
            self.spec_quiet() ==> r is None,
            !self.spec_quiet() ==> (r matches Some(t) && t@ == seq![' ', ' '] + if self.spec_color() {
                painted(Mark::Note, Seq::new(clamp_width(width as int) as nat, |i: int| '\u{2500}'))
            } else {
                Seq::new(clamp_width(width as int) as nat, |i: int| '\u{2500}')
            }),
    {
        if self.quiet {
            return None;
        }
        let n: usize = if width < 8 {
            8
        } else if width > 72 {
            72
        } else {
            width
        };
        let mut rule = String::new();
        let mut i: usize = 0;
        while i < n
            invariant
                i <= n,
                rule@ == Seq::new(i as nat, |k: int| '\u{2500}'),
            decreases n - i,
        {
            crate::text::push_char(&mut rule, '\u{2500}');
            i = i + 1;
            assert(rule@ =~= Seq::new(i as nat, |k: int| '\u{2500}'));
        }
        let body = if self.color {
            dimmed(rule.as_str())
        } else {
            rule
        };
        Some(Self::always(body.as_str()))
    }

    /// The closing summary line of a block, red when it reports a failure.
    pub fn summary(&self, text: &str, failed: bool) -> (r: Option<String>)
        ensures
            self.spec_quiet() && !failed ==> r is None,
            !(self.spec_quiet() && !failed) ==> (r matches Some(t) && t@ == seq![' ', ' '] + if self.spec_color()
                && failed {
                painted(Mark::Fail, text@)
            } else {
                text@
            }),
    {
        if self.quiet && !failed {
            return None;
        }
        let body = if self.color && failed {
            red(text)
        } else {
            owned(text)
        };
        Some(Self::always(body.as_str()))
    }

    /// A failure that stopped the command, for standard error.
    pub fn error(&self, text: &str) -> (r: String)
        ensures
            r@ == (if self.spec_color() {
                painted(Mark::Fail, "error"@)
            } else {
                "error"@
            }) + seq![':', ' '] + text@,
    {
        let label = if self.color {
            red("error")
        } else {
            owned("error")
        };
        let mut out = String::new();
        push_str(&mut out, label.as_str());
        push_str(&mut out, ": ");
        proof {
            reveal_strlit(": ");
        }
        push_str(&mut out, text);
        out
    }
}

} // verus!
