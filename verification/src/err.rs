//! Positioned diagnostics.

use vstd::prelude::*;
use vstd::string::*;
use crate::text::{numeral, push_padded, push_repeated, repeated, zero_padded};

verus! {

/// A failure with the place in the source that it belongs to.
#[derive(Debug, Clone, PartialEq, Eq)]
pub struct T8Err {
    pub line: usize,
    pub col: usize,
    pub msg: String,
}

/// What a diagnostic says: a line, a column and the message's characters.
pub ghost struct Diagnostic {
    pub line: int,
    pub col: int,
    pub msg: Seq<char>,
}

impl View for T8Err {
    type V = Diagnostic;

    open spec fn view(&self) -> Diagnostic {
        Diagnostic { line: self.line as int, col: self.col as int, msg: self.msg@ }
    }
}

/// The views of the lines of a source.
pub open spec fn line_views(lines: Seq<String>) -> Seq<Seq<char>> {
    lines.map_values(|l: String| l@)
}

/// Line `k` as it is shown: its number in two digits or more, a bar, the
/// text; nothing where the source has no line `k`.
pub open spec fn shown_line(lines: Seq<Seq<char>>, k: int) -> Seq<char> {
    if 0 <= k < lines.len() {
        zero_padded(numeral(k as nat, 10, false), 2) + " | "@ + lines[k] + "\n"@
    } else {
        Seq::empty()
    }
}

/// The line that points at the column: a caret under it, then the message.
pub open spec fn caret_line(col: int, msg: Seq<char>) -> Seq<char> {
    "   |"@ + repeated(' ', col - 1) + "^ "@ + msg + " \n"@
}

/// A diagnostic as it is shown over the lines of its source: up to two
/// lines before the offending line, that line, the caret line, and up to
/// two lines after it.
pub open spec fn rendered(d: Diagnostic, lines: Seq<Seq<char>>) -> Seq<char> {
    shown_line(lines, d.line - 2) + shown_line(lines, d.line - 1) + shown_line(lines, d.line)
        + caret_line(d.col, d.msg) + shown_line(lines, d.line + 1) + shown_line(
        lines,
        d.line + 2,
    )
}

/// Appends line `k` of `lines` as it is shown.
fn push_line(out: &mut String, lines: &[String], k: usize)
    ensures
        final(out)@ == old(out)@ + shown_line(line_views(lines@), k as int),
{
    if k < lines.len() {
        push_padded(out, k, 10, false, 2);
        out.append(" | ");
        out.append(lines[k].as_str());
        out.append("\n");
        assert(out@ =~= old(out)@ + shown_line(line_views(lines@), k as int));
    } else {
        assert(out@ =~= old(out)@ + shown_line(line_views(lines@), k as int));
    }
}

impl T8Err {
    /// The text that shows the diagnostic in its source.
    pub fn render(&self, lines: &[String]) -> (r: String)
        ensures
            r@ == rendered(self@, line_views(lines@)),
    {
        let ghost shown = line_views(lines@);
        let mut out = String::new();
        if self.line >= 2 {
            push_line(&mut out, lines, self.line - 2);
        }
        if self.line >= 1 {
            push_line(&mut out, lines, self.line - 1);
        }
        push_line(&mut out, lines, self.line);
        assert(out@ =~= shown_line(shown, self.line - 2) + shown_line(shown, self.line - 1)
            + shown_line(shown, self.line as int));
        let ghost head = out@;
        out.append("   |");
        if self.col >= 1 {
            push_repeated(&mut out, ' ', self.col - 1);
        }
        out.append("^ ");
        out.append(self.msg.as_str());
        out.append(" \n");
        assert(out@ =~= head + caret_line(self.col as int, self.msg@)) by {
            assert(self.col == 0 ==> repeated(' ', self.col - 1) =~= Seq::<char>::empty());
        }
        let ghost body = out@;
        let len: usize = lines.len();
        if self.line < len {
            push_line(&mut out, lines, self.line + 1);
        }
        let ghost more = out@;
        assert(more =~= body + shown_line(shown, self.line + 1));
        if self.line < len && self.line + 1 < len {
            push_line(&mut out, lines, self.line + 2);
        }
        assert(out@ =~= more + shown_line(shown, self.line + 2));
        assert(out@ =~= rendered(self@, shown));
        out
    }
}

} // verus!
