//! Shell commands that are bound to a key: they see the edited text in variables,
//! and change it there.

use vstd::prelude::*;

verus! {

use crate::number::{decimal, lemma_decimal_is_read_back, number_value, parse_usize, to_decimal};
use crate::state::App;
use crate::suggestion::text_view;
use crate::text::{char_count, is_line_end, trim_end_by, without_line_ends};
use crate::textbuffer::TextBuffer;

/// The mathematical value of a [`TextBuffer`].
#[verifier::ext_equal]
pub struct BufferView {
    pub text: Seq<char>,
    pub cursor: int,
    pub selection: Option<int>,
}

impl View for TextBuffer {
    type V = BufferView;

    open spec fn view(&self) -> BufferView {
        BufferView {
            text: self.text@,
            cursor: self.cursor as int,
            selection: match self.selection {
                Some(a) => Some(a as int),
                None => None,
            },
        }
    }
}

/// A position in a text, at most its end.
pub open spec fn clamped(position: int, len: int) -> int {
    if position <= len {
        position
    } else {
        len
    }
}

impl BufferView {
    /// The position that a command sees as the mark: where the selection was
    /// started, else the cursor.
    pub open spec fn mark(self) -> int {
        match self.selection {
            Some(a) => clamped(a, self.text.len() as int),
            None => self.cursor,
        }
    }
}

/// A position as a command writes it, where it can be one.
pub open spec fn position_value(s: Option<Seq<char>>) -> Option<int> {
    match s {
        Some(digits) => match number_value(digits) {
            Some(n) => if n <= usize::MAX {
                Some(n as int)
            } else {
                None
            },
            None => None,
        },
        None => None,
    }
}

/// The text with what a command left in `READLINE_LINE`.
pub open spec fn with_line(before: BufferView, line: Option<Seq<char>>) -> BufferView {
    match line {
        Some(text) => {
            let text = trim_end_by(text, |c: char| is_line_end(c));
            BufferView { text, cursor: text.len() as int, selection: None }
        },
        None => before,
    }
}

/// What the variables that a command leaves make of the edited text: the line
/// replaces it, the point moves the cursor, and the mark starts a selection where
/// it differs from the point and was there before or has been moved.
pub open spec fn after_command(
    before: BufferView,
    line: Option<Seq<char>>,
    point: Option<Seq<char>>,
    mark: Option<Seq<char>>,
) -> BufferView {
    let replaced = with_line(before, line);
    let len = replaced.text.len() as int;
    let cursor = match position_value(point) {
        Some(p) => clamped(p, len),
        None => replaced.cursor,
    };
    let new_point = match position_value(point) {
        Some(p) => p,
        None => replaced.cursor,
    };
    let selection = match position_value(mark) {
        Some(m) => if m != new_point && (before.selection is Some || m != before.mark()) {
            Some(clamped(m, len))
        } else {
            None
        },
        None => None,
    };
    BufferView { text: replaced.text, cursor, selection }
}

/// The variables that a command sees.
#[derive(Debug, PartialEq, Eq)]
pub struct ReadlineVars {
    pub line: String,
    pub point: String,
    pub mark: String,
    pub argument: String,
}

impl TextBuffer {
    /// The position that a command sees as the mark.
    pub fn mark_position(&self) -> (r: usize)
        requires
            self.wf(),
        ensures
            r == self@.mark(),
    {
        let n: usize = char_count(self.text.as_str());
        match self.selection {
            Some(a) => if a <= n {
                a
            } else {
                n
            },
            None => self.cursor,
        }
    }

    /// The variables that a command sees.
    pub fn readline_vars(&self) -> (r: ReadlineVars)
        requires
            self.wf(),
        ensures
            r.line@ == self.text@,
            r.point@ == decimal(self.cursor as nat),
            r.mark@ == decimal(self@.mark() as nat),
            r.argument@ == "1"@,
    {
        ReadlineVars {
            line: self.text.clone(),
            point: to_decimal(self.cursor as u64),
            mark: to_decimal(self.mark_position() as u64),
            argument: "1".to_owned(),
        }
    }
}

fn parse_position(s: &Option<String>) -> (r: Option<usize>)
    ensures
        position_value(text_view(*s)) == (match r {
            Some(n) => Some(n as int),
            None => None,
        }),
{
    match s {
        Some(digits) => parse_usize(digits.as_str()),
        None => None,
    }
}

impl App {
    /// Takes over what a command left in the variables.
    pub fn run_bash_command(
        &mut self,
        line: &Option<String>,
        point: &Option<String>,
        mark: &Option<String>,
    )
        requires
            old(self).wf(),
        ensures
            final(self).wf(),
            *final(self) == (App { buffer: final(self).buffer, ..*old(self) }),
            final(self).buffer@ == after_command(
                old(self).buffer@,
                text_view(*line),
                text_view(*point),
                text_view(*mark),
            ),
    {
        let selection_was_active = self.buffer.selection.is_some();
        let initial_mark: usize = self.buffer.mark_position();
        if let Some(text) = line {
            let cleaned = without_line_ends(text.as_str());
            self.buffer.replace_buffer(cleaned.as_str());
        }
        let n: usize = char_count(self.buffer.text.as_str());
        let new_point: usize = match parse_position(point) {
            Some(p) => {
                self.buffer.cursor = if p <= n {
                    p
                } else {
                    n
                };
                p
            },
            None => self.buffer.cursor,
        };
        self.buffer.selection = match parse_position(mark) {
            Some(m) => if m != new_point && (selection_was_active || m != initial_mark) {
                Some(
                    if m <= n {
                        m
                    } else {
                        n
                    },
                )
            } else {
                None
            },
            None => None,
        };
    }
}

/// A command that leaves its variables alone leaves the text alone. (A selection
/// of nothing is dropped, and line ends at the end of the text are.)
pub proof fn lemma_unchanged_variables_change_nothing(buffer: TextBuffer)
    requires
        buffer.wf(),
        buffer.text@.len() > 0 ==> !is_line_end(buffer.text@.last()),
        buffer.selection matches Some(a) ==> a <= buffer.text@.len() && a != buffer.cursor,
    ensures
        after_command(
            buffer@,
            Some(buffer.text@),
            Some(decimal(buffer.cursor as nat)),
            Some(decimal(buffer@.mark() as nat)),
        ) == buffer@,
{
    lemma_decimal_is_read_back(buffer.cursor as nat);
    lemma_decimal_is_read_back(buffer@.mark() as nat);
    assert(trim_end_by(buffer.text@, |c: char| is_line_end(c)) == buffer.text@);
    let a = after_command(
        buffer@,
        Some(buffer.text@),
        Some(decimal(buffer.cursor as nat)),
        Some(decimal(buffer@.mark() as nat)),
    );
    assert(a.text == buffer@.text);
    assert(a.cursor == buffer@.cursor);
    assert(a.selection == buffer@.selection);
}

/// The line that a command leaves replaces the text, without the line ends at its end;
/// where it leaves none, the text stays. Without a point, the cursor stands behind a new
/// text, and stays where it is in the old one; without a mark, nothing is selected.
pub proof fn lemma_line_replaces_the_text(
    before: BufferView,
    line: Seq<char>,
    point: Option<Seq<char>>,
    mark: Option<Seq<char>>,
) -> (k: int)
    ensures
        0 <= k <= line.len(),
        after_command(before, Some(line), point, mark).text == line.take(k),
        forall|i: int| k <= i < line.len() ==> #[trigger] line[i] == '\r' || line[i] == '\n',
        k > 0 ==> line[k - 1] != '\r' && line[k - 1] != '\n',
        after_command(before, None, point, mark).text == before.text,
        after_command(before, Some(line), None, mark).cursor == k,
        after_command(before, None, None, mark).cursor == before.cursor,
        after_command(before, Some(line), point, None).selection is None,
        after_command(before, None, point, None).selection is None,
{
    let ends = |c: char| is_line_end(c);
    let k = crate::text::lemma_trim_end_cuts(line, ends);
    assert forall|i: int| k <= i < line.len() implies #[trigger] line[i] == '\r' || line[i]
        == '\n' by {
        assert(ends(line[i]));
    }
    k
}

/// The point that a command leaves moves the cursor, at most to the end of the text. The
/// mark that it leaves selects from there to the cursor where the two differ, if something
/// was selected before or the command has moved the mark.
pub proof fn lemma_point_and_mark_are_taken_over(
    before: BufferView,
    line: Option<Seq<char>>,
    point: nat,
    mark: nat,
)
    requires
        point <= usize::MAX,
        mark <= usize::MAX,
    ensures
        ({
            let after = after_command(before, line, Some(decimal(point)), Some(decimal(mark)));
            let len = after.text.len() as int;
            let old_mark = match before.selection {
                Some(a) => if a <= before.text.len() {
                    a
                } else {
                    before.text.len() as int
                },
                None => before.cursor,
            };
            &&& after.cursor == (if point <= len {
                point as int
            } else {
                len
            })
            &&& after.selection == (if mark != point && (before.selection is Some || mark
                != old_mark) {
                Some(
                    if mark <= len {
                        mark as int
                    } else {
                        len
                    },
                )
            } else {
                None
            })
        }),
{
    lemma_decimal_is_read_back(point);
    lemma_decimal_is_read_back(mark);
}

/// A point or a mark that is no number is as good as none.
pub proof fn lemma_what_is_no_number_is_left_alone(
    before: BufferView,
    line: Option<Seq<char>>,
    junk: Seq<char>,
    i: int,
)
    requires
        0 <= i < junk.len(),
        !('0' <= junk[i] && junk[i] <= '9'),
        i > 0 || junk[0] != '+',
    ensures
        after_command(before, line, Some(junk), Some(junk)) == after_command(
            before,
            line,
            None,
            None,
        ),
{
    crate::number::lemma_only_digits_are_a_number(junk, i);
}

} // verus!
