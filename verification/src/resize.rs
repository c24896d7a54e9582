//! Where the cursor ends up when the terminal changes its width.

use vstd::prelude::*;

verus! {

use crate::state::App;
use crate::text::{trim, trimmed};

/// The columns that a text takes on a terminal, as the unicode-width crate counts
/// them.
pub uninterp spec fn display_width(s: Seq<char>) -> usize;

/// Whether `s` is made of printable ASCII characters.
pub open spec fn is_printable_ascii(s: Seq<char>) -> bool {
    forall|i: int| 0 <= i < s.len() ==> ' ' <= #[trigger] s[i] && s[i] <= '~'
}

/// Calls `UnicodeWidthStr::width` of the unicode-width crate.
///
/// Claimed of it: the width depends on the text alone, and each printable ASCII
/// character is one column wide.
#[verifier::external_body]
fn width_of(s: &str) -> (r: usize)
    ensures
        r == display_width(s@),
        is_printable_ascii(s@) ==> r == s@.len(),
{
    unicode_width::UnicodeWidthStr::width(s)
}

/// What a terminal does with its lines when its width changes.
#[derive(Clone, Copy, Debug, PartialEq, Eq, Structural)]
pub enum ResizeLogic {
    Default,
    /// The lines are cleared, and the cursor stays.
    AutoCleared,
    /// All lines but that of the cursor are wrapped anew.
    ReflowedApartFromCursor,
    /// All lines are wrapped anew.
    ReflowedAll,
    /// All lines are wrapped anew, without the white space at their ends.
    ReflowedAllWhitespaceTrimmed,
    DontMoveCursor,
}

/// The cells that were drawn last, row by row. A cell holds the text that starts
/// in it, if one does.
#[derive(Debug, PartialEq, Eq)]
pub struct ScreenBuffer {
    pub x: u16,
    pub y: u16,
    pub width: u16,
    pub height: u16,
    pub cells: Vec<Option<String>>,
}

impl ScreenBuffer {
    /// Whether the buffer has a cell at column `x` and row `y`.
    pub open spec fn has_cell(self, x: int, y: int) -> bool {
        &&& self.x <= x < self.x + self.width
        &&& self.y <= y < self.y + self.height
        &&& (y - self.y) * self.width + (x - self.x) < self.cells@.len()
    }

    /// The cell at column `x` and row `y`.
    pub open spec fn at(self, x: int, y: int) -> Option<String> {
        self.cells@[(y - self.y) * self.width + (x - self.x)]
    }

    /// The text in the cell at column `x` and row `y`, where there is one.
    pub fn symbol(&self, x: u16, y: u16) -> (r: Option<&String>)
        ensures
            r matches Some(s) ==> self.has_cell(x as int, y as int) && self.at(x as int, y as int)
                == Some(*s),
            r is None ==> !self.has_cell(x as int, y as int) || self.at(x as int, y as int)
                is None,
    {
        if x < self.x || y < self.y || x as u32 >= self.x as u32 + self.width as u32 || y as u32
            >= self.y as u32 + self.height as u32 {
            return None;
        }
        let row: u64 = (y - self.y) as u64;
        let col: u64 = (x - self.x) as u64;
        assert(row * self.width <= 65535 * 65535) by (nonlinear_arith)
            requires
                row <= 65535,
                self.width <= 65535,
        ;
        assert(0 <= row * self.width) by (nonlinear_arith);
        let index: u64 = row * self.width as u64 + col;
        if index >= self.cells.len() as u64 {
            return None;
        }
        match &self.cells[index as usize] {
            Some(s) => Some(s),
            None => None,
        }
    }

    /// Whether the cell at column `x` and row `y` shows something.
    pub open spec fn is_filled(self, x: int, y: int, trim_whitespace: bool) -> bool {
        self.has_cell(x, y) && match self.at(x, y) {
            Some(s) => if trim_whitespace {
                trim(s@).len() > 0
            } else {
                s@.len() > 0
            },
            None => false,
        }
    }

    /// The last column before `n` of row `y` that shows something.
    pub open spec fn last_filled(self, y: int, trim_whitespace: bool, n: int) -> Option<int>
        decreases n,
    {
        if n <= 0 {
            None
        } else if self.is_filled(n - 1, y, trim_whitespace) {
            Some(n - 1)
        } else {
            self.last_filled(y, trim_whitespace, n - 1)
        }
    }

    /// The last column of row `y` that shows something, with its text.
    pub fn last_filled_cell(&self, y: u16, trim_whitespace: bool) -> (r: Option<(u16, &String)>)
        ensures
            self.last_filled(y as int, trim_whitespace, self.width as int) is None <==> r is None,
            r matches Some((x, s)) ==> self.last_filled(
                y as int,
                trim_whitespace,
                self.width as int,
            ) == Some(x as int) && x < self.width && self.has_cell(x as int, y as int) && self.at(
                x as int,
                y as int,
            ) == Some(*s),
    {
        let mut n: u16 = self.width;
        while n > 0
            invariant
                n <= self.width,
                self.last_filled(y as int, trim_whitespace, self.width as int)
                    == self.last_filled(y as int, trim_whitespace, n as int),
            decreases n,
        {
            let x: u16 = n - 1;
            if let Some(s) = self.symbol(x, y) {
                let shown = if trim_whitespace {
                    !trimmed(s.as_str()).as_str().is_empty()
                } else {
                    !s.as_str().is_empty()
                };
                if shown {
                    return Some((x, s));
                }
            }
            n = n - 1;
        }
        None
    }

    /// The columns that row `y` takes.
    pub open spec fn line_width(self, y: int, trim_whitespace: bool) -> int {
        match self.last_filled(y, trim_whitespace, self.width as int) {
            Some(x) => line_end(
                x,
                display_width(self.at(x, y)->0@),
                self.width as int,
            ),
            None => 0,
        }
    }
}

impl ScreenBuffer {
    /// Where the last text of row `y` is printable ASCII, it takes a column for each
    /// character.
    pub open spec fn ascii_takes_its_length(self, y: int, trim_whitespace: bool) -> bool {
        match self.last_filled(y, trim_whitespace, self.width as int) {
            Some(x) => is_printable_ascii(self.at(x, y)->0@) ==> display_width(self.at(x, y)->0@)
                == self.at(x, y)->0@.len(),
            None => true,
        }
    }
}

/// The column behind a text of `symbol_width` columns that starts at column `x`,
/// at most the line's width. A text takes one column at least.
pub open spec fn line_end(x: int, symbol_width: usize, width: int) -> int {
    let columns = symbol_width as u16;
    let end = x + (if columns >= 1 {
        columns as int
    } else {
        1
    });
    if end <= width {
        end
    } else {
        width
    }
}

/// The column behind a text of `symbol_width` columns that starts at column `x`.
pub fn end_of_line(x: u16, symbol_width: usize, width: u16) -> (r: u16)
    ensures
        r == line_end(x as int, symbol_width, width as int),
{
    let columns: u16 = #[verifier::truncate]
    (symbol_width as u16);
    let end: u32 = x as u32 + (if columns >= 1 {
        columns as u32
    } else {
        1
    });
    if end <= width as u32 {
        end as u16
    } else {
        width
    }
}

/// How many rows a line of `width` columns takes on a terminal of `new_width`
/// columns: one at least.
pub open spec fn rows_of(width: int, new_width: int) -> int {
    if width == 0 {
        1
    } else {
        (width + new_width - 1) / new_width
    }
}

/// The rows of the lines `0..n`, whose widths `width` gives.
pub open spec fn rows_above(width: spec_fn(int) -> int, n: int, new_width: int) -> int
    decreases n,
{
    if n <= 0 {
        0
    } else {
        rows_above(width, n - 1, new_width) + rows_of(width(n - 1), new_width)
    }
}

/// The rows that the lines `from..to` take more than one each.
pub open spec fn extra_rows(width: spec_fn(int) -> int, from: int, to: int, new_width: int) -> int
    decreases to - from,
{
    if from >= to {
        0
    } else {
        extra_rows(width, from, to - 1, new_width) + (if width(to - 1) > new_width {
            rows_of(width(to - 1), new_width) - 1
        } else {
            0
        })
    }
}

/// How many rows the cursor stands below the first row that was drawn, once the
/// terminal has `new_width` columns. `width` gives the width of each line.
pub open spec fn rows_up(
    width: spec_fn(int) -> int,
    height: int,
    cursor_x: int,
    cursor_y: int,
    new_width: int,
    logic: ResizeLogic,
) -> int {
    if new_width == 0 || logic is DontMoveCursor {
        0
    } else if logic is AutoCleared {
        cursor_y
    } else {
        rows_above(width, cursor_y, new_width) + match logic {
            ResizeLogic::ReflowedApartFromCursor => extra_rows(
                width,
                cursor_y + 1,
                height,
                new_width,
            ),
            ResizeLogic::ReflowedAll => cursor_x / new_width,
            ResizeLogic::ReflowedAllWhitespaceTrimmed => cursor_x / new_width,
            _ => 0,
        }
    }
}

/// The rows that lie between the cursor and the first row that was drawn.
pub open spec fn buffer_rows_up(
    buffer: ScreenBuffer,
    cursor_x: int,
    cursor_y: int,
    new_width: int,
    logic: ResizeLogic,
) -> int {
    rows_up(
        |y: int| buffer.line_width(y, logic is ReflowedAllWhitespaceTrimmed),
        buffer.height as int,
        cursor_x,
        cursor_y,
        new_width,
        logic,
    )
}

/// Where every line fits the terminal, nothing is wrapped: the cursor stands as
/// many rows below the first as it stood before.
pub proof fn lemma_nothing_wraps(
    width: spec_fn(int) -> int,
    height: int,
    cursor_x: int,
    cursor_y: int,
    new_width: int,
    logic: ResizeLogic,
)
    requires
        0 <= cursor_x < new_width,
        0 <= cursor_y,
        forall|y: int| 0 <= #[trigger] width(y) <= new_width,
        !(logic is DontMoveCursor),
    ensures
        rows_up(width, height, cursor_x, cursor_y, new_width, logic) == cursor_y,
{
    lemma_fitting_rows_above(width, cursor_y, new_width);
    lemma_no_extra_rows(width, cursor_y + 1, height, new_width);
    assert(cursor_x / new_width == 0) by (nonlinear_arith)
        requires
            0 <= cursor_x < new_width,
    ;
}

proof fn lemma_fitting_rows_above(width: spec_fn(int) -> int, n: int, new_width: int)
    requires
        0 <= n,
        0 < new_width,
        forall|y: int| 0 <= #[trigger] width(y) <= new_width,
    ensures
        rows_above(width, n, new_width) == n,
    decreases n,
{
    if n > 0 {
        lemma_fitting_rows_above(width, n - 1, new_width);
        let w = width(n - 1);
        if w > 0 {
            assert((w + new_width - 1) / new_width == 1) by (nonlinear_arith)
                requires
                    0 < w <= new_width,
            ;
        }
    }
}

proof fn lemma_no_extra_rows(width: spec_fn(int) -> int, from: int, to: int, new_width: int)
    requires
        forall|y: int| 0 <= #[trigger] width(y) <= new_width,
    ensures
        extra_rows(width, from, to, new_width) == 0,
    decreases to - from,
{
    if from < to {
        lemma_no_extra_rows(width, from, to - 1, new_width);
        assert(width(to - 1) <= new_width);
    }
}

/// Wrapping moves the cursor down, never up.
pub proof fn lemma_wrapping_moves_down(
    width: spec_fn(int) -> int,
    height: int,
    cursor_x: int,
    cursor_y: int,
    new_width: int,
    logic: ResizeLogic,
)
    requires
        0 < new_width,
        0 <= cursor_x,
        0 <= cursor_y,
        forall|y: int| 0 <= #[trigger] width(y),
        !(logic is DontMoveCursor),
    ensures
        rows_up(width, height, cursor_x, cursor_y, new_width, logic) >= cursor_y,
{
    lemma_rows_above_at_least(width, cursor_y, new_width);
    lemma_extra_rows_at_least(width, cursor_y + 1, height, new_width);
    assert(cursor_x / new_width >= 0) by (nonlinear_arith)
        requires
            0 <= cursor_x,
            0 < new_width,
    ;
}

proof fn lemma_rows_of_at_least(width: int, new_width: int)
    requires
        0 <= width,
        0 < new_width,
    ensures
        rows_of(width, new_width) >= 1,
{
    if width > 0 {
        assert((width + new_width - 1) / new_width >= 1) by (nonlinear_arith)
            requires
                0 < width,
                0 < new_width,
        ;
    }
}

proof fn lemma_rows_above_at_least(width: spec_fn(int) -> int, n: int, new_width: int)
    requires
        0 <= n,
        0 < new_width,
        forall|y: int| 0 <= #[trigger] width(y),
    ensures
        rows_above(width, n, new_width) >= n,
    decreases n,
{
    if n > 0 {
        lemma_rows_above_at_least(width, n - 1, new_width);
        lemma_rows_of_at_least(width(n - 1), new_width);
    }
}

proof fn lemma_extra_rows_at_least(width: spec_fn(int) -> int, from: int, to: int, new_width: int)
    requires
        0 < new_width,
        forall|y: int| 0 <= #[trigger] width(y),
    ensures
        extra_rows(width, from, to, new_width) >= 0,
    decreases to - from,
{
    if from < to {
        lemma_extra_rows_at_least(width, from, to - 1, new_width);
        lemma_rows_of_at_least(width(to - 1), new_width);
    }
}

proof fn lemma_rows_of_shrinks(width: int, narrow: int, wide: int)
    requires
        0 <= width,
        0 < narrow <= wide,
    ensures
        rows_of(width, wide) <= rows_of(width, narrow),
{
    if width > 0 {
        let q = (width + narrow - 1) / narrow;
        assert(width <= q * narrow) by (nonlinear_arith)
            requires
                q == (width + narrow - 1) / narrow,
                0 < narrow,
        ;
        assert(q >= 1) by (nonlinear_arith)
            requires
                q == (width + narrow - 1) / narrow,
                0 < width,
                0 < narrow,
        ;
        assert(q * narrow <= q * wide) by (nonlinear_arith)
            requires
                q >= 1,
                narrow <= wide,
        ;
        assert((width + wide - 1) / wide <= q) by (nonlinear_arith)
            requires
                width <= q * wide,
                0 < wide,
        ;
    }
}

proof fn lemma_rows_above_shrink(width: spec_fn(int) -> int, n: int, narrow: int, wide: int)
    requires
        0 < narrow <= wide,
        forall|y: int| 0 <= #[trigger] width(y),
    ensures
        rows_above(width, n, wide) <= rows_above(width, n, narrow),
    decreases n,
{
    if n > 0 {
        lemma_rows_above_shrink(width, n - 1, narrow, wide);
        lemma_rows_of_shrinks(width(n - 1), narrow, wide);
    }
}

proof fn lemma_extra_rows_shrink(
    width: spec_fn(int) -> int,
    from: int,
    to: int,
    narrow: int,
    wide: int,
)
    requires
        0 < narrow <= wide,
        forall|y: int| 0 <= #[trigger] width(y),
    ensures
        extra_rows(width, from, to, wide) <= extra_rows(width, from, to, narrow),
    decreases to - from,
{
    if from < to {
        lemma_extra_rows_shrink(width, from, to - 1, narrow, wide);
        lemma_rows_of_shrinks(width(to - 1), narrow, wide);
        lemma_rows_of_at_least(width(to - 1), narrow);
    }
}

/// A wider terminal never needs more rows.
pub proof fn lemma_wider_needs_no_more_rows(
    width: spec_fn(int) -> int,
    height: int,
    cursor_x: int,
    cursor_y: int,
    narrow: int,
    wide: int,
    logic: ResizeLogic,
)
    requires
        0 < narrow <= wide,
        0 <= cursor_x,
        forall|y: int| 0 <= #[trigger] width(y),
    ensures
        rows_up(width, height, cursor_x, cursor_y, wide, logic) <= rows_up(
            width,
            height,
            cursor_x,
            cursor_y,
            narrow,
            logic,
        ),
{
    lemma_rows_above_shrink(width, cursor_y, narrow, wide);
    lemma_extra_rows_shrink(width, cursor_y + 1, height, narrow, wide);
    assert(cursor_x / wide <= cursor_x / narrow) by (nonlinear_arith)
        requires
            0 <= cursor_x,
            0 < narrow <= wide,
    ;
}

proof fn lemma_trimmed_is_filled(s: Seq<char>)
    requires
        trim(s).len() > 0,
    ensures
        s.len() > 0,
{
}

proof fn lemma_last_filled(buffer: ScreenBuffer, y: int, trim_whitespace: bool, n: int)
    ensures
        match buffer.last_filled(y, trim_whitespace, n) {
            Some(x) => 0 <= x < n && buffer.is_filled(x, y, trim_whitespace) && forall|k: int|
                x < k < n ==> !#[trigger] buffer.is_filled(k, y, trim_whitespace),
            None => forall|k: int|
                0 <= k < n ==> !#[trigger] buffer.is_filled(k, y, trim_whitespace),
        },
    decreases n,
{
    if n > 0 && !buffer.is_filled(n - 1, y, trim_whitespace) {
        lemma_last_filled(buffer, y, trim_whitespace, n - 1);
    }
}

/// Without the white space at its end, a row takes no more columns than with it,
/// where no text takes more than two columns.
pub proof fn lemma_trimming_takes_no_more_columns(buffer: ScreenBuffer, y: int)
    requires
        forall|x: int|
            #[trigger] buffer.is_filled(x, y, true) ==> display_width(buffer.at(x, y)->0@) <= 2,
    ensures
        buffer.line_width(y, true) <= buffer.line_width(y, false),
{
    let n = buffer.width as int;
    lemma_last_filled(buffer, y, true, n);
    lemma_last_filled(buffer, y, false, n);
    if let Some(x) = buffer.last_filled(y, true, n) {
        assert(buffer.is_filled(x, y, true));
        lemma_trimmed_is_filled(buffer.at(x, y)->0@);
        assert(buffer.is_filled(x, y, false));
    }
}

fn count_rows(width: u16, new_width: u16) -> (r: u64)
    requires
        new_width > 0,
    ensures
        r == rows_of(width as int, new_width as int),
        1 <= r <= 65535,
{
    if width == 0 {
        return 1;
    }
    let sum: u32 = width as u32 + new_width as u32 - 1;
    let r: u32 = sum / new_width as u32;
    assert(1 <= sum / new_width as u32 <= 65535) by (nonlinear_arith)
        requires
            sum == width + new_width - 1,
            1 <= width <= 65535,
            1 <= new_width,
    ;
    assert((width + new_width - 1) / (new_width as int) == r) by (nonlinear_arith)
        requires
            sum == width + new_width - 1,
            r == sum / new_width as u32,
            1 <= width,
            1 <= new_width,
    ;
    r as u64
}

/// Counts the rows for lines whose widths are known: those in `above` stand above
/// the cursor, those in `below` below it.
pub fn count_rows_up(
    above: &Vec<u16>,
    below: &Vec<u16>,
    cursor_x: u16,
    new_width: u16,
    logic: ResizeLogic,
) -> (r: u64)
    requires
        above@.len() <= 65535,
        below@.len() <= 65535,
    ensures
        r == rows_up(
            |y: int|
                if y < above@.len() {
                    above@[y] as int
                } else {
                    below@[y - above@.len() - 1] as int
                },
            (above@.len() + 1 + below@.len()) as int,
            cursor_x as int,
            above@.len() as int,
            new_width as int,
            logic,
        ),
{
    let ghost width = |y: int|
        if y < above@.len() {
            above@[y] as int
        } else {
            below@[y - above@.len() - 1] as int
        };
    if new_width == 0 {
        return 0;
    }
    match logic {
        ResizeLogic::DontMoveCursor => {
            return 0;
        },
        ResizeLogic::AutoCleared => {
            return above.len() as u64;
        },
        _ => {},
    }
    let mut total: u64 = 0;
    let mut y: usize = 0;
    while y < above.len()
        invariant
            y <= above@.len() <= 65535,
            new_width > 0,
            width == (|y: int|
                if y < above@.len() {
                    above@[y] as int
                } else {
                    below@[y - above@.len() - 1] as int
                }),
            total == rows_above(width, y as int, new_width as int),
            total <= 65535 * y,
        decreases above@.len() - y,
    {
        total = total + count_rows(above[y], new_width);
        y = y + 1;
    }
    match logic {
        ResizeLogic::ReflowedApartFromCursor => {
            let ghost base = total;
            let mut i: usize = 0;
            let mut extra: u64 = 0;
            while i < below.len()
                invariant
                    i <= below@.len() <= 65535,
                    above@.len() <= 65535,
                    new_width > 0,
                    width == (|y: int|
                        if y < above@.len() {
                            above@[y] as int
                        } else {
                            below@[y - above@.len() - 1] as int
                        }),
                    extra == extra_rows(
                        width,
                        above@.len() as int + 1,
                        above@.len() as int + 1 + i,
                        new_width as int,
                    ),
                    extra <= 65535 * i,
                decreases below@.len() - i,
            {
                assert(width(above@.len() + 1 + i) == below@[i as int]);
                if below[i] > new_width {
                    extra = extra + (count_rows(below[i], new_width) - 1);
                }
                i = i + 1;
            }
            total + extra
        },
        ResizeLogic::ReflowedAll | ResizeLogic::ReflowedAllWhitespaceTrimmed => total + (cursor_x
            / new_width) as u64,
        _ => total,
    }
}

proof fn lemma_rows_above_same(f: spec_fn(int) -> int, g: spec_fn(int) -> int, n: int, w: int)
    requires
        forall|y: int| 0 <= y < n ==> #[trigger] f(y) == #[trigger] g(y),
    ensures
        rows_above(f, n, w) == rows_above(g, n, w),
    decreases n,
{
    if n > 0 {
        lemma_rows_above_same(f, g, n - 1, w);
    }
}

proof fn lemma_extra_rows_same(
    f: spec_fn(int) -> int,
    g: spec_fn(int) -> int,
    from: int,
    to: int,
    w: int,
)
    requires
        forall|y: int| from <= y < to ==> #[trigger] f(y) == #[trigger] g(y),
    ensures
        extra_rows(f, from, to, w) == extra_rows(g, from, to, w),
    decreases to - from,
{
    if from < to {
        lemma_extra_rows_same(f, g, from, to - 1, w);
    }
}

/// Where the last text of a row is printable ASCII, it takes a column for each
/// character, in every row but that of the cursor.
pub open spec fn ascii_rows_take_their_length(
    buffer: ScreenBuffer,
    cursor_y: int,
    trim_whitespace: bool,
) -> bool {
    forall|y: int|
        0 <= y < cursor_y || cursor_y < y < buffer.height
            ==> #[trigger] buffer.ascii_takes_its_length(y, trim_whitespace)
}

fn total_rows_up(
    buffer: &ScreenBuffer,
    cursor_x: u16,
    cursor_y: u16,
    new_width: u16,
    logic: ResizeLogic,
) -> (r: u64)
    ensures
        r == buffer_rows_up(
            *buffer,
            cursor_x as int,
            cursor_y as int,
            new_width as int,
            logic,
        ),
        ascii_rows_take_their_length(
            *buffer,
            cursor_y as int,
            logic is ReflowedAllWhitespaceTrimmed,
        ),
{
    let trim_whitespace = match logic {
        ResizeLogic::ReflowedAllWhitespaceTrimmed => true,
        _ => false,
    };
    let ghost width = |y: int| buffer.line_width(y, trim_whitespace);
    let mut above: Vec<u16> = Vec::new();
    let mut y: u16 = 0;
    while y < cursor_y
        invariant
            y <= cursor_y,
            above@.len() == y,
            forall|k: int|
                0 <= k < y ==> #[trigger] above@[k] == buffer.line_width(k, trim_whitespace),
            forall|k: int|
                0 <= k < y ==> #[trigger] buffer.ascii_takes_its_length(k, trim_whitespace),
        decreases cursor_y - y,
    {
        above.push(App::compute_line_width_from_buffer_opts(buffer, y, trim_whitespace));
        y = y + 1;
    }
    let mut below: Vec<u16> = Vec::new();
    let mut z: u32 = cursor_y as u32 + 1;
    let height: u32 = buffer.height as u32;
    while z < height
        invariant
            height == buffer.height,
            below@.len() == z - cursor_y - 1,
            z <= height || z == cursor_y + 1,
            forall|k: int|
                0 <= k < below@.len() ==> #[trigger] below@[k] == buffer.line_width(
                    cursor_y + 1 + k,
                    trim_whitespace,
                ),
            forall|k: int|
                cursor_y < k < z ==> #[trigger] buffer.ascii_takes_its_length(k, trim_whitespace),
        decreases height - z,
    {
        below.push(App::compute_line_width_from_buffer_opts(buffer, z as u16, trim_whitespace));
        z = z + 1;
    }
    proof {
        let known = |y: int|
            if y < above@.len() {
                above@[y] as int
            } else {
                below@[y - above@.len() - 1] as int
            };
        assert forall|y: int| 0 <= y < cursor_y implies #[trigger] known(
            y,
        ) == #[trigger] width(y) by {
            assert(above@[y] == buffer.line_width(y, trim_whitespace));
        }
        lemma_rows_above_same(known, width, cursor_y as int, new_width as int);
        assert forall|y: int| cursor_y + 1 <= y < buffer.height implies #[trigger] known(
            y,
        ) == #[trigger] width(y) by {
            assert(below@[y - cursor_y - 1] == buffer.line_width(
                cursor_y + 1 + (y - cursor_y - 1),
                trim_whitespace,
            ));
        }
        lemma_extra_rows_same(
            known,
            width,
            cursor_y + 1,
            buffer.height as int,
            new_width as int,
        );
        if buffer.height <= cursor_y + 1 {
            assert(extra_rows(
                known,
                cursor_y + 1,
                above@.len() as int + 1 + below@.len(),
                new_width as int,
            ) == 0);
        }
    }
    count_rows_up(&above, &below, cursor_x, new_width, logic)
}

impl App {
    /// The columns that row `y` of `buffer` takes, up to its last cell that holds a
    /// text.
    pub fn compute_line_width_from_buffer(buffer: &ScreenBuffer, y: u16) -> (r: u16)
        ensures
            r == buffer.line_width(y as int, false),
            buffer.ascii_takes_its_length(y as int, false),
    {
        App::compute_line_width_from_buffer_opts(buffer, y, false)
    }

    /// The columns that row `y` of `buffer` takes, with the white space at its end
    /// or without.
    pub fn compute_line_width_from_buffer_opts(
        buffer: &ScreenBuffer,
        y: u16,
        trim_whitespace: bool,
    ) -> (r: u16)
        ensures
            r == buffer.line_width(y as int, trim_whitespace),
            r <= buffer.width,
            buffer.ascii_takes_its_length(y as int, trim_whitespace),
    {
        match buffer.last_filled_cell(y, trim_whitespace) {
            Some((x, s)) => end_of_line(x, width_of(s.as_str()), buffer.width),
            None => 0,
        }
    }

    /// The rows from the cursor up to the first row that was drawn, once the
    /// terminal has `new_width` columns.
    pub fn compute_wrapped_rows_up_from_buffer(
        buffer: &ScreenBuffer,
        inline_cursor_x: u16,
        inline_cursor_y: u16,
        new_width: u16,
        resize_logic: ResizeLogic,
    ) -> (r: u16)
        requires
            buffer_rows_up(
                *buffer,
                inline_cursor_x as int,
                inline_cursor_y as int,
                new_width as int,
                resize_logic,
            ) <= u16::MAX,
        ensures
            r == buffer_rows_up(
                *buffer,
                inline_cursor_x as int,
                inline_cursor_y as int,
                new_width as int,
                resize_logic,
            ),
            ascii_rows_take_their_length(
                *buffer,
                inline_cursor_y as int,
                resize_logic is ReflowedAllWhitespaceTrimmed,
            ),
    {
        total_rows_up(buffer, inline_cursor_x, inline_cursor_y, new_width, resize_logic) as u16
    }

    /// The rows from the cursor up to the first row that was drawn; `None` where
    /// they are more than a terminal can have.
    pub fn compute_wrapped_rows_up(
        buffer: &ScreenBuffer,
        inline_cursor_x: u16,
        inline_cursor_y: u16,
        new_width: u16,
        resize_logic: ResizeLogic,
    ) -> (r: Option<u16>)
        ensures
            ({
                let rows = buffer_rows_up(
                    *buffer,
                    inline_cursor_x as int,
                    inline_cursor_y as int,
                    new_width as int,
                    resize_logic,
                );
                r == (if rows <= u16::MAX {
                    Some(rows as u16)
                } else {
                    None
                })
            }),
            ascii_rows_take_their_length(
                *buffer,
                inline_cursor_y as int,
                resize_logic is ReflowedAllWhitespaceTrimmed,
            ),
    {
        let total: u64 = total_rows_up(
            buffer,
            inline_cursor_x,
            inline_cursor_y,
            new_width,
            resize_logic,
        );
        if total <= 65535 {
            Some(
                App::compute_wrapped_rows_up_from_buffer(
                    buffer,
                    inline_cursor_x,
                    inline_cursor_y,
                    new_width,
                    resize_logic,
                ),
            )
        } else {
            None
        }
    }
}

/// `rows` rows of `new_width` columns hold a line of `width`, and fewer would not; even
/// an empty line takes one.
pub open spec fn just_hold(rows: int, width: int, new_width: int) -> bool {
    &&& rows >= 1
    &&& width <= rows * new_width
    &&& rows == 1 || (rows - 1) * new_width < width
}

/// A line takes the fewest rows that hold it.
pub proof fn lemma_rows_just_hold_a_line(width: int, new_width: int, rows: int)
    requires
        0 <= width,
        0 < new_width,
    ensures
        rows == rows_of(width, new_width) <==> just_hold(rows, width, new_width),
{
    let q = rows_of(width, new_width);
    if width > 0 {
        assert(q >= 1 && width <= q * new_width && (q - 1) * new_width < width) by (nonlinear_arith)
            requires
                q == (width + new_width - 1) / new_width,
                0 < width,
                0 < new_width,
        ;
        if just_hold(rows, width, new_width) {
            if rows < q {
                assert(rows * new_width <= (q - 1) * new_width) by (nonlinear_arith)
                    requires
                        rows <= q - 1,
                        0 < new_width,
                ;
            } else if q < rows {
                assert(q * new_width <= (rows - 1) * new_width) by (nonlinear_arith)
                    requires
                        q <= rows - 1,
                        0 < new_width,
                ;
            }
        }
    } else {
        assert(just_hold(1, width, new_width));
        if just_hold(rows, width, new_width) && rows > 1 {
            assert((rows - 1) * new_width >= 0) by (nonlinear_arith)
                requires
                    rows > 1,
                    0 < new_width,
            ;
        }
    }
}

/// Whether all lines are wrapped anew, that of the cursor too.
pub open spec fn wraps_cursor_line(logic: ResizeLogic) -> bool {
    logic is ReflowedAll || logic is ReflowedAllWhitespaceTrimmed
}

/// Where the line of the cursor is wrapped too, each whole width before the cursor puts
/// it one row further down, and a part of one does not.
pub proof fn lemma_cursor_line_wraps(
    buffer: ScreenBuffer,
    cursor_x: int,
    cursor_y: int,
    new_width: int,
    logic: ResizeLogic,
)
    requires
        0 < new_width,
        0 <= cursor_x,
        wraps_cursor_line(logic),
    ensures
        buffer_rows_up(buffer, cursor_x + new_width, cursor_y, new_width, logic) == buffer_rows_up(
            buffer,
            cursor_x,
            cursor_y,
            new_width,
            logic,
        ) + 1,
        cursor_x < new_width ==> buffer_rows_up(buffer, cursor_x, cursor_y, new_width, logic)
            == buffer_rows_up(buffer, 0, cursor_y, new_width, logic),
{
    assert((cursor_x + new_width) / new_width == cursor_x / new_width + 1) by (nonlinear_arith)
        requires
            0 < new_width,
            0 <= cursor_x,
    ;
    assert(0int / new_width == 0) by (nonlinear_arith)
        requires
            0 < new_width,
    ;
    if cursor_x < new_width {
        assert(cursor_x / new_width == 0) by (nonlinear_arith)
            requires
                0 <= cursor_x < new_width,
        ;
    }
}

/// Where the line of the cursor is not wrapped, its column makes no difference.
pub proof fn lemma_cursor_column_makes_no_difference(
    buffer: ScreenBuffer,
    cursor_x: int,
    other_x: int,
    cursor_y: int,
    new_width: int,
    logic: ResizeLogic,
)
    requires
        !wraps_cursor_line(logic),
    ensures
        buffer_rows_up(buffer, cursor_x, cursor_y, new_width, logic) == buffer_rows_up(
            buffer,
            other_x,
            cursor_y,
            new_width,
            logic,
        ),
{
}

/// A cursor in the first row that was drawn, and in a column that the terminal still has,
/// has no rows above it, unless the lines below it push it down. The lines below it do so
/// only where all lines but that of the cursor are wrapped anew.
pub proof fn lemma_first_row_is_the_top(
    buffer: ScreenBuffer,
    cursor_x: int,
    new_width: int,
    logic: ResizeLogic,
)
    requires
        0 <= cursor_x < new_width,
        logic is ReflowedApartFromCursor ==> buffer.height <= 1,
    ensures
        buffer_rows_up(buffer, cursor_x, 0, new_width, logic) == 0,
{
    assert(cursor_x / new_width == 0) by (nonlinear_arith)
        requires
            0 <= cursor_x < new_width,
    ;
}

/// A cursor one line further down has the rows of the line between more above it: the
/// fewest that hold what the line shows, without the white space at its end where the
/// terminal leaves that out.
pub proof fn lemma_line_above_takes_its_rows(
    buffer: ScreenBuffer,
    cursor_x: int,
    cursor_y: int,
    new_width: int,
    logic: ResizeLogic,
    rows: int,
)
    requires
        0 < new_width,
        0 <= cursor_y,
        logic is Default || wraps_cursor_line(logic),
        just_hold(
            rows,
            buffer.line_width(cursor_y, logic is ReflowedAllWhitespaceTrimmed),
            new_width,
        ),
    ensures
        buffer_rows_up(buffer, cursor_x, cursor_y + 1, new_width, logic) == buffer_rows_up(
            buffer,
            cursor_x,
            cursor_y,
            new_width,
            logic,
        ) + rows,
{
    let w = buffer.line_width(cursor_y, logic is ReflowedAllWhitespaceTrimmed);
    lemma_line_ends_behind_what_it_shows(
        buffer,
        cursor_y,
        logic is ReflowedAllWhitespaceTrimmed,
    );
    lemma_rows_just_hold_a_line(w, new_width, rows);
}

/// Where all lines but that of the cursor are wrapped anew, the lines above count as they
/// do otherwise, and each line below pushes the cursor down by the rows that it takes more
/// than one.
pub proof fn lemma_lines_below_push_down(
    width: spec_fn(int) -> int,
    height: int,
    cursor_x: int,
    cursor_y: int,
    new_width: int,
    rows: int,
)
    requires
        0 < new_width,
        cursor_y < height,
        0 <= width(height),
        just_hold(rows, width(height), new_width),
    ensures
        rows_up(
            width,
            cursor_y + 1,
            cursor_x,
            cursor_y,
            new_width,
            ResizeLogic::ReflowedApartFromCursor,
        ) == rows_up(width, cursor_y + 1, cursor_x, cursor_y, new_width, ResizeLogic::Default),
        rows_up(
            width,
            height + 1,
            cursor_x,
            cursor_y,
            new_width,
            ResizeLogic::ReflowedApartFromCursor,
        ) == rows_up(
            width,
            height,
            cursor_x,
            cursor_y,
            new_width,
            ResizeLogic::ReflowedApartFromCursor,
        ) + rows - 1,
{
    let w = width(height);
    lemma_rows_just_hold_a_line(w, new_width, rows);
    if w <= new_width {
        assert(just_hold(1, w, new_width));
        lemma_rows_just_hold_a_line(w, new_width, 1);
    }
}

/// A buffer's rows are counted with the columns that each of its lines takes.
pub proof fn lemma_buffer_rows_are_those_of_its_lines(
    buffer: ScreenBuffer,
    width: spec_fn(int) -> int,
    cursor_x: int,
    cursor_y: int,
    new_width: int,
    logic: ResizeLogic,
)
    requires
        forall|y: int| #[trigger]
            width(y) == buffer.line_width(y, logic is ReflowedAllWhitespaceTrimmed),
    ensures
        buffer_rows_up(buffer, cursor_x, cursor_y, new_width, logic) == rows_up(
            width,
            buffer.height as int,
            cursor_x,
            cursor_y,
            new_width,
            logic,
        ),
{
    assert(width =~= |y: int| buffer.line_width(y, logic is ReflowedAllWhitespaceTrimmed));
}

/// A terminal that clears its lines leaves the cursor in its row; one that leaves the
/// cursor alone needs no rows, nor does one without columns.
pub proof fn lemma_cursor_stays(
    buffer: ScreenBuffer,
    cursor_x: int,
    cursor_y: int,
    new_width: int,
    logic: ResizeLogic,
)
    ensures
        logic is DontMoveCursor || new_width == 0 ==> buffer_rows_up(
            buffer,
            cursor_x,
            cursor_y,
            new_width,
            logic,
        ) == 0,
        logic is AutoCleared && new_width != 0 ==> buffer_rows_up(
            buffer,
            cursor_x,
            cursor_y,
            new_width,
            logic,
        ) == cursor_y,
{
}

/// Whether the cell at column `x` and row `y` holds a character, or, where white space
/// does not count, one that is not white space.
pub open spec fn shows(buffer: ScreenBuffer, x: int, y: int, trim_whitespace: bool) -> bool {
    &&& buffer.has_cell(x, y)
    &&& buffer.at(x, y) matches Some(s) && if trim_whitespace {
        crate::text::has_solid(s@)
    } else {
        s@.len() > 0
    }
}

/// A row takes the columns up to the end of the last text that it shows, and none where
/// it shows nothing: no column behind them shows anything, and none is outside of the
/// buffer.
pub proof fn lemma_line_ends_behind_what_it_shows(
    buffer: ScreenBuffer,
    y: int,
    trim_whitespace: bool,
) -> (last: Option<int>)
    ensures
        ({
            let w = buffer.line_width(y, trim_whitespace);
            &&& 0 <= w <= buffer.width
            &&& forall|x: int|
                w <= x < buffer.width ==> !#[trigger] shows(buffer, x, y, trim_whitespace)
            &&& match last {
                None => w == 0,
                Some(x) => {
                    &&& 0 <= x < w
                    &&& shows(buffer, x, y, trim_whitespace)
                    &&& forall|k: int|
                        x < k < buffer.width ==> !#[trigger] shows(buffer, k, y, trim_whitespace)
                    &&& display_width(buffer.at(x, y)->0@) <= 1 ==> w == x + 1
                    &&& 1 <= display_width(buffer.at(x, y)->0@) <= 65535 ==> w == (if x
                        + display_width(buffer.at(x, y)->0@) <= buffer.width {
                        x + display_width(buffer.at(x, y)->0@)
                    } else {
                        buffer.width as int
                    })
                },
            }
        }),
{
    let n = buffer.width as int;
    lemma_last_filled(buffer, y, trim_whitespace, n);
    assert forall|x: int| #[trigger]
        shows(buffer, x, y, trim_whitespace) == buffer.is_filled(x, y, trim_whitespace) by {
        if buffer.has_cell(x, y) && buffer.at(x, y) is Some {
            let r = crate::text::lemma_trim_cuts(buffer.at(x, y)->0@);
        }
    }
    let last = buffer.last_filled(y, trim_whitespace, n);
    if let Some(x) = last {
        assert(buffer.is_filled(x, y, trim_whitespace));
        assert(shows(buffer, x, y, trim_whitespace));
    }
    assert forall|k: int|
        (match last {
            Some(x) => x < k < n,
            None => 0 <= k < n,
        }) implies !#[trigger] shows(buffer, k, y, trim_whitespace) by {
        assert(!buffer.is_filled(k, y, trim_whitespace));
    }
    last
}

/// The cells stand row by row, each row from left to right, with the first of them in
/// the buffer's corner.
pub proof fn lemma_cells_stand_row_by_row(buffer: ScreenBuffer, k: int)
    requires
        0 <= k < buffer.cells@.len(),
        k < buffer.width * buffer.height,
    ensures
        ({
            let x = buffer.x + k % (buffer.width as int);
            let y = buffer.y + k / (buffer.width as int);
            buffer.has_cell(x, y) && buffer.at(x, y) == buffer.cells@[k]
        }),
{
    let w = buffer.width as int;
    let h = buffer.height as int;
    assert(w > 0) by (nonlinear_arith)
        requires
            0 <= k < w * h,
            w >= 0,
            h >= 0,
    ;
    vstd::arithmetic::div_mod::lemma_fundamental_div_mod(k, w);
    assert((k / w) * w + k % w == k) by (nonlinear_arith)
        requires
            k == w * (k / w) + k % w,
    ;
    assert(0 <= k % w < w && 0 <= k / w < h) by (nonlinear_arith)
        requires
            0 <= k < w * h,
            w > 0,
    ;
}

} // verus!
