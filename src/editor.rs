use vstd::prelude::*;

use vstd::math::min;

use crate::cursor::Cursor;
use crate::layout::{Screen, layout, layout_of, lemma_lay_lines_widths, widths_fit};
use crate::width::{cell_width, cells};
use crate::text::{lemma_load_lines_valid, lines_valid, load_lines, parse_lines, text_of, text_of_lines};

verus! {

/// What an editor session holds, as mathematical values.
pub struct EditorModel {
    pub lines: Seq<Seq<char>>,
    pub cursor: Cursor,
    pub row_offset: usize,
}

impl EditorModel {
    /// The cursor stands on a line of the buffer, at most one past its end.
    pub open spec fn valid(self) -> bool {
        &&& lines_valid(self.lines)
        &&& self.cursor.row < self.lines.len()
        &&& self.cursor.column <= self.lines[self.cursor.row as int].len()
    }

    /// The length of the line under the cursor.
    pub open spec fn row_len(self, row: int) -> int {
        self.lines[row].len() as int
    }
}

/// The top visible row after bringing `row` into a window of `rows` rows
/// whose top was `offset`: scroll up at once when the row is above the
/// window, else down by the least amount that keeps it inside.
pub open spec fn scrolled(offset: int, row: int, rows: int) -> int {
    let o = if offset <= row { offset } else { row };
    if row + 1 >= rows {
        if o >= row + 1 - rows { o } else { row + 1 - rows }
    } else {
        o
    }
}

/// Bringing the same row into a window of the same size a second time
/// leaves the top row where the first time put it.
pub proof fn lemma_scroll_idempotent(offset: int, row: int, rows: int)
    ensures
        scrolled(scrolled(offset, row, rows), row, rows) == scrolled(offset, row, rows),
{
}

/// The screen widths of the characters of `lines`.
pub open spec fn cell_widths(lines: Seq<Seq<char>>) -> Seq<Seq<usize>> {
    lines.map_values(|l: Seq<char>| l.map_values(|c: char| cells(c)))
}

/// A control character: general category Cc, that is U+0000 to U+001F
/// and U+007F to U+009F.
pub open spec fn is_control_char(c: char) -> bool {
    (c as u32) <= 0x1f || (0x7f <= (c as u32) && (c as u32) <= 0x9f)
}

/// Tells whether `c` is a control character.
pub fn is_control(c: char) -> (r: bool)
    ensures
        r == is_control_char(c),
{
    let u = c as u32;
    u <= 0x1f || (0x7f <= u && u <= 0x9f)
}

/// An editor session: the buffer, the cursor and the top visible row.
pub struct Crab {
    buffer: Vec<Vec<char>>,
    cursor: Cursor,
    row_offset: usize,
}

impl View for Crab {
    type V = EditorModel;

    closed spec fn view(&self) -> EditorModel {
        EditorModel {
            lines: self.buffer@.map_values(|l: Vec<char>| l@),
            cursor: self.cursor,
            row_offset: self.row_offset,
        }
    }
}

impl Default for Crab {
    fn default() -> (r: Self)
        ensures
            r@.lines == seq![Seq::<char>::empty()],
            r@.cursor == (Cursor { row: 0, column: 0 }),
            r@.row_offset == 0,
            r.wf(),
    {
        let r = Crab { buffer: vec![Vec::new()], cursor: Cursor { row: 0, column: 0 }, row_offset: 0 };
        assert(r@.lines =~= seq![Seq::<char>::empty()]);
        r
    }
}

impl Crab {
    /// The session's invariant.
    pub open spec fn wf(&self) -> bool {
        self@.valid()
    }

    /// A session on the buffer read from `text`, with the cursor and the
    /// top row at the start.
    pub fn from_text(text: &Vec<char>) -> (r: Self)
        ensures
            r.wf(),
            r@.lines == load_lines(text@),
            r@.cursor == (Cursor { row: 0, column: 0 }),
            r@.row_offset == 0,
    {
        let buffer = parse_lines(text);
        let r = Crab { buffer, cursor: Cursor { row: 0, column: 0 }, row_offset: 0 };
        proof {
            lemma_load_lines_valid(text@);
            assert(r@.lines =~= load_lines(text@));
        }
        r
    }

    /// The text to write for the buffer: every line followed by a newline.
    pub fn to_text(&self) -> (r: Vec<char>)
        ensures
            r@ == text_of(self@.lines),
    {
        text_of_lines(&self.buffer)
    }

    /// The lines of the buffer.
    pub fn lines(&self) -> (r: &Vec<Vec<char>>)
        ensures
            r@.map_values(|l: Vec<char>| l@) == self@.lines,
    {
        &self.buffer
    }

    /// The cursor.
    pub fn cursor(&self) -> (r: Cursor)
        ensures
            r == self@.cursor,
    {
        self.cursor
    }

    /// The index of the top visible row.
    pub fn row_offset(&self) -> (r: usize)
        ensures
            r == self@.row_offset,
    {
        self.row_offset
    }

    /// Brings the cursor's row into a window of `rows` rows.
    pub fn scroll(&mut self, rows: usize)
        requires
            old(self).wf(),
        ensures
            final(self).wf(),
            final(self)@.lines == old(self)@.lines,
            final(self)@.cursor == old(self)@.cursor,
            final(self)@.row_offset == scrolled(
                old(self)@.row_offset as int,
                old(self)@.cursor.row as int,
                rows as int,
            ),
            rows > 0 ==> final(self)@.row_offset <= final(self)@.cursor.row
                < final(self)@.row_offset + rows,
    {
        let row = self.cursor.row;
        let n = self.buffer.len();
        assert(row < n);
        if row < self.row_offset {
            self.row_offset = row;
        }
        if row + 1 >= rows {
            let low = row + 1 - rows;
            if self.row_offset < low {
                self.row_offset = low;
            }
        }
    }
}

impl Crab {
    /// Moves the cursor one row up, if there is one, keeping its column
    /// within the new line; then brings the cursor's row into view.
    pub fn cursor_up(&mut self, rows: usize)
        requires
            old(self).wf(),
        ensures
            final(self).wf(),
            final(self)@.lines == old(self)@.lines,
            old(self)@.cursor.row > 0 ==> final(self)@.cursor.row == old(self)@.cursor.row - 1
                && final(self)@.cursor.column == min(
                old(self)@.cursor.column as int,
                old(self)@.row_len(old(self)@.cursor.row - 1),
            ),
            old(self)@.cursor.row == 0 ==> final(self)@.cursor == old(self)@.cursor,
            final(self)@.row_offset == scrolled(
                old(self)@.row_offset as int,
                final(self)@.cursor.row as int,
                rows as int,
            ),
            rows > 0 ==> final(self)@.row_offset <= final(self)@.cursor.row
                < final(self)@.row_offset + rows,
    {
        if self.cursor.row > 0 {
            self.cursor.row = self.cursor.row - 1;
            let len = self.buffer[self.cursor.row].len();
            if len < self.cursor.column {
                self.cursor.column = len;
            }
        }
        self.scroll(rows);
    }

    /// Moves the cursor one row down, if there is one, keeping its column
    /// within the new line; then brings the cursor's row into view.
    pub fn cursor_down(&mut self, rows: usize)
        requires
            old(self).wf(),
        ensures
            final(self).wf(),
            final(self)@.lines == old(self)@.lines,
            old(self)@.cursor.row + 1 < old(self)@.lines.len() ==> final(self)@.cursor.row
                == old(self)@.cursor.row + 1 && final(self)@.cursor.column == min(
                old(self)@.cursor.column as int,
                old(self)@.row_len(old(self)@.cursor.row + 1),
            ),
            old(self)@.cursor.row + 1 >= old(self)@.lines.len() ==> final(self)@.cursor
                == old(self)@.cursor,
            final(self)@.row_offset == scrolled(
                old(self)@.row_offset as int,
                final(self)@.cursor.row as int,
                rows as int,
            ),
            rows > 0 ==> final(self)@.row_offset <= final(self)@.cursor.row
                < final(self)@.row_offset + rows,
    {
        let n = self.buffer.len();
        assert(self.cursor.row < n);
        if self.cursor.row + 1 < n {
            self.cursor.row = self.cursor.row + 1;
            let len = self.buffer[self.cursor.row].len();
            if len < self.cursor.column {
                self.cursor.column = len;
            }
        }
        self.scroll(rows);
    }

    /// Moves the cursor one column left, unless it is at the line's start.
    pub fn cursor_left(&mut self)
        requires
            old(self).wf(),
        ensures
            final(self).wf(),
            final(self)@.lines == old(self)@.lines,
            final(self)@.row_offset == old(self)@.row_offset,
            final(self)@.cursor.row == old(self)@.cursor.row,
            final(self)@.cursor.column == if old(self)@.cursor.column >= 1 {
                old(self)@.cursor.column - 1
            } else {
                0
            },
    {
        if self.cursor.column >= 1 {
            self.cursor.column = self.cursor.column - 1;
        }
    }

    /// Moves the cursor one column right, unless it is past the line's end.
    pub fn cursor_right(&mut self)
        requires
            old(self).wf(),
        ensures
            final(self).wf(),
            final(self)@.lines == old(self)@.lines,
            final(self)@.row_offset == old(self)@.row_offset,
            final(self)@.cursor.row == old(self)@.cursor.row,
            final(self)@.cursor.column == min(
                old(self)@.cursor.column + 1,
                old(self)@.row_len(old(self)@.cursor.row as int),
            ),
    {
        let len = self.buffer[self.cursor.row].len();
        if self.cursor.column < len {
            self.cursor.column = self.cursor.column + 1;
        }
    }

    /// Types `c` at the cursor. A newline splits the line at the cursor and
    /// moves the cursor to the start of the new line, then brings it into
    /// view; another control character is ignored; any other character is
    /// inserted before the cursor, which moves past it.
    pub fn insert(&mut self, c: char, rows: usize)
        requires
            old(self).wf(),
        ensures
            final(self).wf(),
            ({
                let m = old(self)@;
                let line = m.lines[m.cursor.row as int];
                let col = m.cursor.column as int;
                if c == '\n' {
                    &&& final(self)@.lines == m.lines.update(m.cursor.row as int, line.take(col))
                        .insert(m.cursor.row + 1, line.skip(col))
                    &&& final(self)@.cursor == (Cursor { row: (m.cursor.row + 1) as usize, column: 0 })
                    &&& final(self)@.row_offset == scrolled(
                        m.row_offset as int,
                        m.cursor.row + 1,
                        rows as int,
                    )
                } else if !is_control_char(c) {
                    &&& final(self)@.lines == m.lines.update(m.cursor.row as int, line.insert(col, c))
                    &&& final(self)@.cursor == (Cursor { row: m.cursor.row, column: (col + 1) as usize })
                    &&& final(self)@.row_offset == m.row_offset
                } else {
                    final(self)@ == m
                }
            }),
            c == '\n' && rows > 0 ==> final(self)@.row_offset <= final(self)@.cursor.row
                < final(self)@.row_offset + rows,
    {
        let ghost m = self@;
        let row = self.cursor.row;
        let col = self.cursor.column;
        let n = self.buffer.len();
        assert(row < n);
        if c == '\n' {
            let mut line: Vec<char> = Vec::new();
            self.buffer.set_and_swap(row, &mut line);
            let rest = line.split_off(col);
            self.buffer.set(row, line);
            self.buffer.insert(row + 1, rest);
            self.cursor.row = row + 1;
            self.cursor.column = 0;
            proof {
                let l = m.lines[row as int];
                assert(self@.lines =~= m.lines.update(row as int, l.take(col as int)).insert(
                    row + 1,
                    l.skip(col as int),
                ));
                assert forall|i: int, j: int|
                    0 <= i < self@.lines.len() && 0 <= j < self@.lines[i].len() implies
                    #[trigger] self@.lines[i][j] != '\n' by {
                    if i < row {
                    } else if i == row {
                        assert(self@.lines[i][j] == m.lines[i][j]);
                    } else if i == row + 1 {
                        assert(self@.lines[i][j] == m.lines[row as int][j + col]);
                    } else {
                        assert(self@.lines[i] == m.lines[i - 1]);
                    }
                }
            }
            self.scroll(rows);
        } else if !is_control(c) {
            let mut line: Vec<char> = Vec::new();
            self.buffer.set_and_swap(row, &mut line);
            line.insert(col, c);
            self.buffer.set(row, line);
            proof {
                let l = m.lines[row as int];
                assert(self@.lines =~= m.lines.update(row as int, l.insert(col as int, c)));
                assert forall|i: int, j: int|
                    0 <= i < self@.lines.len() && 0 <= j < self@.lines[i].len() implies
                    #[trigger] self@.lines[i][j] != '\n' by {
                    if i == row {
                        if j < col {
                            assert(self@.lines[i][j] == l[j]);
                        } else if j > col {
                            assert(self@.lines[i][j] == l[j - 1]);
                        }
                    }
                }
            }
            self.cursor_right();
        }
    }

    /// Deletes the character before the cursor. At the start of a line the
    /// line is joined onto the end of the previous one and the cursor stays
    /// at the join, and its new row is brought into a window of `rows`
    /// rows; at the start of the buffer nothing happens. Deleting within a
    /// line keeps the row, and the top visible row stays where it was.
    pub fn back_space(&mut self, rows: usize)
        requires
            old(self).wf(),
        ensures
            final(self).wf(),
            rows > 0 && (old(self)@.cursor.column == 0 && old(self)@.cursor.row > 0 || old(
                self,
            )@.row_offset <= old(self)@.cursor.row < old(self)@.row_offset + rows)
                ==> final(self)@.row_offset <= final(self)@.cursor.row < final(self)@.row_offset
                + rows,
            ({
                let m = old(self)@;
                let r = m.cursor.row as int;
                let col = m.cursor.column as int;
                if r == 0 && col == 0 {
                    final(self)@ == m
                } else if col == 0 {
                    &&& final(self)@.lines == m.lines.update(r - 1, m.lines[r - 1] + m.lines[r])
                        .remove(r)
                    &&& final(self)@.cursor == (Cursor {
                        row: (r - 1) as usize,
                        column: m.lines[r - 1].len() as usize,
                    })
                    &&& final(self)@.row_offset == scrolled(
                        m.row_offset as int,
                        r - 1,
                        rows as int,
                    )
                } else {
                    &&& final(self)@.lines == m.lines.update(r, m.lines[r].remove(col - 1))
                    &&& final(self)@.cursor == (Cursor { row: r as usize, column: (col - 1) as usize })
                    &&& final(self)@.row_offset == m.row_offset
                }
            }),
    {
        let ghost m = self@;
        let row = self.cursor.row;
        let col = self.cursor.column;
        if row == 0 && col == 0 {
        } else if col == 0 {
            let mut line = self.buffer.remove(row);
            let mut prev: Vec<char> = Vec::new();
            self.buffer.set_and_swap(row - 1, &mut prev);
            let len = prev.len();
            prev.append(&mut line);
            self.buffer.set(row - 1, prev);
            self.cursor = Cursor { row: row - 1, column: len };
            proof {
                let r = row as int;
                assert(self@.lines =~= m.lines.update(r - 1, m.lines[r - 1] + m.lines[r]).remove(r));
                assert forall|i: int, j: int|
                    0 <= i < self@.lines.len() && 0 <= j < self@.lines[i].len() implies
                    #[trigger] self@.lines[i][j] != '\n' by {
                    if i < r - 1 {
                    } else if i == r - 1 {
                        if j < len {
                            assert(self@.lines[i][j] == m.lines[r - 1][j]);
                        } else {
                            assert(self@.lines[i][j] == m.lines[r][j - len]);
                        }
                    } else {
                        assert(self@.lines[i] == m.lines[i + 1]);
                    }
                }
            }
            self.scroll(rows);
        } else {
            self.cursor_left();
            let mut line: Vec<char> = Vec::new();
            self.buffer.set_and_swap(row, &mut line);
            line.remove(col - 1);
            self.buffer.set(row, line);
            proof {
                let l = m.lines[row as int];
                assert(self@.lines =~= m.lines.update(row as int, l.remove(col - 1)));
                assert forall|i: int, j: int|
                    0 <= i < self@.lines.len() && 0 <= j < self@.lines[i].len() implies
                    #[trigger] self@.lines[i][j] != '\n' by {
                    if i == row {
                        if j < col - 1 {
                            assert(self@.lines[i][j] == l[j]);
                        } else {
                            assert(self@.lines[i][j] == l[j + 1]);
                        }
                    }
                }
            }
        }
    }
}

impl Crab {
    /// The screen of `rows` rows and `cols` columns that shows the buffer
    /// from the top visible row on, and where the cursor appears on it.
    pub fn layout(&self, rows: usize, cols: usize) -> (r: Screen)
        requires
            self.wf(),
        ensures
            r.shows(
                layout_of(
                    self@.lines,
                    cell_widths(self@.lines),
                    self@.cursor,
                    self@.row_offset as int,
                    rows as int,
                    cols as int,
                ),
            ),
    {
        let ghost ls = self@.lines;
        let n = self.buffer.len();
        let mut widths: Vec<Vec<usize>> = Vec::new();
        let mut i: usize = 0;
        while i < n
            invariant
                n == self.buffer@.len(),
                ls == self@.lines,
                i <= n,
                widths@.len() == i,
                forall|k: int|
                    0 <= k < i && k >= self.row_offset ==> #[trigger] widths@[k]@ == cell_widths(
                        ls,
                    )[k],
            decreases n - i,
        {
            let mut w: Vec<usize> = Vec::new();
            if i >= self.row_offset {
                let line = &self.buffer[i];
                let mut j: usize = 0;
                while j < line.len()
                    invariant
                        j <= line@.len(),
                        w@.len() == j,
                        forall|t: int| 0 <= t < j ==> #[trigger] w@[t] == cells(line@[t]),
                    decreases line@.len() - j,
                {
                    w.push(cell_width(line[j]));
                    j = j + 1;
                }
                proof {
                    assert(w@ =~= cell_widths(ls)[i as int]);
                }
            }
            widths.push(w);
            i = i + 1;
        }
        let ghost ws = widths@.map_values(|l: Vec<usize>| l@);
        proof {
            assert forall|k: int| self.row_offset <= k < ls.len() implies #[trigger] ws[k].len()
                == ls[k].len() by {
                assert(ws[k] == cell_widths(ls)[k]);
            }
            lemma_lay_lines_widths(
                ls,
                ws,
                cell_widths(ls),
                self.row_offset as int,
                ls.len() as int,
                self.cursor,
                rows as int,
                cols as int,
            );
        }
        layout(&self.buffer, &widths, self.cursor, self.row_offset, rows, cols)
    }
}

} // verus!
