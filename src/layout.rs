use vstd::prelude::*;

use crate::cursor::Cursor;

verus! {

/// Laying out, part way: the screen rows so far (the last one is being
/// filled), the screen row and column reached, where the cursor was met,
/// and whether the screen is full.
pub struct Frame {
    pub screen: Seq<Seq<char>>,
    pub row: int,
    pub col: int,
    pub cursor: Option<(int, int)>,
    pub full: bool,
}

/// Before anything is laid out: one empty row, at its start.
pub open spec fn start_frame() -> Frame {
    Frame { screen: seq![Seq::<char>::empty()], row: 0, col: 0, cursor: None, full: false }
}

/// Notes the screen position as the cursor's when `here` holds.
pub open spec fn mark(f: Frame, here: bool) -> Frame {
    if !f.full && here {
        Frame { cursor: Some((f.row, f.col)), ..f }
    } else {
        f
    }
}

/// Places `c`, `w` columns wide. Where it would reach the last column the
/// row wraps first; where no row is left the screen is full.
pub open spec fn place(f: Frame, c: char, w: int, rows: int, cols: int) -> Frame {
    if f.full {
        f
    } else if f.col + w >= cols {
        if f.row + 1 >= rows {
            Frame { row: f.row + 1, col: 0, full: true, ..f }
        } else {
            Frame { screen: f.screen.push(seq![c]), row: f.row + 1, col: w, ..f }
        }
    } else {
        Frame {
            screen: f.screen.update(f.screen.len() - 1, f.screen.last().push(c)),
            col: f.col + w,
            ..f
        }
    }
}

/// Visits the first `n` positions of buffer line `i`, whose characters
/// are `line` with widths `widths`; position `line.len()` is the one after
/// its last character.
pub open spec fn lay_line(
    f: Frame,
    line: Seq<char>,
    widths: Seq<usize>,
    i: int,
    cur: Cursor,
    rows: int,
    cols: int,
    n: int,
) -> Frame
    decreases n,
{
    if n <= 0 {
        f
    } else {
        let g = mark(
            lay_line(f, line, widths, i, cur, rows, cols, n - 1),
            cur.row == i && cur.column == n - 1,
        );
        if n - 1 < line.len() {
            place(g, line[n - 1], widths[n - 1] as int, rows, cols)
        } else {
            g
        }
    }
}

/// Goes to the next screen row after a buffer line; after the last line
/// of the buffer no new row is opened.
pub open spec fn end_line(f: Frame, last: bool, rows: int) -> Frame {
    if f.full {
        f
    } else if f.row + 1 >= rows {
        Frame { row: f.row + 1, col: 0, full: true, ..f }
    } else if last {
        Frame { row: f.row + 1, col: 0, ..f }
    } else {
        Frame { screen: f.screen.push(Seq::<char>::empty()), row: f.row + 1, col: 0, ..f }
    }
}

/// Lays out buffer lines `from` up to `k` (exclusive).
pub open spec fn lay_lines(
    lines: Seq<Seq<char>>,
    widths: Seq<Seq<usize>>,
    from: int,
    k: int,
    cur: Cursor,
    rows: int,
    cols: int,
) -> Frame
    decreases k - from,
{
    if k <= from {
        start_frame()
    } else {
        let f = lay_lines(lines, widths, from, k - 1, cur, rows, cols);
        let g = lay_line(
            f,
            lines[k - 1],
            widths[k - 1],
            k - 1,
            cur,
            rows,
            cols,
            lines[k - 1].len() as int + 1,
        );
        end_line(g, k == lines.len(), rows)
    }
}

/// The screen of `rows` rows and `cols` columns that shows `lines` from
/// row `offset` on, with the character widths `widths`, and where the
/// cursor `cur` appears on it.
pub open spec fn layout_of(
    lines: Seq<Seq<char>>,
    widths: Seq<Seq<usize>>,
    cur: Cursor,
    offset: int,
    rows: int,
    cols: int,
) -> Frame {
    lay_lines(lines, widths, offset, lines.len() as int, cur, rows, cols)
}

/// A laid out screen: its rows, and the cursor's screen row and column
/// where it is shown.
pub struct Screen {
    pub rows: Vec<Vec<char>>,
    pub cursor: Option<(usize, usize)>,
}

/// The screen position `p` as integers.
pub open spec fn pos_view(p: Option<(usize, usize)>) -> Option<(int, int)> {
    match p {
        Some((r, c)) => Some((r as int, c as int)),
        None => None,
    }
}

impl Screen {
    /// This screen is the one of frame `f`.
    pub open spec fn shows(&self, f: Frame) -> bool {
        &&& self.rows@.map_values(|l: Vec<char>| l@) == f.screen
        &&& pos_view(self.cursor) == f.cursor
    }
}

/// The widths of the buffer lines from `offset` on fit their lines.
pub open spec fn widths_fit(lines: Seq<Seq<char>>, widths: Seq<Seq<usize>>, offset: int) -> bool {
    &&& widths.len() == lines.len()
    &&& forall|i: int| offset <= i < lines.len() ==> #[trigger] widths[i].len() == lines[i].len()
}

/// Laying out lines `from` up to `k` reads the widths of those lines only.
pub proof fn lemma_lay_lines_widths(
    lines: Seq<Seq<char>>,
    w1: Seq<Seq<usize>>,
    w2: Seq<Seq<usize>>,
    from: int,
    k: int,
    cur: Cursor,
    rows: int,
    cols: int,
)
    requires
        forall|i: int| from <= i < k ==> #[trigger] w1[i] == w2[i],
    ensures
        lay_lines(lines, w1, from, k, cur, rows, cols) == lay_lines(lines, w2, from, k, cur, rows, cols),
    decreases k - from,
{
    if k > from {
        lemma_lay_lines_widths(lines, w1, w2, from, k - 1, cur, rows, cols);
        assert(w1[k - 1] == w2[k - 1]);
    }
}

proof fn lemma_lay_line_full(
    f: Frame,
    line: Seq<char>,
    widths: Seq<usize>,
    i: int,
    cur: Cursor,
    rows: int,
    cols: int,
    n: int,
)
    requires
        f.full,
    ensures
        lay_line(f, line, widths, i, cur, rows, cols, n) == f,
    decreases n,
{
    if n > 0 {
        lemma_lay_line_full(f, line, widths, i, cur, rows, cols, n - 1);
    }
}

proof fn lemma_lay_lines_full(
    lines: Seq<Seq<char>>,
    widths: Seq<Seq<usize>>,
    from: int,
    i: int,
    k: int,
    cur: Cursor,
    rows: int,
    cols: int,
)
    requires
        from < i <= k,
        lay_lines(lines, widths, from, i, cur, rows, cols).full,
    ensures
        lay_lines(lines, widths, from, k, cur, rows, cols) == lay_lines(
            lines,
            widths,
            from,
            i,
            cur,
            rows,
            cols,
        ),
    decreases k - i,
{
    if k > i {
        lemma_lay_lines_full(lines, widths, from, i, k - 1, cur, rows, cols);
        let f = lay_lines(lines, widths, from, k - 1, cur, rows, cols);
        lemma_lay_line_full(f, lines[k - 1], widths[k - 1], k - 1, cur, rows, cols, lines[k - 1].len() as int + 1);
    }
}

/// Lays out `lines` from row `offset` on a screen of `rows` rows and `cols`
/// columns, the character at column `j` of line `i` taking `widths[i][j]`
/// columns, and finds the cursor `cur` on it.
pub fn layout(
    lines: &Vec<Vec<char>>,
    widths: &Vec<Vec<usize>>,
    cur: Cursor,
    offset: usize,
    rows: usize,
    cols: usize,
) -> (r: Screen)
    requires
        widths_fit(
            lines@.map_values(|l: Vec<char>| l@),
            widths@.map_values(|l: Vec<usize>| l@),
            offset as int,
        ),
    ensures
        r.shows(
            layout_of(
                lines@.map_values(|l: Vec<char>| l@),
                widths@.map_values(|l: Vec<usize>| l@),
                cur,
                offset as int,
                rows as int,
                cols as int,
            ),
        ),
{
    let ghost ls = lines@.map_values(|l: Vec<char>| l@);
    let ghost ws = widths@.map_values(|l: Vec<usize>| l@);
    let n = lines.len();
    let mut done: Vec<Vec<char>> = Vec::new();
    let mut current: Vec<char> = Vec::new();
    let mut row: usize = 0;
    let mut col: usize = 0;
    let mut at: Option<(usize, usize)> = None;
    let mut full = false;
    let mut i = offset;
    proof {
        assert(done@.map_values(|l: Vec<char>| l@).push(current@) =~= start_frame().screen);
    }
    while i < n && !full
        invariant
            n == lines@.len(),
            ls == lines@.map_values(|l: Vec<char>| l@),
            ws == widths@.map_values(|l: Vec<usize>| l@),
            widths_fit(ls, ws, offset as int),
            offset <= i,
            i <= n || i == offset,
            !full ==> row == 0 || row < rows,
            ({
                let f = lay_lines(ls, ws, offset as int, i as int, cur, rows as int, cols as int);
                &&& f.screen == done@.map_values(|l: Vec<char>| l@).push(current@)
                &&& f.row == row
                &&& f.col == col
                &&& f.cursor == pos_view(at)
                &&& f.full == full
            }),
        decreases n - i,
    {
        let line = &lines[i];
        let width = &widths[i];
        let len = line.len();
        let ghost f0 = lay_lines(ls, ws, offset as int, i as int, cur, rows as int, cols as int);
        assert(width@.len() == len) by {
            assert(ws[i as int].len() == ls[i as int].len());
        }
        let mut j: usize = 0;
        while j < len
            invariant
                j <= len,
                i < n,
                n == lines@.len(),
                ls == lines@.map_values(|l: Vec<char>| l@),
                ws == widths@.map_values(|l: Vec<usize>| l@),
                len == line@.len(),
                width@.len() == len,
                line@ == ls[i as int],
                width@ == ws[i as int],
                !full ==> row == 0 || row < rows,
                ({
                    let f = lay_line(f0, ls[i as int], ws[i as int], i as int, cur, rows as int, cols as int, j as int);
                    &&& f.screen == done@.map_values(|l: Vec<char>| l@).push(current@)
                    &&& f.row == row
                    &&& f.col == col
                    &&& f.cursor == pos_view(at)
                    &&& f.full == full
                }),
            decreases len - j,
        {
            if !full && cur.row == i && cur.column == j {
                at = Some((row, col));
            }
            if !full {
                let c = line[j];
                let w = width[j];
                let ghost before = done@.map_values(|l: Vec<char>| l@).push(current@);
                if w >= cols || col >= cols - w {
                    if row + 1 >= rows {
                        row = row + 1;
                        col = 0;
                        full = true;
                    } else {
                        let finished = current;
                        done.push(finished);
                        current = Vec::new();
                        current.push(c);
                        row = row + 1;
                        col = w;
                        proof {
                            assert(done@.map_values(|l: Vec<char>| l@).push(current@) =~= before.push(seq![c]));
                        }
                    }
                } else {
                    current.push(c);
                    col = col + w;
                    proof {
                        assert(done@.map_values(|l: Vec<char>| l@).push(current@) =~= before.update(
                            before.len() - 1,
                            before.last().push(c),
                        ));
                    }
                }
            }
            j = j + 1;
        }
        if !full && cur.row == i && cur.column == len {
            at = Some((row, col));
        }
        if !full {
            let ghost before = done@.map_values(|l: Vec<char>| l@).push(current@);
            if row + 1 >= rows {
                row = row + 1;
                col = 0;
                full = true;
            } else if i + 1 == n {
                row = row + 1;
                col = 0;
            } else {
                let finished = current;
                done.push(finished);
                current = Vec::new();
                row = row + 1;
                col = 0;
                proof {
                    assert(done@.map_values(|l: Vec<char>| l@).push(current@) =~= before.push(
                        Seq::<char>::empty(),
                    ));
                }
            }
        }
        i = i + 1;
    }
    proof {
        if i < n {
            lemma_lay_lines_full(ls, ws, offset as int, i as int, n as int, cur, rows as int, cols as int);
        }
    }
    done.push(current);
    proof {
        assert(done@.map_values(|l: Vec<char>| l@) =~= lay_lines(ls, ws, offset as int, n as int, cur, rows as int, cols as int).screen);
    }
    Screen { rows: done, cursor: at }
}

} // verus!
