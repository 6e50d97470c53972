//! Double-buffered character screen: a draw buffer, a displayed buffer, and
//! a submit step that yields exactly the cells that changed, so a rendering
//! collaborator repaints no more than necessary.

use vstd::prelude::*;

use crate::text::str_chars;
use crate::ui::base::{Color, Pos};

verus! {

/// One character cell with its colors.
#[derive(Clone, Copy, Debug, PartialEq, Eq, Structural)]
pub struct Cell {
    pub c: char,
    pub fg: Color,
    pub bg: Color,
}

/// The blank a cleared cell holds.
pub open spec fn sp_blank() -> Cell {
    Cell { c: ' ', fg: Color::White, bg: Color::Black }
}

pub fn blank_cell() -> (r: Cell)
    ensures
        r == sp_blank(),
{
    Cell { c: ' ', fg: Color::White, bg: Color::Black }
}

/// A rectangular grid of cells, row-major, with an optional cursor wish.
pub struct ScreenBuffer {
    /// The cells, row-major.
    pub rows: Vec<Vec<Cell>>,
    /// How wide every row is.
    pub width: Pos,
    /// Where the terminal cursor should rest after drawing, if anywhere.
    pub cursor: Option<(Pos, Pos)>,
}

impl ScreenBuffer {
    /// The grid as a sequence of rows.
    pub open spec fn grid(self) -> Seq<Seq<Cell>> {
        self.rows@.map_values(|r: Vec<Cell>| r@)
    }

    pub open spec fn spec_width(self) -> Pos {
        self.width
    }

    /// Every row has the buffer's width.
    pub open spec fn wf(self) -> bool {
        forall|y: int|
            0 <= y < self.grid().len() ==> (#[trigger] self.grid()[y]).len()
                == self.spec_width()
    }

    /// A blank buffer of the given size.
    pub fn new(width: Pos, height: Pos) -> (r: ScreenBuffer)
        ensures
            r.wf(),
            r.spec_width() == width,
            r.grid().len() == height,
            forall|y: int, x: int|
                0 <= y < height && 0 <= x < width ==> (#[trigger] r.grid()[y][x]) == sp_blank(),
            r.cursor is None,
    {
        let mut rows: Vec<Vec<Cell>> = Vec::new();
        let mut y: Pos = 0;
        while y < height
            invariant
                y <= height,
                rows@.len() == y,
                forall|i: int|
                    0 <= i < y ==> (#[trigger] rows@[i])@.len() == width,
                forall|i: int, x: int|
                    0 <= i < y && 0 <= x < width ==> (#[trigger] rows@[i]@[x]) == sp_blank(),
            decreases height - y,
        {
            let mut row: Vec<Cell> = Vec::new();
            let mut x: Pos = 0;
            while x < width
                invariant
                    x <= width,
                    row@.len() == x,
                    forall|i: int| 0 <= i < x ==> (#[trigger] row@[i]) == sp_blank(),
                decreases width - x,
            {
                row.push(blank_cell());
                x += 1;
            }
            rows.push(row);
            y += 1;
        }
        let r = ScreenBuffer { rows, width, cursor: None };
        proof {
            assert(forall|i: int|
                0 <= i < r.grid().len() ==> (#[trigger] r.grid()[i]) == rows@[i]@);
        }
        r
    }

    pub fn width(&self) -> (r: Pos)
        ensures
            r == self.spec_width(),
    {
        self.width
    }

    pub fn height(&self) -> (r: Pos)
        requires
            self.grid().len() <= Pos::MAX,
        ensures
            r == self.grid().len(),
    {
        self.rows.len() as u16
    }

    /// The cells with their coordinates, row-major.
    pub fn iter(&self) -> (r: Vec<(Pos, Pos, char)>)
        requires
            self.wf(),
            self.grid().len() <= Pos::MAX,
        ensures
            r@.len() == self.grid().len() * self.spec_width(),
            forall|k: int|
                0 <= k < r@.len() ==> {
                    let y = k / (self.spec_width() as int);
                    let x = k % (self.spec_width() as int);
                    (#[trigger] r@[k]) == (x as Pos, y as Pos, self.grid()[y][x].c)
                },
    {
        let mut r: Vec<(Pos, Pos, char)> = Vec::new();
        let h = self.rows.len();
        let w = self.width as usize;
        let mut y: usize = 0;
        if w == 0 {
            proof {
                assert(self.grid().len() * self.spec_width() == 0) by (nonlinear_arith)
                    requires
                        self.spec_width() == 0,
                ;
            }
            return r;
        }
        while y < h
            invariant
                y <= h,
                w == self.spec_width(),
                0 < w,
                h == self.grid().len(),
                self.wf(),
                h <= Pos::MAX,
                r@.len() == y * w,
                forall|k: int|
                    0 <= k < r@.len() ==> {
                        let yy = k / (w as int);
                        let xx = k % (w as int);
                        (#[trigger] r@[k]) == (xx as Pos, yy as Pos, self.grid()[yy][xx].c)
                    },
            decreases h - y,
        {
            let mut x: usize = 0;
            while x < w
                invariant
                    x <= w,
                    y < h,
                    w == self.spec_width(),
                    0 < w,
                    h == self.grid().len(),
                    self.wf(),
                    h <= Pos::MAX,
                    r@.len() == y * w + x,
                    forall|k: int|
                        0 <= k < r@.len() ==> {
                            let yy = k / (w as int);
                            let xx = k % (w as int);
                            (#[trigger] r@[k]) == (xx as Pos, yy as Pos, self.grid()[yy][xx].c)
                        },
                decreases w - x,
            {
                proof {
                    assert(y * w + x < (y + 1) * w <= h * w) by (nonlinear_arith)
                        requires
                            0 <= x < w,
                            0 <= y < h,
                    ;
                    assert((y * w + x) / (w as int) == y && (y * w + x) % (w as int) == x)
                        by (nonlinear_arith)
                        requires
                            0 <= x < w,
                            0 <= y,
                            0 < w,
                    ;
                    assert(self.grid()[y as int] == self.rows@[y as int]@);
                }
                let c = self.rows[y][x].c;
                r.push((x as u16, y as u16, c));
                x += 1;
            }
            proof {
                assert(y * w + w == (y + 1) * w) by (nonlinear_arith);
            }
            y += 1;
        }
        r
    }

    /// Blanks every cell.
    pub fn clear(&mut self)
        requires
            old(self).wf(),
        ensures
            final(self).wf(),
            final(self).spec_width() == old(self).spec_width(),
            final(self).grid().len() == old(self).grid().len(),
            forall|y: int, x: int|
                0 <= y < final(self).grid().len() && 0 <= x < final(self).spec_width() ==> (
                #[trigger] final(self).grid()[y][x]) == sp_blank(),
            final(self).cursor == old(self).cursor,
    {
        proof {
            assert forall|i: int| 0 <= i < self.rows@.len() implies (
            #[trigger] self.rows@[i])@.len() == self.width by {
                assert(self.grid()[i] == self.rows@[i]@);
            }
        }
        let h = self.rows.len();
        let w = self.width;
        let mut y: usize = 0;
        while y < h
            invariant
                y <= h,
                h == self.rows@.len(),
                w == self.spec_width(),
                self.spec_width() == old(self).spec_width(),
                self.cursor == old(self).cursor,
                self.rows@.len() == old(self).rows@.len(),
                forall|i: int|
                    0 <= i < h ==> (#[trigger] self.rows@[i])@.len() == w,
                forall|i: int, x: int|
                    0 <= i < y && 0 <= x < w ==> (#[trigger] self.rows@[i]@[x]) == sp_blank(),
            decreases h - y,
        {
            let mut row: Vec<Cell> = Vec::new();
            let mut x: usize = 0;
            while x < w as usize
                invariant
                    x <= w,
                    row@.len() == x,
                    forall|i: int| 0 <= i < x ==> (#[trigger] row@[i]) == sp_blank(),
                decreases w as usize - x,
            {
                row.push(blank_cell());
                x += 1;
            }
            self.rows[y] = row;
            y += 1;
        }
        proof {
            assert(forall|i: int|
                0 <= i < self.grid().len() ==> (#[trigger] self.grid()[i]) == self.rows@[i]@);
        }
    }

    /// Writes one cell; writes outside the grid are ignored.
    pub fn set(&mut self, x: Pos, y: Pos, cell: Cell) -> (r: bool)
        ensures
            old(self).wf() ==> final(self).wf(),
            final(self).spec_width() == old(self).spec_width(),
            final(self).grid().len() == old(self).grid().len(),
            final(self).cursor == old(self).cursor,
            old(self).wf() ==> r == (y < old(self).grid().len() && x < old(
                self,
            ).spec_width()),
            r ==> final(self).grid() == old(self).grid().update(
                y as int,
                old(self).grid()[y as int].update(x as int, cell),
            ),
            !r ==> final(self).grid() == old(self).grid(),
    {
        let h = self.rows.len();
        if (y as usize) < h && x < self.width {
            proof {
                assert(self.grid()[y as int] == self.rows@[y as int]@);
            }
            let row = &mut self.rows[y as usize];
            if (x as usize) < row.len() {
                row[x as usize] = cell;
                proof {
                    assert(self.grid() =~= old(self).grid().update(
                        y as int,
                        old(self).grid()[y as int].update(x as int, cell),
                    ));
                }
                true
            } else {
                proof {
                    assert(self.grid() =~= old(self).grid());
                }
                false
            }
        } else {
            proof {
                assert(self.grid() =~= old(self).grid());
            }
            false
        }
    }

    /// Sets where the terminal cursor should rest.
    pub fn set_cursor_hint(&mut self, c: Option<(Pos, Pos)>)
        ensures
            final(self).rows == old(self).rows,
            final(self).width == old(self).width,
            final(self).cursor == c,
            old(self).wf() ==> final(self).wf(),
    {
        self.cursor = c;
        proof {
            assert(self.grid() =~= old(self).grid());
            if old(self).wf() {
                assert forall|y: int| 0 <= y < self.grid().len() implies (
                #[trigger] self.grid()[y]).len() == self.spec_width() by {
                    assert(self.grid()[y] == old(self).grid()[y]);
                }
            }
        }
    }

    /// Writes text at a position with colors, truncating at the limit and
    /// the right edge; never touches another row. A write to a row that does
    /// not exist fails and leaves the buffer alone.
    pub fn write_at(&mut self, x: Pos, y: Pos, limit: Pos, fg: Color, bg: Color, text: &str) -> (r:
        Result<(), ()>)
        requires
            old(self).wf(),
        ensures
            final(self).wf(),
            final(self).spec_width() == old(self).spec_width(),
            final(self).grid().len() == old(self).grid().len(),
            final(self).cursor == old(self).cursor,
            r is Ok <==> (y as int) < old(self).grid().len(),
            final(self).grid() == (if (y as int) < old(self).grid().len() {
                old(self).grid().update(
                    y as int,
                    sp_write_row(
                        old(self).grid()[y as int],
                        x as int,
                        limit as int,
                        fg,
                        bg,
                        text@,
                    ),
                )
            } else {
                old(self).grid()
            }),
    {
        let h = self.rows.len();
        if y as usize >= h {
            return Err(());
        }
        let cs = str_chars(text);
        let n = cs.len();
        let w = self.width as usize;
        proof {
            assert(self.grid()[y as int] == self.rows@[y as int]@);
            assert(self.grid()[y as int].len() == self.spec_width());
        }
        let oldrow: &Vec<Cell> = &self.rows[y as usize];
        let lim: usize = if (limit as usize) < w {
            limit as usize
        } else {
            w
        };
        let s1: usize = if (x as usize) < w {
            x as usize
        } else {
            w
        };
        let cnt: usize = if (x as usize) >= lim {
            0
        } else if n < lim - (x as usize) {
            n
        } else {
            lim - (x as usize)
        };
        let mut newrow: Vec<Cell> = Vec::new();
        let mut i: usize = 0;
        while i < s1
            invariant
                i <= s1,
                s1 <= w,
                oldrow@.len() == w,
                newrow@.len() == i,
                forall|j: int| 0 <= j < i ==> #[trigger] newrow@[j] == oldrow@[j],
            decreases s1 - i,
        {
            let c: Cell = oldrow[i];
            newrow.push(c);
            i += 1;
        }
        let mut k: usize = 0;
        while k < cnt
            invariant
                k <= cnt,
                cnt <= n,
                n == cs@.len(),
                s1 + cnt <= w,
                oldrow@.len() == w,
                newrow@.len() == s1 + k,
                forall|j: int| 0 <= j < s1 ==> #[trigger] newrow@[j] == oldrow@[j],
                forall|j: int|
                    s1 <= j < s1 + k ==> #[trigger] newrow@[j] == (Cell {
                        c: cs@[j - s1],
                        fg: fg,
                        bg: bg,
                    }),
            decreases cnt - k,
        {
            let c: char = char_at(&cs, k);
            newrow.push(Cell { c: c, fg: fg, bg: bg });
            k += 1;
        }
        let mut i2: usize = s1 + cnt;
        while i2 < w
            invariant
                s1 + cnt <= i2 <= w,
                n == cs@.len(),
                oldrow@.len() == w,
                newrow@.len() == i2,
                forall|j: int| 0 <= j < s1 ==> #[trigger] newrow@[j] == oldrow@[j],
                forall|j: int|
                    s1 <= j < s1 + cnt ==> #[trigger] newrow@[j] == (Cell {
                        c: cs@[j - s1],
                        fg: fg,
                        bg: bg,
                    }),
                forall|j: int| s1 + cnt <= j < i2 ==> #[trigger] newrow@[j] == oldrow@[j],
            decreases w - i2,
        {
            let c: Cell = oldrow[i2];
            newrow.push(c);
            i2 += 1;
        }
        proof {
            let row0 = old(self).grid()[y as int];
            let spec_row = sp_write_row(row0, x as int, limit as int, fg, bg, text@);
            assert(oldrow@ == row0);
            assert(cs@ == text@);
            assert(row0.len() == w);
            assert(sp_write_row(row0, x as int, limit as int, fg, bg, text@).len()
                == row0.len());
            assert(spec_row.len() == w);
            assert(newrow@.len() == w);
            assert forall|j: int| 0 <= j < w implies newrow@[j] == spec_row[j] by {
                if j < s1 {
                    assert(j < x as int);
                    assert(newrow@[j] == oldrow@[j]);
                } else if j < s1 + cnt {
                    assert(cnt > 0);
                    assert((x as int) < lim as int);
                    assert(s1 == x as int);
                    assert(x as int <= j < x as int + n && j < limit as int);
                    assert(newrow@[j] == (Cell { c: cs@[j - s1], fg: fg, bg: bg }));
                } else {
                    assert(newrow@[j] == oldrow@[j]);
                    if (x as int) < w {
                        assert(s1 == x as int);
                        if (x as int) >= lim as int {
                            assert(lim as int == limit as int || lim as int == w);
                            assert(j >= limit as int);
                        } else if n < lim - (x as usize) {
                            assert(j >= x as int + n);
                        } else {
                            assert(j >= lim as int);
                            assert(lim as int == limit as int || lim as int == w);
                            assert(j >= limit as int);
                        }
                    } else {
                        assert(s1 == w);
                        assert(false);
                    }
                }
            }
            assert(newrow@ =~= spec_row);
        }
        let rr = &mut self.rows[y as usize];
        *rr = newrow;
        proof {
            assert(self.grid() =~= old(self).grid().update(
                y as int,
                sp_write_row(
                    old(self).grid()[y as int],
                    x as int,
                    limit as int,
                    fg,
                    bg,
                    text@,
                ),
            ));
            assert forall|yy: int| 0 <= yy < self.grid().len() implies (
            #[trigger] self.grid()[yy]).len() == self.spec_width() by {
                assert(self.grid()[yy] == self.rows@[yy]@);
                if yy != y as int {
                    assert(self.grid()[yy] == old(self).grid()[yy]);
                }
            }
        }
        Ok(())
    }
}

/// The character at a position of a vector.
fn char_at(v: &Vec<char>, i: usize) -> (c: char)
    requires
        i < v@.len(),
    ensures
        c == v@[i as int],
{
    v[i]
}

/// One row after writing text at column `x` under a column limit: the cells
/// from `x` on take the text's characters with the given colors, stopping at
/// the text's end, the limit or the row's end, whichever comes first; every
/// other cell keeps its value.
pub open spec fn sp_written_cell(
    row: Seq<Cell>,
    x: int,
    limit: int,
    fg: Color,
    bg: Color,
    text: Seq<char>,
    i: int,
) -> Cell {
    if x <= i < x + text.len() && i < limit {
        Cell { c: text[i - x], fg: fg, bg: bg }
    } else {
        row[i]
    }
}

pub open spec fn sp_write_row(
    row: Seq<Cell>,
    x: int,
    limit: int,
    fg: Color,
    bg: Color,
    text: Seq<char>,
) -> Seq<Cell> {
    Seq::new(row.len(), |i: int| sp_written_cell(row, x, limit, fg, bg, text, i))
}

/// One repaint instruction: put this cell at this position.
#[derive(Clone, Copy, Debug, PartialEq, Eq, Structural)]
pub struct DrawOp {
    pub x: Pos,
    pub y: Pos,
    pub cell: Cell,
}

/// The double-buffered screen. Drawing fills the back buffer; submitting
/// diffs it against what is displayed and yields the cells to repaint.
pub struct Screen {
    /// The back buffer being drawn into.
    pub buffer_a: ScreenBuffer,
    /// What the terminal currently displays.
    pub buffer_b: ScreenBuffer,
    /// Where the cursor should rest after the next submit.
    pub cursor: (Pos, Pos),
}

impl Screen {
    pub open spec fn drawn(self) -> ScreenBuffer {
        self.buffer_a
    }

    pub open spec fn shown(self) -> ScreenBuffer {
        self.buffer_b
    }

    pub open spec fn wf(self) -> bool {
        &&& self.drawn().wf()
        &&& self.shown().wf()
        &&& self.drawn().spec_width() == self.shown().spec_width()
        &&& self.drawn().grid().len() == self.shown().grid().len()
        &&& self.drawn().grid().len() <= Pos::MAX
    }

    pub fn new(width: Pos, height: Pos) -> (r: Screen)
        ensures
            r.wf(),
            r.drawn().spec_width() == width,
            r.drawn().grid().len() == height,
    {
        Screen {
            buffer_a: ScreenBuffer::new(width, height),
            buffer_b: ScreenBuffer::new(width, height),
            cursor: (0, 0),
        }
    }

    pub fn width(&self) -> (r: Pos)
        ensures
            r == self.drawn().spec_width(),
    {
        self.buffer_a.width()
    }

    /// Writes text into the back buffer; origin is the upper-left corner.
    /// Nothing reaches the displayed frame until `submit`. The write fails,
    /// changing nothing, when the row does not exist.
    pub fn buffer(&mut self, x: Pos, y: Pos, limit: Pos, text: &str) -> (r: Result<(), ()>)
        requires
            old(self).wf(),
        ensures
            final(self).wf(),
            final(self).shown() == old(self).shown(),
            final(self).cursor == old(self).cursor,
            r is Ok <==> (y as int) < old(self).drawn().grid().len(),
            final(self).drawn().grid() == (if (y as int) < old(self).drawn().grid().len() {
                old(self).drawn().grid().update(
                    y as int,
                    sp_write_row(
                        old(self).drawn().grid()[y as int],
                        x as int,
                        limit as int,
                        Color::White,
                        Color::Black,
                        text@,
                    ),
                )
            } else {
                old(self).drawn().grid()
            }),
    {
        self.buffer_a.write_at(x, y, limit, Color::White, Color::Black, text)
    }

    pub fn set_cursor(&mut self, x: Pos, y: Pos)
        requires
            old(self).wf(),
        ensures
            final(self).wf(),
            final(self).drawn() == old(self).drawn(),
            final(self).shown() == old(self).shown(),
    {
        self.cursor = (x, y);
    }

    /// Diffs the back buffer against the displayed one and returns exactly
    /// the cells that changed, row-major, with the cursor's resting place;
    /// the drawn frame becomes the displayed one and the back buffer is
    /// cleared to blanks.
    pub fn submit(&mut self) -> (r: (Vec<DrawOp>, (Pos, Pos)))
        requires
            old(self).wf(),
        ensures
            final(self).wf(),
            forall|k: int|
                0 <= k < r.0@.len() ==> {
                    let op = #[trigger] r.0@[k];
                    &&& (op.y as int) < old(self).drawn().grid().len()
                    &&& (op.x as int) < old(self).drawn().spec_width()
                    &&& op.cell == old(self).drawn().grid()[op.y as int][op.x as int]
                    &&& op.cell != old(self).shown().grid()[op.y as int][op.x as int]
                },
            forall|yy: int, xx: int|
                0 <= yy < old(self).drawn().grid().len() && 0 <= xx < old(
                    self,
                ).drawn().spec_width() && old(self).drawn().grid()[yy][xx] != old(
                    self,
                ).shown().grid()[yy][xx] ==> r.0@.contains(
                    DrawOp {
                        x: xx as Pos,
                        y: yy as Pos,
                        cell: old(self).drawn().grid()[yy][xx],
                    },
                ),
            final(self).shown() == old(self).drawn(),
            r.1 == old(self).cursor,
            final(self).cursor == old(self).cursor,
            final(self).drawn().spec_width() == old(self).drawn().spec_width(),
            final(self).drawn().grid().len() == old(self).drawn().grid().len(),
            forall|yy: int, xx: int|
                0 <= yy < final(self).drawn().grid().len() && 0 <= xx
                    < final(self).drawn().spec_width() ==> (#[trigger] final(self).drawn().grid()[yy][xx])
                    == sp_blank(),
    {
        let h = self.buffer_a.rows.len();
        let w = self.buffer_a.width;
        let mut ops: Vec<DrawOp> = Vec::new();
        let mut y: usize = 0;
        while y < h
            invariant
                y <= h,
                self == old(self),
                h == self.drawn().grid().len(),
                w == self.drawn().spec_width(),
                self.wf(),
                forall|k: int|
                    0 <= k < ops@.len() ==> {
                        let op = #[trigger] ops@[k];
                        &&& (op.y as int) < self.drawn().grid().len()
                        &&& (op.x as int) < self.drawn().spec_width()
                        &&& op.cell == self.drawn().grid()[op.y as int][op.x as int]
                        &&& op.cell != self.shown().grid()[op.y as int][op.x as int]
                    },
                forall|yy: int, xx: int|
                    0 <= yy < y && 0 <= xx < w && self.drawn().grid()[yy][xx]
                        != self.shown().grid()[yy][xx] ==> ops@.contains(
                        DrawOp { x: xx as Pos, y: yy as Pos, cell: self.drawn().grid()[yy][xx] },
                    ),
            decreases h - y,
        {
            let mut x: usize = 0;
            while x < w as usize
                invariant
                    x <= w,
                    y < h,
                    self == old(self),
                    h == self.drawn().grid().len(),
                    w == self.drawn().spec_width(),
                    self.wf(),
                    forall|k: int|
                        0 <= k < ops@.len() ==> {
                            let op = #[trigger] ops@[k];
                            &&& (op.y as int) < self.drawn().grid().len()
                            &&& (op.x as int) < self.drawn().spec_width()
                            &&& op.cell == self.drawn().grid()[op.y as int][op.x as int]
                            &&& op.cell != self.shown().grid()[op.y as int][op.x as int]
                        },
                    forall|yy: int, xx: int|
                        0 <= yy < y && 0 <= xx < w && self.drawn().grid()[yy][xx]
                            != self.shown().grid()[yy][xx] ==> ops@.contains(
                            DrawOp {
                                x: xx as Pos,
                                y: yy as Pos,
                                cell: self.drawn().grid()[yy][xx],
                            },
                        ),
                    forall|xx: int|
                        0 <= xx < x && self.drawn().grid()[y as int][xx]
                            != self.shown().grid()[y as int][xx] ==> ops@.contains(
                            DrawOp {
                                x: xx as Pos,
                                y: y as Pos,
                                cell: self.drawn().grid()[y as int][xx],
                            },
                        ),
                decreases w - x,
            {
                proof {
                    assert(self.buffer_a.grid()[y as int] == self.buffer_a.rows@[y as int]@);
                    assert(self.buffer_b.grid()[y as int] == self.buffer_b.rows@[y as int]@);
                }
                let a = self.buffer_a.rows[y][x];
                let b = self.buffer_b.rows[y][x];
                let ghost prev = ops@;
                if a != b {
                    ops.push(DrawOp { x: x as u16, y: y as u16, cell: a });
                }
                x += 1;
                proof {
                    assert forall|yy: int, xx: int|
                        0 <= yy < y as int && 0 <= xx < w && self.drawn().grid()[yy][xx]
                            != self.shown().grid()[yy][xx] implies ops@.contains(
                        DrawOp { x: xx as Pos, y: yy as Pos, cell: self.drawn().grid()[yy][xx] },
                    ) by {
                        let op = DrawOp {
                            x: xx as Pos,
                            y: yy as Pos,
                            cell: self.drawn().grid()[yy][xx],
                        };
                        assert(prev.contains(op));
                        let wi = choose|wi: int| 0 <= wi < prev.len() && prev[wi] == op;
                        assert(ops@[wi] == op);
                    }
                    assert forall|xx: int|
                        0 <= xx < x as int && self.drawn().grid()[y as int][xx]
                            != self.shown().grid()[y as int][xx] implies ops@.contains(
                        DrawOp {
                            x: xx as Pos,
                            y: y as Pos,
                            cell: self.drawn().grid()[y as int][xx],
                        },
                    ) by {
                        let op = DrawOp {
                            x: xx as Pos,
                            y: y as Pos,
                            cell: self.drawn().grid()[y as int][xx],
                        };
                        if xx < x as int - 1 {
                            assert(prev.contains(op));
                            let wi = choose|wi: int| 0 <= wi < prev.len() && prev[wi] == op;
                            assert(ops@[wi] == op);
                        } else {
                            if a != b {
                                assert(ops@[prev.len() as int] == op);
                            } else {
                                assert(prev.contains(op));
                                let wi = choose|wi: int|
                                    0 <= wi < prev.len() && prev[wi] == op;
                                assert(ops@[wi] == op);
                            }
                        }
                    }
                }
            }
            y += 1;
        }
        core::mem::swap(&mut self.buffer_a, &mut self.buffer_b);
        self.buffer_a.clear();
        let cursor = self.cursor;
        (ops, cursor)
    }
}

/// A bordered sub-area drawn through its own buffer.
pub struct Section {
    pub buffer: ScreenBuffer,
}

impl Section {
    /// A section reserves one row and column for its border.
    pub fn new(width: Pos, height: Pos) -> (r: Section)
        requires
            width >= 1,
            height >= 1,
        ensures
            r.buffer.wf(),
            r.buffer.spec_width() == width - 1,
            r.buffer.grid().len() == height - 1,
    {
        Section { buffer: ScreenBuffer::new(width - 1, height - 1) }
    }

    /// Copies the section's cells, one by one, into the screen's back
    /// buffer in white on black; cells that fall outside the screen are
    /// ignored and make the copy report failure. Nothing reaches the
    /// displayed frame, and the section itself is not modified.
    pub fn write(&self, screen: &mut Screen) -> (r: Result<(), ()>)
        requires
            old(screen).wf(),
            self.buffer.wf(),
            self.buffer.grid().len() <= Pos::MAX,
        ensures
            final(screen).wf(),
            final(screen).shown() == old(screen).shown(),
            final(screen).cursor == old(screen).cursor,
            final(screen).drawn().spec_width() == old(screen).drawn().spec_width(),
            final(screen).drawn().grid().len() == old(screen).drawn().grid().len(),
            forall|yy: int, xx: int|
                0 <= yy < final(screen).drawn().grid().len() && 0 <= xx
                    < final(screen).drawn().spec_width() ==> #[trigger] final(screen).drawn().grid()[yy][xx]
                    == (
                if yy < self.buffer.grid().len() && xx < self.buffer.spec_width() {
                    Cell {
                        c: self.buffer.grid()[yy][xx].c,
                        fg: Color::White,
                        bg: Color::Black,
                    }
                } else {
                    old(screen).drawn().grid()[yy][xx]
                }),
            r is Ok <==> (self.buffer.grid().len() == 0 || self.buffer.spec_width() == 0 || (
            self.buffer.grid().len() <= old(screen).drawn().grid().len()
                && self.buffer.spec_width() <= old(screen).drawn().spec_width())),
    {
        let sh_e: usize = self.buffer.rows.len();
        let sw_e: u16 = self.buffer.width();
        let gh_e: usize = screen.buffer_a.rows.len();
        let gw_e: u16 = screen.width();
        let fits: bool = sh_e == 0 || sw_e == 0 || (sh_e <= gh_e && sw_e as usize
            <= gw_e as usize);
        let cells = self.buffer.iter();
        let n = cells.len();
        let ghost sh = self.buffer.grid().len() as int;
        let ghost sw = self.buffer.spec_width() as int;
        let mut k: usize = 0;
        if self.buffer.width() == 0 {
            proof {
                assert(sh * sw == 0) by (nonlinear_arith)
                    requires
                        sw == 0,
                ;
            }
        }
        while k < n
            invariant
                k <= n,
                n == cells@.len(),
                n == sh * sw,
                sh == self.buffer.grid().len(),
                sw == self.buffer.spec_width(),
                self.buffer.wf(),
                sh <= Pos::MAX,
                sw <= Pos::MAX,
                forall|m: int|
                    0 <= m < n ==> {
                        let yy = m / sw;
                        let xx = m % sw;
                        (#[trigger] cells@[m]) == (
                            xx as Pos,
                            yy as Pos,
                            self.buffer.grid()[yy][xx].c,
                        )
                    },
                screen.wf(),
                screen.shown() == old(screen).shown(),
                screen.cursor == old(screen).cursor,
                screen.drawn().spec_width() == old(screen).drawn().spec_width(),
                screen.drawn().grid().len() == old(screen).drawn().grid().len(),
                forall|yy: int, xx: int|
                    0 <= yy < screen.drawn().grid().len() && 0 <= xx < screen.drawn().spec_width()
                        ==> #[trigger] screen.drawn().grid()[yy][xx] == (
                    if 0 <= yy < sh && 0 <= xx < sw && yy * sw + xx < k {
                        Cell {
                            c: self.buffer.grid()[yy][xx].c,
                            fg: Color::White,
                            bg: Color::Black,
                        }
                    } else {
                        old(screen).drawn().grid()[yy][xx]
                    }),
                0 < sw || n == 0,
            decreases n - k,
        {
            let (x, y, c) = cells[k];
            proof {
                assert((k as int) / sw < sh && 0 <= (k as int) % sw < sw) by (nonlinear_arith)
                    requires
                        0 <= k < sh * sw,
                        0 < sw,
                ;
            }
            let ghost prev_drawn = screen.drawn().grid();
            let ok = screen.buffer_set(x, y, c);
            proof {
                let yk = (k as int) / sw;
                let xk = (k as int) % sw;
                assert(yk * sw + xk == k as int) by (nonlinear_arith)
                    requires
                        yk == (k as int) / sw,
                        xk == (k as int) % sw,
                        0 < sw,
                        0 <= k,
                ;
                assert(0 <= xk < sw && 0 <= yk < sh);
                assert(cells@[k as int] == (
                    xk as Pos,
                    yk as Pos,
                    self.buffer.grid()[yk][xk].c,
                ));
                assert((xk as Pos) as int == xk);
                assert((yk as Pos) as int == yk);
                assert(x as int == xk && y as int == yk);
                assert forall|yy: int, xx: int|
                    0 <= yy < screen.drawn().grid().len() && 0 <= xx
                        < screen.drawn().spec_width() implies #[trigger] screen.drawn().grid()[yy][xx]
                    == (if 0 <= yy < sh && 0 <= xx < sw && yy * sw + xx < k as int + 1 {
                    Cell {
                        c: self.buffer.grid()[yy][xx].c,
                        fg: Color::White,
                        bg: Color::Black,
                    }
                } else {
                    old(screen).drawn().grid()[yy][xx]
                }) by {
                    if yy == yk && xx == xk {
                        assert(ok);
                        assert(screen.drawn().grid()[yy][xx] == (Cell {
                            c,
                            fg: Color::White,
                            bg: Color::Black,
                        }));
                        assert(c == self.buffer.grid()[yk][xk].c);
                    } else {
                        if ok {
                            assert(screen.drawn().grid()[yy] == prev_drawn.update(
                                yk,
                                prev_drawn[yk].update(
                                    xk,
                                    Cell { c, fg: Color::White, bg: Color::Black },
                                ),
                            )[yy]);
                            assert(screen.drawn().grid()[yy][xx] == prev_drawn[yy][xx]);
                        } else {
                            assert(screen.drawn().grid()[yy][xx] == prev_drawn[yy][xx]);
                        }
                        if 0 <= yy < sh && 0 <= xx < sw {
                            assert(yy * sw + xx != k as int) by (nonlinear_arith)
                                requires
                                    0 <= yy,
                                    0 <= xx < sw,
                                    yk == (k as int) / sw,
                                    xk == (k as int) % sw,
                                    0 < sw,
                                    0 <= k,
                                    !(yy == yk && xx == xk),
                            ;
                        }
                    }
                }
            }
            k += 1;
        }
        proof {
            if sh > 0 && sw > 0 {
                assert forall|yy: int, xx: int|
                    0 <= yy < sh && 0 <= xx < sw implies 0 <= #[trigger] (yy * sw + xx) < n by {
                    assert(0 <= yy * sw + xx && yy * sw + xx < sh * sw) by (nonlinear_arith)
                        requires
                            0 <= yy < sh,
                            0 <= xx < sw,
                            0 < sw,
                    ;
                }
            }
            assert(self.buffer.grid().len() == self.buffer.rows@.len());
            assert(screen.drawn().grid().len() == screen.buffer_a.rows@.len());
        }
        if fits {
            Ok(())
        } else {
            Err(())
        }
    }
}

impl Screen {
    /// Writes one character into the back buffer, in white on black; a write
    /// outside the grid is ignored and reported.
    pub fn buffer_set(&mut self, x: Pos, y: Pos, c: char) -> (r: bool)
        requires
            old(self).wf(),
        ensures
            final(self).wf(),
            final(self).shown() == old(self).shown(),
            final(self).cursor == old(self).cursor,
            final(self).drawn().spec_width() == old(self).drawn().spec_width(),
            final(self).drawn().grid().len() == old(self).drawn().grid().len(),
            r == ((y as int) < old(self).drawn().grid().len() && (x as int) < old(
                self,
            ).drawn().spec_width()),
            r ==> final(self).drawn().grid() == old(self).drawn().grid().update(
                y as int,
                old(self).drawn().grid()[y as int].update(
                    x as int,
                    Cell { c, fg: Color::White, bg: Color::Black },
                ),
            ),
            !r ==> final(self).drawn().grid() == old(self).drawn().grid(),
    {
        self.buffer_a.set(x, y, Cell { c, fg: Color::White, bg: Color::Black })
    }
}

} // verus!
