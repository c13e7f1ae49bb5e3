//! The cell-grid renderer: a frame of styled characters is computed
//! here each tick, and the terminal layer only blits it.
//!
//! Every column computation works in display columns through the
//! width module; a double-width glyph occupies two cells, its second
//! cell blanked.

use vstd::prelude::*;
use crate::entry::{Entry, LoadingState};
use crate::marquee::{slice_text_marquee, MarqueeDirection};
use crate::state::{App, InputMode};
use crate::text::{blanks, char_cols, char_width, display_width, str_chars, truncate_to_width};

verus! {

/// A terminal color, either named or from the 256-color cube.
#[derive(Clone, Copy, Debug, PartialEq, Eq, Structural)]
pub enum TermColor {
    Black,
    White,
    Yellow,
    Blue,
    DarkGray,
    Indexed(u8),
}

#[derive(Clone, Copy, Debug, PartialEq, Eq, Structural)]
pub struct CellStyle {
    pub fg: TermColor,
    pub bg: TermColor,
}

/// One character cell of the frame.
#[derive(Clone, Copy, Debug, PartialEq, Eq, Structural)]
pub struct Cell {
    pub ch: char,
    pub style: CellStyle,
}

/// The colors of every UI zone.
pub struct ColorScheme {
    pub default_fg: TermColor,
    pub number: TermColor,
    pub numberselected: TermColor,
    pub source: TermColor,
    pub time: TermColor,
    pub selected_bg: TermColor,
    pub alertfg: TermColor,
    pub alertbg: TermColor,
    pub categoryfg: TermColor,
    pub categorybg: TermColor,
    pub categoryfg_s: TermColor,
    pub categorybg_s: TermColor,
}

impl ColorScheme {
    /// The palette for plain 16-color terminals.
    pub fn new_16() -> (r: ColorScheme)
        ensures
            r.default_fg == TermColor::White,
            r.number == TermColor::White,
            r.numberselected == TermColor::White,
            r.source == TermColor::Yellow,
            r.time == TermColor::DarkGray,
            r.selected_bg == TermColor::White,
            r.alertfg == TermColor::White,
            r.alertbg == TermColor::Blue,
            r.categoryfg == TermColor::Yellow,
            r.categorybg == TermColor::Black,
            r.categoryfg_s == TermColor::Black,
            r.categorybg_s == TermColor::Yellow,
    {
        ColorScheme {
            default_fg: TermColor::White,
            number: TermColor::White,
            numberselected: TermColor::White,
            source: TermColor::Yellow,
            time: TermColor::DarkGray,
            selected_bg: TermColor::White,
            alertfg: TermColor::White,
            alertbg: TermColor::Blue,
            categoryfg: TermColor::Yellow,
            categorybg: TermColor::Black,
            categoryfg_s: TermColor::Black,
            categorybg_s: TermColor::Yellow,
        }
    }

    /// The palette for 256-color terminals.
    pub fn new_256() -> (r: ColorScheme)
        ensures
            r.default_fg == TermColor::Indexed(7),
            r.number == TermColor::Indexed(8),
            r.numberselected == TermColor::Indexed(15),
            r.source == TermColor::Indexed(2),
            r.time == TermColor::Indexed(8),
            r.selected_bg == TermColor::Indexed(15),
            r.alertfg == TermColor::Indexed(15),
            r.alertbg == TermColor::Indexed(12),
            r.categoryfg == TermColor::Indexed(223),
            r.categorybg == TermColor::Indexed(235),
            r.categoryfg_s == TermColor::Indexed(235),
            r.categorybg_s == TermColor::Indexed(223),
    {
        ColorScheme {
            default_fg: TermColor::Indexed(7),
            number: TermColor::Indexed(8),
            numberselected: TermColor::Indexed(15),
            source: TermColor::Indexed(2),
            time: TermColor::Indexed(8),
            selected_bg: TermColor::Indexed(15),
            alertfg: TermColor::Indexed(15),
            alertbg: TermColor::Indexed(12),
            categoryfg: TermColor::Indexed(223),
            categorybg: TermColor::Indexed(235),
            categoryfg_s: TermColor::Indexed(235),
            categorybg_s: TermColor::Indexed(223),
        }
    }
}

/// One bounds-guarded cell write within a row.
pub open spec fn put(row: Seq<Cell>, j: int, cell: Cell) -> Seq<Cell> {
    if 0 <= j < row.len() {
        row.update(j, cell)
    } else {
        row
    }
}

/// What writing a string into a row leaves behind, walking the text
/// from column `cx`: zero-width characters are skipped, every other
/// character takes its cell and advances the column by its width, a
/// double-width glyph blanks its second cell, and the walk stops at
/// the row's edge or at the first glyph that would cross it.
pub open spec fn write_acc(row: Seq<Cell>, cx: int, s: Seq<char>, style: CellStyle) -> Seq<Cell>
    decreases s.len(),
{
    if s.len() == 0 {
        row
    } else if cx >= row.len() {
        row
    } else {
        let cw = char_cols(s[0]) as int;
        if cw == 0 {
            write_acc(row, cx, s.drop_first(), style)
        } else if cw > row.len() - cx {
            row
        } else {
            let row1 = put(row, cx, Cell { ch: s[0], style });
            let row2 = if cw == 2 && cx + 1 < row.len() {
                put(row1, cx + 1, Cell { ch: ' ', style })
            } else {
                row1
            };
            write_acc(row2, cx + cw, s.drop_first(), style)
        }
    }
}

/// A row write, no-op when the start column is off the row.
pub open spec fn row_write(row: Seq<Cell>, x: int, s: Seq<char>, style: CellStyle) -> Seq<Cell> {
    if 0 <= x < row.len() {
        write_acc(row, x, s, style)
    } else {
        row
    }
}

/// The whole-grid effect of one string write.
pub open spec fn grid_write(
    cells: Seq<Seq<Cell>>,
    x: int,
    y: int,
    s: Seq<char>,
    style: CellStyle,
) -> Seq<Seq<Cell>> {
    if 0 <= y < cells.len() {
        cells.update(y, row_write(cells[y], x, s, style))
    } else {
        cells
    }
}

/// A span of a row overwritten with one cell, clipped to the row.
pub open spec fn spec_fill_span(row: Seq<Cell>, x0: int, n: int, cell: Cell) -> Seq<Cell> {
    Seq::new(
        row.len(),
        |j: int| if x0 <= j < x0 + n {
            cell
        } else {
            row[j]
        },
    )
}

/// A row of one repeated cell.
pub open spec fn filled_row(width: nat, cell: Cell) -> Seq<Cell> {
    Seq::new(width, |i: int| cell)
}

/// A full row of blank cells on the black background.
pub open spec fn blank_row(width: nat) -> Seq<Cell> {
    filled_row(width, Cell { ch: ' ', style: CellStyle { fg: TermColor::Black, bg: TermColor::Black } })
}

/// Updating one cell of a row leaves every other column alone.
proof fn lemma_update_other(s: Seq<Cell>, j: int, v: Cell, t: int)
    requires
        0 <= t < s.len(),
        0 <= j < s.len(),
        t != j,
    ensures
        s.update(j, v)[t] == s[t],
{
}

/// One frame of the terminal: `height` rows of `width` cells.
pub struct Frame {
    pub width: usize,
    pub height: usize,
    pub cells: Vec<Vec<Cell>>,
}

impl Frame {
    /// A full grid: one row per line, one cell per column.
    pub open spec fn wf(&self) -> bool {
        &&& self.cells@.len() == self.height
        &&& forall|r: int| 0 <= r < self.height ==> (#[trigger] self.cells@[r])@.len()
            == self.width
    }

    /// The frame's rows as plain sequences of cells.
    pub open spec fn grid(&self) -> Seq<Seq<Cell>> {
        self.cells@.map_values(|r: Vec<Cell>| r@)
    }

    /// A frame of blank black cells.
    pub fn new(width: usize, height: usize) -> (r: Frame)
        ensures
            r.wf(),
            r.width == width,
            r.height == height,
            r.grid() == Seq::new(height as nat, |y: int| blank_row(width as nat)),
    {
        let blank = Cell {
            ch: ' ',
            style: CellStyle { fg: TermColor::Black, bg: TermColor::Black },
        };
        let mut cells: Vec<Vec<Cell>> = Vec::new();
        let mut y: usize = 0;
        while y < height
            invariant
                y <= height,
                cells@.len() == y,
                blank == (Cell {
                    ch: ' ',
                    style: CellStyle { fg: TermColor::Black, bg: TermColor::Black },
                }),
                forall|r: int| 0 <= r < y ==> (#[trigger] cells@[r])@ == blank_row(width as nat),
            decreases height - y,
        {
            let mut row: Vec<Cell> = Vec::new();
            let mut x: usize = 0;
            while x < width
                invariant
                    x <= width,
                    row@.len() == x,
                    blank == (Cell {
                        ch: ' ',
                        style: CellStyle { fg: TermColor::Black, bg: TermColor::Black },
                    }),
                    forall|t: int| 0 <= t < x ==> #[trigger] row@[t] == blank,
                decreases width - x,
            {
                row.push(blank);
                x = x + 1;
            }
            proof {
                assert forall|t: int| 0 <= t < width implies #[trigger] blank_row(
                    width as nat,
                )[t] == blank by {
                    assert(blank_row(width as nat) == filled_row(width as nat, blank));
                    assert(filled_row(width as nat, blank)[t] == blank);
                }
                assert(row@ =~= blank_row(width as nat));
            }
            cells.push(row);
            y = y + 1;
        }
        proof {
            assert(cells@.map_values(|r: Vec<Cell>| r@) =~= Seq::new(
                height as nat,
                |y: int| blank_row(width as nat),
            ));
        }
        Frame { width, height, cells }
    }

    /// Writes one cell; an out-of-range write leaves the frame as it
    /// was, and no write ever touches another row.
    pub fn set_cell(&mut self, x: usize, y: usize, c: char, style: CellStyle)
        requires
            old(self).wf(),
        ensures
            final(self).wf(),
            final(self).width == old(self).width,
            final(self).height == old(self).height,
            y < old(self).height ==> final(self).grid() == old(self).grid().update(
                y as int,
                put(old(self).grid()[y as int], x as int, Cell { ch: c, style }),
            ),
            y >= old(self).height ==> *final(self) == *old(self),
            x < old(self).width && y < old(self).height ==> final(self).cells@[y as int]@ == old(
                self,
            ).cells@[y as int]@.update(x as int, Cell { ch: c, style }),
            !(x < old(self).width && y < old(self).height) ==> *final(self) == *old(self),
            forall|r: int|
                0 <= r < old(self).height && r != y ==> final(self).cells@[r] == old(
                    self,
                ).cells@[r],
    {
        let ghost pre = *self;
        if y < self.cells.len() {
            if x < self.cells[y].len() {
                self.cells[y][x] = Cell { ch: c, style };
            }
        }
        proof {
            assert(forall|r: int|
                0 <= r < self.cells@.len() ==> #[trigger] self.grid()[r] == self.cells@[r]@);
            assert(forall|r: int|
                0 <= r < pre.cells@.len() ==> #[trigger] pre.grid()[r] == pre.cells@[r]@);
            if y < pre.height {
                assert(self.grid() =~= pre.grid().update(
                    y as int,
                    put(pre.grid()[y as int], x as int, Cell { ch: c, style }),
                ));
            }
        }
    }

    /// Writes a string left to right from column `x` of row `y` in
    /// display-column steps: zero-width characters are skipped, a
    /// double-width glyph blanks its second cell, and writing stops at
    /// the frame's edge.  Other rows, and the columns before `x`, are
    /// untouched.
    pub fn set_string(&mut self, x: usize, y: usize, s: &str, style: CellStyle)
        requires
            old(self).wf(),
        ensures
            final(self).wf(),
            final(self).width == old(self).width,
            final(self).height == old(self).height,
            final(self).grid() == grid_write(old(self).grid(), x as int, y as int, s@, style),
            forall|r: int|
                0 <= r < old(self).height && r != y ==> final(self).cells@[r] == old(
                    self,
                ).cells@[r],
            y < old(self).height ==> forall|t: int|
                0 <= t < x && t < old(self).width ==> final(self).cells@[y as int]@[t] == old(
                    self,
                ).cells@[y as int]@[t],
    {
        proof {
            assert(forall|r: int|
                0 <= r < old(self).cells@.len() ==> #[trigger] old(self).grid()[r] == old(
                    self,
                ).cells@[r]@);
        }
        if y >= self.height || x >= self.width {
            proof {
                if y < self.height {
                    assert(self.grid() =~= grid_write(
                        old(self).grid(),
                        x as int,
                        y as int,
                        s@,
                        style,
                    ));
                } else {
                    assert(self.grid() =~= grid_write(
                        old(self).grid(),
                        x as int,
                        y as int,
                        s@,
                        style,
                    ));
                }
            }
            return ;
        }
        let chars = str_chars(s);
        let n = chars.len();
        let mut cx: usize = x;
        let mut i: usize = 0;
        proof {
            assert(chars@.skip(0) =~= chars@);
        }
        while i < n
            invariant
                self.wf(),
                old(self).wf(),
                self.width == old(self).width,
                self.height == old(self).height,
                n == chars@.len(),
                chars@ == s@,
                i <= n,
                y < self.height,
                x < self.width,
                x <= cx,
                forall|r: int|
                    0 <= r < self.height && r != y ==> self.cells@[r] == old(self).cells@[r],
                forall|t: int|
                    0 <= t < x && t < self.width ==> #[trigger] self.cells@[y as int]@[t] == old(
                        self,
                    ).cells@[y as int]@[t],
                write_acc(old(self).grid()[y as int], x as int, s@, style) == write_acc(
                    self.grid()[y as int],
                    cx as int,
                    chars@.skip(i as int),
                    style,
                ),
            decreases n - i,
        {
            proof {
                assert(forall|r: int|
                    0 <= r < self.cells@.len() ==> #[trigger] self.grid()[r] == self.cells@[
                    r]@);
                assert(chars@.skip(i as int).len() == n - i);
                assert(self.grid()[y as int].len() == self.width);
            }
            if cx >= self.width {
                proof {
                    assert(write_acc(
                        self.grid()[y as int],
                        cx as int,
                        chars@.skip(i as int),
                        style,
                    ) == self.grid()[y as int]);
                    assert(forall|r: int|
                        0 <= r < old(self).cells@.len() ==> #[trigger] old(self).grid()[r]
                            == old(self).cells@[r]@);
                    assert(old(self).grid()[y as int].len() == old(self).width);
                    assert(self.grid() =~= grid_write(
                        old(self).grid(),
                        x as int,
                        y as int,
                        s@,
                        style,
                    ));
                }
                return ;
            }
            let c = chars[i];
            let cw = char_width(c);
            if cw == 0 {
                proof {
                    assert(chars@.skip(i as int)[0] == chars@[i as int]);
                    assert(chars@.skip(i as int).drop_first() =~= chars@.skip(i as int + 1));
                }
                i = i + 1;
            } else {
                if cw > self.width - cx {
                    proof {
                        assert(chars@.skip(i as int)[0] == chars@[i as int]);
                        assert(write_acc(
                            self.grid()[y as int],
                            cx as int,
                            chars@.skip(i as int),
                            style,
                        ) == self.grid()[y as int]);
                        assert(forall|r: int|
                        0 <= r < old(self).cells@.len() ==> #[trigger] old(self).grid()[r]
                            == old(self).cells@[r]@);
                    assert(old(self).grid()[y as int].len() == old(self).width);
                        assert(self.grid() =~= grid_write(
                            old(self).grid(),
                            x as int,
                            y as int,
                            s@,
                            style,
                        ));
                    }
                    return ;
                }
                let ghost pre = *self;
                self.set_cell(cx, y, c, style);
                let ghost mid = *self;
                if cw == 2 && cx + 1 < self.width {
                    self.set_cell(cx + 1, y, ' ', style);
                }
                proof {
                    assert(chars@.skip(i as int)[0] == chars@[i as int]);
                    assert(chars@.skip(i as int).drop_first() =~= chars@.skip(i as int + 1));
                    assert(mid.grid()[y as int] == put(
                        pre.grid()[y as int],
                        cx as int,
                        Cell { ch: c, style },
                    ));
                    if cw == 2 && cx + 1 < self.width {
                        assert(self.grid()[y as int] == put(
                            mid.grid()[y as int],
                            cx as int + 1,
                            Cell { ch: ' ', style },
                        ));
                    } else {
                        assert(self.grid()[y as int] == mid.grid()[y as int]);
                    }
                    assert(write_acc(
                        pre.grid()[y as int],
                        cx as int,
                        chars@.skip(i as int),
                        style,
                    ) == write_acc(self.grid()[y as int], cx + cw, chars@.skip(i as int + 1), style));
                    assert(mid.cells@[y as int]@ == pre.cells@[y as int]@.update(
                        cx as int,
                        Cell { ch: c, style },
                    ));
                    assert forall|t: int|
                        0 <= t < x && t < self.width implies #[trigger] self.cells@[
                        y as int]@[t] == old(self).cells@[y as int]@[t] by {
                        assert(t < cx);
                        assert(pre.cells@[y as int]@.len() == self.width);
                        lemma_update_other(
                            pre.cells@[y as int]@,
                            cx as int,
                            Cell { ch: c, style },
                            t,
                        );
                        assert(mid.cells@[y as int]@[t] == pre.cells@[y as int]@[t]);
                        if self.cells@[y as int]@ != mid.cells@[y as int]@ {
                            lemma_update_other(
                                mid.cells@[y as int]@,
                                cx as int + 1,
                                Cell { ch: ' ', style },
                                t,
                            );
                        }
                        assert(self.cells@[y as int]@[t] == mid.cells@[y as int]@[t]);
                    }
                }
                cx = cx + cw;
                i = i + 1;
            }
        }
        proof {
            assert(forall|r: int|
                0 <= r < self.cells@.len() ==> #[trigger] self.grid()[r] == self.cells@[r]@);
            assert(chars@.skip(n as int).len() == 0);
            assert(write_acc(
                self.grid()[y as int],
                cx as int,
                chars@.skip(n as int),
                style,
            ) == self.grid()[y as int]);
            assert(forall|r: int|
                0 <= r < old(self).cells@.len() ==> #[trigger] old(self).grid()[r] == old(
                    self,
                ).cells@[r]@);
            assert(old(self).grid()[y as int].len() == old(self).width);
            assert(self.grid() =~= grid_write(old(self).grid(), x as int, y as int, s@, style));
        }
    }

    /// Fills one whole row with blanks in the given style; other rows
    /// are untouched.
    pub fn fill_row(&mut self, y: usize, style: CellStyle)
        requires
            old(self).wf(),
        ensures
            final(self).wf(),
            final(self).width == old(self).width,
            final(self).height == old(self).height,
            y < old(self).height ==> final(self).cells@[y as int]@ == Seq::new(
                old(self).width as nat,
                |i: int| Cell { ch: ' ', style },
            ),
            y < old(self).height ==> final(self).grid() == old(self).grid().update(
                y as int,
                filled_row(old(self).width as nat, Cell { ch: ' ', style }),
            ),
            y >= old(self).height ==> *final(self) == *old(self),
            forall|r: int|
                0 <= r < old(self).height && r != y ==> final(self).cells@[r] == old(
                    self,
                ).cells@[r],
    {
        if y >= self.height {
            return ;
        }
        let w = self.width;
        let mut x: usize = 0;
        while x < w
            invariant
                self.wf(),
                self.width == old(self).width,
                self.height == old(self).height,
                w == self.width,
                x <= w,
                y < self.height,
                forall|r: int|
                    0 <= r < self.height && r != y ==> self.cells@[r] == old(self).cells@[r],
                forall|t: int|
                    0 <= t < x ==> #[trigger] self.cells@[y as int]@[t] == (Cell {
                        ch: ' ',
                        style,
                    }),
                forall|t: int|
                    x <= t < w ==> #[trigger] self.cells@[y as int]@[t] == old(
                        self,
                    ).cells@[y as int]@[t],
            decreases w - x,
        {
            self.set_cell(x, y, ' ', style);
            x = x + 1;
        }
        proof {
            assert(self.cells@[y as int]@ =~= Seq::new(
                old(self).width as nat,
                |i: int| Cell { ch: ' ', style },
            ));
            assert(forall|r: int|
                0 <= r < self.cells@.len() ==> #[trigger] self.grid()[r] == self.cells@[r]@);
            assert(forall|r: int|
                0 <= r < old(self).cells@.len() ==> #[trigger] old(self).grid()[r] == old(
                    self,
                ).cells@[r]@);
            assert(self.cells@[y as int]@ =~= filled_row(
                old(self).width as nat,
                Cell { ch: ' ', style },
            ));
            assert(self.grid() =~= old(self).grid().update(
                y as int,
                filled_row(old(self).width as nat, Cell { ch: ' ', style }),
            ));
        }
    }

    /// Overwrites `len` cells of row `y` from column `x0` with one
    /// repeated character, clipped to the frame; other rows are
    /// untouched.
    pub fn fill_span(&mut self, x0: usize, y: usize, len: usize, c: char, style: CellStyle)
        requires
            old(self).wf(),
            x0 <= old(self).width,
            len <= usize::MAX - x0,
            old(self).width <= 0xffff,
        ensures
            final(self).wf(),
            final(self).width == old(self).width,
            final(self).height == old(self).height,
            y < old(self).height ==> final(self).grid() == old(self).grid().update(
                y as int,
                spec_fill_span(
                    old(self).grid()[y as int],
                    x0 as int,
                    len as int,
                    Cell { ch: c, style },
                ),
            ),
            y >= old(self).height ==> *final(self) == *old(self),
    {
        if y >= self.height {
            return ;
        }
        let mut j: usize = 0;
        while j < len
            invariant
                self.wf(),
                old(self).wf(),
                self.width == old(self).width,
                self.height == old(self).height,
                y < self.height,
                j <= len,
                x0 <= self.width,
                len <= usize::MAX - x0,
                self.width <= 0xffff,
                forall|r: int|
                    0 <= r < self.height && r != y ==> self.cells@[r] == old(self).cells@[r],
                forall|t: int|
                    0 <= t < self.width ==> #[trigger] self.cells@[y as int]@[t] == (if x0 <= t
                        < x0 + j {
                        Cell { ch: c, style }
                    } else {
                        old(self).cells@[y as int]@[t]
                    }),
            decreases len - j,
        {
            self.set_cell(x0 + j, y, c, style);
            j = j + 1;
        }
        proof {
            assert(forall|r: int|
                0 <= r < self.cells@.len() ==> #[trigger] self.grid()[r] == self.cells@[r]@);
            assert(forall|r: int|
                0 <= r < old(self).cells@.len() ==> #[trigger] old(self).grid()[r] == old(
                    self,
                ).cells@[r]@);
            assert(self.cells@[y as int]@ =~= spec_fill_span(
                old(self).grid()[y as int],
                x0 as int,
                len as int,
                Cell { ch: c, style },
            ));
            assert(self.grid() =~= old(self).grid().update(
                y as int,
                spec_fill_span(
                    old(self).grid()[y as int],
                    x0 as int,
                    len as int,
                    Cell { ch: c, style },
                ),
            ));
        }
    }
}

/// The style of one tab label.
pub open spec fn tab_style(colors: ColorScheme, active: bool) -> CellStyle {
    if active {
        CellStyle { fg: colors.categoryfg_s, bg: colors.categorybg_s }
    } else {
        CellStyle { fg: colors.categoryfg, bg: colors.categorybg }
    }
}

/// The tab labels written left to right from column 1: each label is
/// the title between two blanks, written only if it fits wholly before
/// the right edge, and followed by a two-column gap.
pub open spec fn bar_acc(
    cells: Seq<Seq<Cell>>,
    cats: Seq<crate::entry::Category>,
    idx: int,
    x: int,
    cur: int,
    width: int,
    colors: ColorScheme,
) -> Seq<Seq<Cell>>
    decreases cats.len() - idx,
{
    if idx < 0 || idx >= cats.len() {
        cells
    } else {
        let title = cats[idx].title@;
        let llen = title.len() + 2;
        let style = tab_style(colors, idx == cur);
        let cells2 = if llen <= width && x <= width - llen {
            grid_write(cells, x, 0, seq![' '] + title + seq![' '], style)
        } else {
            cells
        };
        let x2 = if x + llen + 2 <= width {
            x + llen + 2
        } else {
            width + 1
        };
        bar_acc(cells2, cats, idx + 1, x2, cur, width, colors)
    }
}

/// What the category bar leaves: row 0 filled with dots in the bar
/// background, then the tab labels.
pub open spec fn spec_bar(
    cells: Seq<Seq<Cell>>,
    cats: Seq<crate::entry::Category>,
    cur: int,
    width: int,
    colors: ColorScheme,
) -> Seq<Seq<Cell>> {
    bar_acc(spec_bar_dotted(cells, width, colors), cats, 0, 1, cur, width, colors)
}

/// The top category bar: a dotted strip with one label per tab, the
/// active tab highlighted.
pub fn render_category_bar(frame: &mut Frame, app: &App, colors: &ColorScheme)
    requires
        old(frame).wf(),
        old(frame).width <= 0xffff,
        app.wf(),
    ensures
        final(frame).wf(),
        final(frame).width == old(frame).width,
        final(frame).height == old(frame).height,
        final(frame).grid() == spec_bar(
            old(frame).grid(),
            app.categories@,
            app.current_category as int,
            old(frame).width as int,
            *colors,
        ),
{
    let dot_style = CellStyle { fg: colors.categorybg, bg: colors.categorybg };
    let w = frame.width;
    frame.fill_span(0, 0, w, '.', dot_style);
    let ghost dotted = frame.grid();
    proof {
        if frame.height > 0 {
            assert(dotted == spec_bar_dotted(old(frame).grid(), w as int, *colors));
        } else {
            assert(old(frame).grid().len() == 0);
            assert(dotted == spec_bar_dotted(old(frame).grid(), w as int, *colors));
        }
    }
    let mut x: usize = 1;
    let mut idx: usize = 0;
    let n = app.categories.len();
    while idx < n
        invariant
            frame.wf(),
            frame.width == old(frame).width,
            frame.height == old(frame).height,
            frame.width <= 0xffff,
            w == frame.width,
            n == app.categories@.len(),
            idx <= n,
            x <= w + 1,
            bar_acc(dotted, app.categories@, 0, 1, app.current_category as int, w as int, *colors)
                == bar_acc(
                frame.grid(),
                app.categories@,
                idx as int,
                x as int,
                app.current_category as int,
                w as int,
                *colors,
            ),
        decreases n - idx,
    {
        let title = &app.categories[idx].title;
        let label = padded_field(title.as_str());
        let title_len = str_chars(title.as_str()).len();
        let style = if idx == app.current_category {
            CellStyle { fg: colors.categoryfg_s, bg: colors.categorybg_s }
        } else {
            CellStyle { fg: colors.categoryfg, bg: colors.categorybg }
        };
        let ghost pre = frame.grid();
        if title_len <= w && 2 <= w - title_len && x <= w - title_len - 2 {
            frame.set_string(x, 0, label.as_str(), style);
        }
        proof {
            let tv = app.categories@[idx as int].title@;
            assert(label@ == seq![' '] + tv + seq![' ']);
            let llen = tv.len() + 2;
            if llen <= w && x <= w - llen {
                assert(frame.grid() == grid_write(pre, x as int, 0, label@, style));
            } else {
                assert(frame.grid() == pre);
            }
        }
        if x <= w && w - x >= 4 && title_len <= w - x - 4 {
            x = x + title_len + 4;
        } else {
            x = w + 1;
        }
        idx = idx + 1;
    }
    proof {
        assert(bar_acc(
            frame.grid(),
            app.categories@,
            n as int,
            x as int,
            app.current_category as int,
            w as int,
            *colors,
        ) == frame.grid());
    }
}

/// The dotted base strip of the bar.
pub open spec fn spec_bar_dotted(cells: Seq<Seq<Cell>>, width: int, colors: ColorScheme) -> Seq<
    Seq<Cell>,
> {
    let dot = Cell { ch: '.', style: CellStyle { fg: colors.categorybg, bg: colors.categorybg } };
    if 0 < cells.len() {
        cells.update(0, spec_fill_span(cells[0], 0, width, dot))
    } else {
        cells
    }
}

/// Where the alert strip starts: right-aligned with its padding.
pub open spec fn alert_x(width: int, text_len: int) -> int {
    if width >= text_len + 6 {
        width - (text_len + 6)
    } else {
        0
    }
}

/// What the alert leaves: the text between three blanks on each side,
/// written into the top row at the right edge.
pub open spec fn spec_alert(
    cells: Seq<Seq<Cell>>,
    width: int,
    text: Seq<char>,
    style: CellStyle,
) -> Seq<Seq<Cell>> {
    grid_write(cells, alert_x(width, text.len() as int), 0, blanks(3) + text + blanks(3), style)
}

/// The transient alert strip in the top-right corner.
pub fn render_alert(frame: &mut Frame, colors: &ColorScheme, text: &str)
    requires
        old(frame).wf(),
        old(frame).width <= 0xffff,
    ensures
        final(frame).wf(),
        final(frame).width == old(frame).width,
        final(frame).height == old(frame).height,
        final(frame).grid() == spec_alert(
            old(frame).grid(),
            old(frame).width as int,
            text@,
            CellStyle { fg: colors.alertfg, bg: colors.alertbg },
        ),
{
    let chars = str_chars(text);
    let len = chars.len();
    let w = frame.width;
    let x = if w >= 6 && len <= w - 6 {
        w - 6 - len
    } else {
        0
    };
    let mut padded: Vec<char> = Vec::new();
    padded.push(' ');
    padded.push(' ');
    padded.push(' ');
    let mut i: usize = 0;
    while i < len
        invariant
            len == chars@.len(),
            i <= len,
            padded@ == blanks(3) + chars@.take(i as int),
        decreases len - i,
    {
        padded.push(chars[i]);
        proof {
            assert(blanks(3) + chars@.take(i as int + 1) =~= (blanks(3) + chars@.take(
                i as int,
            )).push(chars@[i as int]));
        }
        i = i + 1;
    }
    padded.push(' ');
    padded.push(' ');
    padded.push(' ');
    proof {
        assert(chars@.take(len as int) =~= chars@);
        assert(padded@ =~= blanks(3) + text@ + blanks(3));
        assert(x as int == alert_x(w as int, text@.len() as int));
    }
    let style = CellStyle { fg: colors.alertfg, bg: colors.alertbg };
    let padded_str = crate::text::chars_to_string(&padded);
    frame.set_string(x, 0, padded_str.as_str(), style);
}

/// The gutter text for a 1-based row number: right-aligned to three
/// columns.
pub open spec fn spec_row_number(n: int) -> Seq<char> {
    if n < 10 {
        seq![' ', ' ', crate::feed::dec_digit(n)]
    } else if n < 100 {
        seq![' ', crate::feed::dec_digit(n / 10), crate::feed::dec_digit(n % 10)]
    } else {
        seq![
            crate::feed::dec_digit(n / 100),
            crate::feed::dec_digit(n / 10 % 10),
            crate::feed::dec_digit(n % 10),
        ]
    }
}

/// The number gutter text for a 1-based row number, right-aligned to
/// three columns.
fn row_number_text(n: usize) -> (r: Vec<char>)
    requires
        n <= 999,
    ensures
        r@ == spec_row_number(n as int),
{
    let digits: [char; 10] = ['0', '1', '2', '3', '4', '5', '6', '7', '8', '9'];
    let mut out: Vec<char> = Vec::new();
    if n < 10 {
        out.push(' ');
        out.push(' ');
        out.push(digits[n]);
        proof {
            assert(digits@[n as int] == crate::feed::dec_digit(n as int));
            assert(out@ =~= spec_row_number(n as int));
        }
    } else if n < 100 {
        out.push(' ');
        out.push(digits[n / 10]);
        out.push(digits[n % 10]);
        proof {
            assert(digits@[n as int / 10] == crate::feed::dec_digit(n as int / 10));
            assert(digits@[n as int % 10] == crate::feed::dec_digit(n as int % 10));
            assert(out@ =~= spec_row_number(n as int));
        }
    } else {
        out.push(digits[n / 100]);
        out.push(digits[n / 10 % 10]);
        out.push(digits[n % 10]);
        proof {
            assert(digits@[n as int / 100] == crate::feed::dec_digit(n as int / 100));
            assert(digits@[n as int / 10 % 10] == crate::feed::dec_digit(n as int / 10 % 10));
            assert(digits@[n as int % 10] == crate::feed::dec_digit(n as int % 10));
            assert(out@ =~= spec_row_number(n as int));
        }
    }
    out
}

/// A field padded with one blank on each side.
fn padded_field(s: &str) -> (r: String)
    ensures
        r@ == seq![' '] + s@ + seq![' '],
{
    let mut v: Vec<char> = Vec::new();
    v.push(' ');
    let cs = str_chars(s);
    let mut i: usize = 0;
    while i < cs.len()
        invariant
            i <= cs@.len(),
            cs@ == s@,
            v@ == seq![' '] + cs@.take(i as int),
        decreases cs@.len() - i,
    {
        v.push(cs[i]);
        proof {
            assert(seq![' '] + cs@.take(i as int + 1) =~= (seq![' '] + cs@.take(
                i as int,
            )).push(cs@[i as int]));
        }
        i = i + 1;
    }
    proof {
        assert(cs@.take(cs@.len() as int) =~= cs@);
    }
    v.push(' ');
    proof {
        assert(v@ =~= seq![' '] + s@ + seq![' ']);
    }
    crate::text::chars_to_string(&v)
}

/// Display columns as the saturating width computation yields them.
pub open spec fn dw(s: Seq<char>) -> int {
    if crate::text::str_cols(s) > usize::MAX {
        usize::MAX as int
    } else {
        crate::text::str_cols(s) as int
    }
}

/// The column budget of the title field: what is left of the width
/// after the title column and the live width of the date field.
pub open spec fn title_budget(w: int, title_col: int, date: Seq<char>) -> int {
    let dfw = if dw(date) + 2 > usize::MAX {
        usize::MAX as int
    } else {
        dw(date) + 2
    };
    if title_col <= w && dfw <= w - title_col {
        w - title_col - dfw
    } else {
        0
    }
}

/// The selected row's title window and the direction after it: the
/// marquee where its machine bounds hold, else a static truncation
/// with the direction untouched.
pub open spec fn marquee_title(e: Entry, budget: int, m: crate::marquee::MarqueeState) -> (
    Seq<char>,
    MarqueeDirection,
) {
    if crate::text::str_cols(e.title@) <= 0x7fff_ffff && m.shift <= 0x7fff_ffff {
        crate::marquee::spec_marquee(e.title@, budget, m.shift as int, m.direction)
    } else {
        (crate::text::spec_truncate(e.title@, budget), m.direction)
    }
}

/// The title window one row shows: the marquee on the selected row,
/// a static truncation otherwise.
pub open spec fn row_title(e: Entry, is_selected: bool, budget: int, m: crate::marquee::MarqueeState) -> Seq<char> {
    if is_selected {
        marquee_title(e, budget, m).0
    } else {
        crate::text::spec_truncate(e.title@, budget)
    }
}

/// What one visible entry row holds, left to right: the full-width
/// background, the three-column index gutter in a numeric jump, the
/// 19-column source field, the title window, and the right-aligned
/// date field.
pub open spec fn entry_row(
    w: int,
    e: Entry,
    rownum: int,
    is_selected: bool,
    number_mode: bool,
    typed: int,
    has_digits: bool,
    title_text: Seq<char>,
    colors: ColorScheme,
) -> Seq<Cell> {
    let black = TermColor::Black;
    let bg = if is_selected {
        colors.selected_bg
    } else {
        black
    };
    let base = filled_row(w as nat, Cell { ch: ' ', style: CellStyle { fg: bg, bg } });
    let col_offset: int = if number_mode {
        4
    } else {
        0
    };
    let r1 = if number_mode {
        let num_fg = if typed == rownum && has_digits {
            colors.numberselected
        } else {
            colors.number
        };
        let st = CellStyle { fg: num_fg, bg: black };
        let num = spec_row_number(rownum);
        put(
            put(put(base, 1, Cell { ch: num[0], style: st }), 2, Cell { ch: num[1], style: st }),
            3,
            Cell { ch: num[2], style: st },
        )
    } else {
        base
    };
    let src_style = if is_selected {
        CellStyle { fg: black, bg: colors.selected_bg }
    } else {
        CellStyle { fg: colors.source, bg: black }
    };
    let r2 = row_write(
        r1,
        1 + col_offset,
        crate::text::spec_truncate(seq![' '] + e.source_name@ + seq![' '], 19),
        src_style,
    );
    let title_col = 20 + col_offset;
    let title_style = if is_selected {
        CellStyle { fg: black, bg: colors.selected_bg }
    } else {
        CellStyle { fg: colors.default_fg, bg: black }
    };
    let r3 = row_write(r2, title_col - 1, seq![' '], title_style);
    let r4 = row_write(r3, title_col, title_text, title_style);
    let date_text = seq![' '] + e.pub_date@ + seq![' '];
    let date_x = if w >= dw(date_text) {
        w - dw(date_text)
    } else {
        0
    };
    let date_style = if is_selected {
        CellStyle { fg: black, bg: colors.selected_bg }
    } else {
        CellStyle { fg: colors.time, bg: black }
    };
    row_write(r4, date_x, date_text, date_style)
}

/// Whether row index `i` is the selected row outside a numeric jump.
pub open spec fn row_selected(a: App, i: int) -> bool {
    &&& a.input_mode != InputMode::NumberJump
    &&& match a.selected {
        Some(s) => s as int == i,
        None => false,
    }
}

/// The entry count behind the current tab.
pub open spec fn spec_entry_count(a: App) -> int {
    if a.categories@.len() > 0 {
        a.entries@[a.current_category as int]@.len() as int
    } else {
        0
    }
}

/// What the entry renderer leaves: the category row untouched, one
/// `entry_row` per visible entry, a bare background fill for visible
/// rows past the list, and black blanks below the row limit.
pub open spec fn spec_entries_cells(cells0: Seq<Seq<Cell>>, a: App, colors: ColorScheme) -> Seq<
    Seq<Cell>,
> {
    let w = a.terminal_width as int;
    let limit = a.spec_row_limit();
    let count = spec_entry_count(a);
    let nm = a.input_mode == InputMode::NumberJump;
    let typed = crate::state::digits_value(a.input_number@);
    let hasd = a.input_number@.len() > 0;
    Seq::new(
        cells0.len(),
        |r: int|
            if 1 <= r <= limit {
                let i = r - 1;
                let sel = row_selected(a, i);
                if i < count {
                    let e = a.entries@[a.current_category as int]@[i];
                    let budget = title_budget(
                        w,
                        20 + if nm {
                            4int
                        } else {
                            0int
                        },
                        e.pub_date@,
                    );
                    entry_row(
                        w,
                        e,
                        i + 1,
                        sel,
                        nm,
                        typed,
                        hasd,
                        row_title(e, sel, budget, a.marquee),
                        colors,
                    )
                } else {
                    let bg = if sel {
                        colors.selected_bg
                    } else {
                        TermColor::Black
                    };
                    filled_row(w as nat, Cell { ch: ' ', style: CellStyle { fg: bg, bg } })
                }
            } else if r > limit {
                blank_row(w as nat)
            } else {
                cells0[r]
            },
    )
}

/// The marquee direction once the rows up to `upto` are rendered: only
/// the selected row's marquee ever turns it.
pub open spec fn dir_after(a: App, upto: int) -> MarqueeDirection {
    let nm = a.input_mode == InputMode::NumberJump;
    match a.selected {
        Some(sel) => {
            if !nm && (sel as int) < upto && (sel as int) < spec_entry_count(a) {
                let e = a.entries@[a.current_category as int]@[sel as int];
                let budget = title_budget(
                    a.terminal_width as int,
                    20 + if nm {
                        4int
                    } else {
                        0int
                    },
                    e.pub_date@,
                );
                marquee_title(e, budget, a.marquee).1
            } else {
                a.marquee.direction
            }
        },
        None => a.marquee.direction,
    }
}

/// The marquee direction the entry renderer leaves behind.
pub open spec fn spec_entries_direction(a: App) -> MarqueeDirection {
    dir_after(a, a.spec_row_limit())
}

/// Draws one visible entry row and reports the marquee direction the
/// title write left behind.
#[verifier::rlimit(60)]
fn draw_entry_row(
    frame: &mut Frame,
    row: usize,
    e: &Entry,
    rownum: usize,
    is_selected: bool,
    number_mode: bool,
    typed: usize,
    has_digits: bool,
    m: crate::marquee::MarqueeState,
    colors: &ColorScheme,
) -> (nd: MarqueeDirection)
    requires
        old(frame).wf(),
        old(frame).width <= 0xffff,
        row < old(frame).height,
        rownum <= 999,
        m.shift >= 0,
    ensures
        final(frame).wf(),
        final(frame).width == old(frame).width,
        final(frame).height == old(frame).height,
        ({
            let w = old(frame).width as int;
            let title_col: int = 20 + if number_mode {
                4int
            } else {
                0int
            };
            let budget = title_budget(w, title_col, e.pub_date@);
            final(frame).grid() == old(frame).grid().update(
                row as int,
                entry_row(
                    w,
                    *e,
                    rownum as int,
                    is_selected,
                    number_mode,
                    typed as int,
                    has_digits,
                    row_title(*e, is_selected, budget, m),
                    *colors,
                ),
            ) && nd == (if is_selected {
                marquee_title(*e, budget, m).1
            } else {
                m.direction
            })
        }),
{
    let width = frame.width;
    let black = TermColor::Black;
    let bg = if is_selected {
        colors.selected_bg
    } else {
        black
    };
    frame.fill_row(row, CellStyle { fg: bg, bg });
    let ghost base = filled_row(width as nat, Cell { ch: ' ', style: CellStyle { fg: bg, bg } });
    proof {
        assert(frame.grid() == old(frame).grid().update(row as int, base));
    }
    let col_offset: usize = if number_mode {
        4
    } else {
        0
    };
    let ghost st_gutter = CellStyle {
        fg: if typed == rownum && has_digits {
            colors.numberselected
        } else {
            colors.number
        },
        bg: black,
    };
    let ghost numv = spec_row_number(rownum as int);
    let ghost r1 = if number_mode {
        put(
            put(put(base, 1, Cell { ch: numv[0], style: st_gutter }), 2, Cell { ch: numv[1], style: st_gutter }),
            3,
            Cell { ch: numv[2], style: st_gutter },
        )
    } else {
        base
    };
    if number_mode {
        let num = row_number_text(rownum);
        let num_fg = if typed == rownum && has_digits {
            colors.numberselected
        } else {
            colors.number
        };
        let st = CellStyle { fg: num_fg, bg: black };
        frame.set_cell(1, row, num[0], st);
        frame.set_cell(2, row, num[1], st);
        frame.set_cell(3, row, num[2], st);
        proof {
            assert(st == st_gutter);
            assert(frame.grid() =~= old(frame).grid().update(row as int, r1));
        }
    }
    proof {
        assert(frame.grid() == old(frame).grid().update(row as int, r1));
        assert(frame.grid()[row as int] == r1);
    }
    let source_col = 1 + col_offset;
    let source_text = padded_field(e.source_name.as_str());
    let source_display = truncate_to_width(source_text.as_str(), 19);
    let source_style = if is_selected {
        CellStyle { fg: black, bg: colors.selected_bg }
    } else {
        CellStyle { fg: colors.source, bg: black }
    };
    frame.set_string(source_col, row, source_display.as_str(), source_style);
    let ghost r2 = row_write(
        r1,
        1 + col_offset as int,
        crate::text::spec_truncate(seq![' '] + e.source_name@ + seq![' '], 19),
        source_style,
    );
    proof {
        assert(source_display@ == crate::text::spec_truncate(
            seq![' '] + e.source_name@ + seq![' '],
            19,
        ));
        assert(frame.grid() =~= old(frame).grid().update(row as int, r2));
        assert(frame.grid()[row as int] == r2);
    }

    let title_col = 20 + col_offset;
    let date_w = display_width(e.pub_date.as_str());
    let date_field_w = if date_w <= usize::MAX - 2 {
        date_w + 2
    } else {
        usize::MAX
    };
    let title_max_width = if title_col <= width && date_field_w <= width - title_col {
        width - title_col - date_field_w
    } else {
        0
    };
    let ghost budget = title_budget(width as int, title_col as int, e.pub_date@);
    proof {
        assert(title_max_width as int == budget);
    }
    let title_style = if is_selected {
        CellStyle { fg: black, bg: colors.selected_bg }
    } else {
        CellStyle { fg: colors.default_fg, bg: black }
    };
    let title_cols = display_width(e.title.as_str());
    let mut nd = m.direction;
    let title_text: String = if is_selected && title_cols <= 0x7fff_ffff && m.shift
        <= 0x7fff_ffff {
        proof {
            assert(0x7fff_ffff < usize::MAX);
            assert(crate::text::str_cols(e.title@) <= 0x7fff_ffff);
        }
        let rd = slice_text_marquee(e.title.as_str(), title_max_width, m.shift, m.direction);
        nd = rd.1;
        proof {
            assert((rd.0@, rd.1) == marquee_title(*e, budget, m));
        }
        rd.0
    } else {
        proof {
            if is_selected {
                assert(!(crate::text::str_cols(e.title@) <= 0x7fff_ffff && m.shift
                    <= 0x7fff_ffff));
            }
        }
        truncate_to_width(e.title.as_str(), title_max_width)
    };
    let ghost ttext = row_title(*e, is_selected, budget, m);
    proof {
        assert(title_text@ == ttext);
    }
    frame.set_string(title_col - 1, row, " ", title_style);
    let ghost r3 = row_write(r2, title_col as int - 1, seq![' '], title_style);
    proof {
        reveal_strlit(" ");
        assert(" "@ =~= seq![' ']);
        assert(frame.grid() =~= old(frame).grid().update(row as int, r3));
        assert(frame.grid()[row as int] == r3);
    }
    frame.set_string(title_col, row, title_text.as_str(), title_style);
    let ghost r4 = row_write(r3, title_col as int, ttext, title_style);
    proof {
        assert(frame.grid() =~= old(frame).grid().update(row as int, r4));
        assert(frame.grid()[row as int] == r4);
    }

    let date_text = padded_field(e.pub_date.as_str());
    let date_display_w = display_width(date_text.as_str());
    let date_x = if width >= date_display_w {
        width - date_display_w
    } else {
        0
    };
    let date_style = if is_selected {
        CellStyle { fg: black, bg: colors.selected_bg }
    } else {
        CellStyle { fg: colors.time, bg: black }
    };
    frame.set_string(date_x, row, date_text.as_str(), date_style);
    proof {
        let dv = seq![' '] + e.pub_date@ + seq![' '];
        assert(date_text@ == dv);
        assert(date_display_w as int == dw(dv));
        let spec_dx: int = if width as int >= dw(dv) {
            width as int - dw(dv)
        } else {
            0
        };
        assert(date_x as int == spec_dx);
        let r5 = row_write(r4, spec_dx, dv, date_style);
        assert(frame.grid() =~= old(frame).grid().update(row as int, r5));
        assert(r5 == entry_row(
            width as int,
            *e,
            rownum as int,
            is_selected,
            number_mode,
            typed as int,
            has_digits,
            ttext,
            *colors,
        ));
    }
    nd
}

/// The entry rows: a full-width background per row, the index gutter
/// in a numeric jump, the source field, the title (animated by the
/// marquee on the selected row), and the right-aligned date.  Of the
/// state only the marquee direction changes, and only through the
/// selected row's marquee.
pub fn render_entries(frame: &mut Frame, app: &mut App, colors: &ColorScheme)
    requires
        old(frame).wf(),
        old(app).wf(),
        old(frame).width == old(app).terminal_width,
        old(frame).height == old(app).terminal_height,
    ensures
        final(frame).wf(),
        final(frame).width == old(frame).width,
        final(frame).height == old(frame).height,
        final(frame).grid() == spec_entries_cells(old(frame).grid(), *old(app), *colors),
        final(app).wf(),
        final(app).same_but_cursor(old(app)),
        final(app).selected == old(app).selected,
        final(app).marquee.shift == old(app).marquee.shift,
        final(app).marquee.tick_count == old(app).marquee.tick_count,
        final(app).marquee.direction == spec_entries_direction(*old(app)),
{
    let width = frame.width;
    let height = frame.height;
    let row_limit = app.row_limit();
    let is_number_mode = app.input_mode == InputMode::NumberJump;
    let typed: usize = if app.input_number.len() > 0 {
        crate::state::parse_digits(&app.input_number)
    } else {
        0
    };
    let has_digits = app.input_number.len() > 0;
    let ghost target = spec_entries_cells(old(frame).grid(), *old(app), *colors);
    proof {
        assert(target.len() == old(frame).grid().len());
        assert(old(frame).grid().len() == height);
    }
    let mut i: usize = 0;
    while i < row_limit
        invariant
            frame.wf(),
            old(frame).wf(),
            old(app).wf(),
            frame.width == old(frame).width,
            frame.height == old(frame).height,
            app.wf(),
            app.same_but_cursor(old(app)),
            app.selected == old(app).selected,
            app.marquee.shift == old(app).marquee.shift,
            app.marquee.tick_count == old(app).marquee.tick_count,
            app.marquee.direction == dir_after(*old(app), i as int),
            app.entries@ == old(app).entries@,
            app.categories@ == old(app).categories@,
            app.current_category == old(app).current_category,
            app.input_number@ == old(app).input_number@,
            app.input_mode == old(app).input_mode,
            app.marquee.shift == old(app).marquee.shift,
            width == frame.width,
            height == frame.height,
            width == old(app).terminal_width,
            height == old(app).terminal_height,
            width <= 0xffff,
            height <= 0xffff,
            i <= row_limit,
            row_limit <= 999,
            row_limit == old(app).spec_row_limit(),
            is_number_mode == (old(app).input_mode == InputMode::NumberJump),
            typed == crate::state::digits_value(old(app).input_number@),
            has_digits == (old(app).input_number@.len() > 0),
            target == spec_entries_cells(old(frame).grid(), *old(app), *colors),
            target.len() == height,
            forall|rr: int| 1 <= rr < i + 1 ==> #[trigger] frame.grid()[rr] == target[rr],
            forall|rr: int|
                (rr == 0 || i + 1 <= rr < height) ==> #[trigger] frame.grid()[rr] == old(
                    frame,
                ).grid()[rr],
        decreases row_limit - i,
    {
        proof {
            assert(i + 1 < height);
        }
        let row = i + 1;
        let is_selected = !is_number_mode && match app.selected {
            Some(s) => s == i,
            None => false,
        };
        let entry_count = app.current_entry_count();
        if i >= entry_count {
            let bg = if is_selected {
                colors.selected_bg
            } else {
                TermColor::Black
            };
            frame.fill_row(row, CellStyle { fg: bg, bg });
            proof {
                assert(row_selected(*old(app), i as int) == is_selected);
                assert(frame.grid()[row as int] == target[row as int]);
                assert(forall|rr: int|
                    1 <= rr < i + 2 ==> #[trigger] frame.grid()[rr] == target[rr]);
            }
            i = i + 1;
            continue ;
        }
        let e = app.entries[app.current_category][i].duplicate();
        let nd = draw_entry_row(
            frame,
            row,
            &e,
            i + 1,
            is_selected,
            is_number_mode,
            typed,
            has_digits,
            app.marquee,
            colors,
        );
        if is_selected {
            app.marquee.direction = nd;
        }
        proof {
            assert(row_selected(*old(app), i as int) == is_selected);
            assert(e == old(app).entries@[old(app).current_category as int]@[i as int]);
            if is_selected {
                assert(app.marquee.shift == old(app).marquee.shift);
                assert(dir_after(*old(app), i as int) == old(app).marquee.direction);
                assert(app.marquee.direction == dir_after(*old(app), i + 1));
            } else {
                assert(dir_after(*old(app), i + 1) == dir_after(*old(app), i as int));
            }
            assert(frame.grid()[row as int] == target[row as int]);
            assert(forall|rr: int| 1 <= rr < i + 2 ==> #[trigger] frame.grid()[rr] == target[rr]);
            assert(forall|rr: int|
                (rr == 0 || i + 2 <= rr < height) ==> #[trigger] frame.grid()[rr] == old(
                    frame,
                ).grid()[rr]);
        }
        i = i + 1;
    }
    proof {
        assert(dir_after(*old(app), row_limit as int) == spec_entries_direction(*old(app)));
    }
    let first_clear = row_limit + 1;
    let mut r: usize = first_clear;
    while r < height
        invariant
            frame.wf(),
            old(frame).wf(),
            frame.width == old(frame).width,
            frame.height == old(frame).height,
            width == frame.width,
            height == frame.height,
            first_clear == row_limit + 1,
            row_limit == old(app).spec_row_limit(),
            first_clear <= r,
            target == spec_entries_cells(old(frame).grid(), *old(app), *colors),
            target.len() == height,
            forall|rr: int| 1 <= rr < first_clear ==> #[trigger] frame.grid()[rr] == target[rr],
            frame.grid().len() > 0 ==> frame.grid()[0] == old(frame).grid()[0],
            forall|rr: int|
                first_clear <= rr < r ==> #[trigger] frame.grid()[rr] == blank_row(
                    width as nat,
                ),
        decreases height - r,
    {
        frame.fill_row(r, CellStyle { fg: TermColor::Black, bg: TermColor::Black });
        proof {
            assert(frame.grid()[r as int] =~= blank_row(width as nat));
        }
        r = r + 1;
    }
    proof {
        assert(frame.grid() =~= target);
    }
}

/// The help text, line by line.
pub open spec fn help_lines() -> Seq<Seq<char>> {
    seq![
        ""@,
        "            [Up], [Down], [W], [S], [J], [K] : Select from list"@,
        "[Shift]+[Up], [Shift]+[Down], [PgUp], [PgDn] : Quickly select from list"@,
        "                                         [O] : Open canonical link"@,
        "                                         [:] : Select by typing a number from list"@,
        "                        [Tab], [Shift]+[Tab] : Change the category tab"@,
        "                             [Q], [Ctrl]+[C] : Quit"@,
        ""@,
    ]
}

/// The longest help line among the first `i`.
pub open spec fn help_max_len(i: int) -> int
    decreases i,
{
    if i <= 0 {
        0
    } else {
        let l = help_lines()[i - 1].len() as int;
        if l > help_max_len(i - 1) && l <= usize::MAX - 2 {
            l
        } else {
            help_max_len(i - 1)
        }
    }
}

/// One help line laid down: its background strip, then its text.
pub open spec fn help_line_step(
    cells: Seq<Seq<Cell>>,
    i: int,
    top: int,
    left: int,
    bx: int,
    strip: int,
    style: CellStyle,
) -> Seq<Seq<Cell>> {
    let yy = top + i;
    let striped = if 0 <= yy < cells.len() {
        cells.update(yy, spec_fill_span(cells[yy], bx, strip, Cell { ch: ' ', style }))
    } else {
        cells
    };
    grid_write(striped, left, yy, help_lines()[i], style)
}

/// The help lines from `i` on, laid down in order.
pub open spec fn help_acc(
    cells: Seq<Seq<Cell>>,
    i: int,
    top: int,
    left: int,
    bx: int,
    strip: int,
    style: CellStyle,
) -> Seq<Seq<Cell>>
    decreases 8 - i,
{
    if i < 0 || i >= 8 {
        cells
    } else {
        help_acc(help_line_step(cells, i, top, left, bx, strip, style), i + 1, top, left, bx, strip, style)
    }
}

/// What the help overlay leaves: a fully blanked screen with the key
/// list centered on it.
pub open spec fn spec_help_cells(cells0: Seq<Seq<Cell>>, w: int, h: int, style: CellStyle) -> Seq<
    Seq<Cell>,
> {
    let cleared = Seq::new(cells0.len(), |r: int| blank_row(w as nat));
    let strip = help_max_len(8) + 2;
    let top_mid = h / 2;
    let top = if top_mid >= 4 {
        top_mid - 4
    } else {
        0
    };
    let left_mid = w / 2;
    let left = if left_mid >= strip / 2 {
        left_mid - strip / 2
    } else {
        0
    };
    let bx = if left >= 1 {
        left - 1
    } else {
        0
    };
    help_acc(cleared, 0, top, left, bx, strip, style)
}

/// The help overlay: the whole screen cleared, the key list centered.
pub fn render_help(frame: &mut Frame, colors: &ColorScheme)
    requires
        old(frame).wf(),
        old(frame).width <= 0xffff,
        old(frame).height <= 0xffff,
    ensures
        final(frame).wf(),
        final(frame).width == old(frame).width,
        final(frame).height == old(frame).height,
        final(frame).grid() == spec_help_cells(
            old(frame).grid(),
            old(frame).width as int,
            old(frame).height as int,
            CellStyle { fg: colors.alertfg, bg: colors.alertbg },
        ),
{
    let lines: [&'static str; 8] = [
        "",
        "            [Up], [Down], [W], [S], [J], [K] : Select from list",
        "[Shift]+[Up], [Shift]+[Down], [PgUp], [PgDn] : Quickly select from list",
        "                                         [O] : Open canonical link",
        "                                         [:] : Select by typing a number from list",
        "                        [Tab], [Shift]+[Tab] : Change the category tab",
        "                             [Q], [Ctrl]+[C] : Quit",
        "",
    ];
    proof {
        assert(forall|j: int| 0 <= j < 8 ==> #[trigger] lines@[j]@ == help_lines()[j]);
    }
    let clear = CellStyle { fg: TermColor::Black, bg: TermColor::Black };
    let width = frame.width;
    let height = frame.height;
    let mut y: usize = 0;
    while y < height
        invariant
            frame.wf(),
            old(frame).wf(),
            frame.width == old(frame).width,
            frame.height == old(frame).height,
            width == frame.width,
            height == frame.height,
            y <= height,
            clear == (CellStyle { fg: TermColor::Black, bg: TermColor::Black }),
            forall|r: int|
                0 <= r < y ==> #[trigger] frame.grid()[r] == blank_row(width as nat),
            forall|r: int|
                y <= r < height ==> #[trigger] frame.grid()[r] == old(frame).grid()[r],
        decreases height - y,
    {
        frame.fill_row(y, clear);
        proof {
            assert(forall|r: int|
                0 <= r < frame.cells@.len() ==> #[trigger] frame.grid()[r] == frame.cells@[r]@);
            assert(frame.grid()[y as int] =~= blank_row(width as nat));
        }
        y = y + 1;
    }
    let ghost cleared = Seq::new(old(frame).grid().len(), |r: int| blank_row(width as nat));
    proof {
        assert(old(frame).grid().len() == old(frame).cells@.len());
        assert(frame.grid().len() == frame.cells@.len());
        assert(frame.grid() =~= cleared);
    }
    let mut max_width: usize = 0;
    let mut i: usize = 0;
    while i < 8
        invariant
            i <= 8,
            max_width == help_max_len(i as int),
            max_width <= usize::MAX - 2,
            forall|j: int| 0 <= j < 8 ==> #[trigger] lines@[j]@ == help_lines()[j],
        decreases 8 - i,
    {
        let l = str_chars(lines[i]).len();
        if l > max_width && l <= usize::MAX - 2 {
            max_width = l;
        }
        i = i + 1;
    }
    let strip = max_width + 2;
    let top_mid = frame.height / 2;
    let top = if top_mid >= 4 {
        top_mid - 4
    } else {
        0
    };
    let left_mid = frame.width / 2;
    let left = if left_mid >= strip / 2 {
        left_mid - strip / 2
    } else {
        0
    };
    let bx = if left >= 1 {
        left - 1
    } else {
        0
    };
    let style = CellStyle { fg: colors.alertfg, bg: colors.alertbg };
    let mut i: usize = 0;
    while i < 8
        invariant
            frame.wf(),
            old(frame).wf(),
            frame.width == old(frame).width,
            frame.height == old(frame).height,
            width == frame.width,
            height == frame.height,
            width <= 0xffff,
            height <= 0xffff,
            i <= 8,
            strip == help_max_len(8) + 2,
            strip <= usize::MAX,
            top <= height / 2,
            left <= width / 2,
            bx <= left,
            top == (if height as int / 2 >= 4 {
                height as int / 2 - 4
            } else {
                0
            }),
            left == (if width as int / 2 >= strip as int / 2 {
                width as int / 2 - strip as int / 2
            } else {
                0
            }),
            bx == (if left as int >= 1 {
                left as int - 1
            } else {
                0
            }),
            forall|j: int| 0 <= j < 8 ==> #[trigger] lines@[j]@ == help_lines()[j],
            cleared.len() == frame.grid().len(),
            help_acc(cleared, 0, top as int, left as int, bx as int, strip as int, style)
                == help_acc(
                frame.grid(),
                i as int,
                top as int,
                left as int,
                bx as int,
                strip as int,
                style,
            ),
        decreases 8 - i,
    {
        let yy = if top <= usize::MAX - i {
            top + i
        } else {
            usize::MAX
        };
        proof {
            assert(yy as int == top + i);
        }
        let ghost g0 = frame.grid();
        frame.fill_span(bx, yy, strip, ' ', style);
        proof {
            if yy < height {
                assert(frame.grid() == g0.update(
                    yy as int,
                    spec_fill_span(g0[yy as int], bx as int, strip as int, Cell { ch: ' ', style }),
                ));
            } else {
                assert(frame.grid() == g0);
            }
        }
        frame.set_string(left, yy, lines[i], style);
        proof {
            assert(frame.grid() == help_line_step(
                g0,
                i as int,
                top as int,
                left as int,
                bx as int,
                strip as int,
                style,
            ));
        }
        i = i + 1;
    }
    proof {
        assert(help_acc(
            frame.grid(),
            8,
            top as int,
            left as int,
            bx as int,
            strip as int,
            style,
        ) == frame.grid());
        assert(frame.grid() == spec_help_cells(
            old(frame).grid(),
            width as int,
            height as int,
            style,
        ));
    }
}

/// Where the close hint starts inside the modal./// Where the close hint starts inside the modal.
pub open spec fn esc_hint_x(start_x: int, mw: int) -> int {
    start_x + (if mw >= 11 {
        (mw - 11) / 2
    } else {
        0
    })
}

/// One row of the modal region, top to bottom: the cleared segment,
/// dashes on the first and last row, the side pipes, the visible body
/// line truncated to the content width, and the close hint row.
pub open spec fn modal_row(
    row0: Seq<Cell>,
    y: int,
    start_x: int,
    mw: int,
    mh: int,
    lines: Seq<Seq<char>>,
    scroll: int,
    bg: CellStyle,
    border: CellStyle,
    esc_style: CellStyle,
) -> Seq<Cell> {
    let cleared = spec_fill_span(row0, start_x, mw, Cell { ch: ' ', style: bg });
    let dashed = if y == 0 || y == mh - 1 {
        spec_fill_span(cleared, start_x, mw, Cell { ch: '-', style: border })
    } else {
        cleared
    };
    let piped0 = put(dashed, start_x, Cell { ch: '|', style: border });
    let piped = if mw >= 1 {
        put(piped0, start_x + mw - 1, Cell { ch: '|', style: border })
    } else {
        piped0
    };
    let content_height = if mh >= 3 {
        mh - 3
    } else {
        0
    };
    let cw = if mw >= 4 {
        mw - 4
    } else {
        0
    };
    let with_content = if 1 <= y && y - 1 < content_height && scroll + (y - 1) < lines.len() {
        row_write(
            piped,
            start_x + 2,
            crate::text::spec_truncate(lines[scroll + y - 1], cw),
            bg,
        )
    } else {
        piped
    };
    if mh >= 2 && y == mh - 2 {
        row_write(with_content, esc_hint_x(start_x, mw), "[ESC] Close"@, esc_style)
    } else {
        with_content
    }
}

/// What the modal leaves: each row of the centered four-fifths region
/// redrawn by `modal_row`; for a degenerate region of fewer than two
/// rows the close hint lands above it, as the row arithmetic places it.
pub open spec fn spec_modal_cells(
    cells0: Seq<Seq<Cell>>,
    w: int,
    h: int,
    lines: Seq<Seq<char>>,
    scroll: int,
    colors: ColorScheme,
) -> Seq<Seq<Cell>> {
    let mw = w * 8 / 10;
    let mh = h * 8 / 10;
    let sx = (w - mw) / 2;
    let sy = (h - mh) / 2;
    let bg = CellStyle { fg: colors.categoryfg, bg: colors.categorybg };
    let border = CellStyle { fg: colors.categoryfg_s, bg: colors.categorybg };
    let esc_style = CellStyle { fg: colors.categoryfg_s, bg: colors.categorybg_s };
    let rows = Seq::new(
        cells0.len(),
        |r: int|
            if sy <= r < sy + mh {
                modal_row(cells0[r], r - sy, sx, mw, mh, lines, scroll, bg, border, esc_style)
            } else {
                cells0[r]
            },
    );
    if mh < 2 && sy + mh >= 2 {
        grid_write(rows, esc_hint_x(sx, mw), sy + mh - 2, "[ESC] Close"@, esc_style)
    } else {
        rows
    }
}

/// Draws one row of the modal region.
#[verifier::rlimit(60)]
fn draw_modal_row(
    frame: &mut Frame,
    y: usize,
    start_x: usize,
    start_y: usize,
    mw: usize,
    mh: usize,
    lines: &Vec<String>,
    scroll: usize,
    bg: CellStyle,
    border: CellStyle,
    esc_style: CellStyle,
)
    requires
        old(frame).wf(),
        old(frame).width <= 0xffff,
        y < mh,
        start_y + mh <= old(frame).height,
        start_x + mw <= old(frame).width,
    ensures
        final(frame).wf(),
        final(frame).width == old(frame).width,
        final(frame).height == old(frame).height,
        final(frame).grid() == old(frame).grid().update(
            start_y + y as int,
            modal_row(
                old(frame).grid()[start_y + y as int],
                y as int,
                start_x as int,
                mw as int,
                mh as int,
                lines@.map_values(|l: String| l@),
                scroll as int,
                bg,
                border,
                esc_style,
            ),
        ),
{
    let py = start_y + y;
    frame.fill_span(start_x, py, mw, ' ', bg);
    let ghost cleared = spec_fill_span(
        old(frame).grid()[py as int],
        start_x as int,
        mw as int,
        Cell { ch: ' ', style: bg },
    );
    proof {
        assert(frame.grid() == old(frame).grid().update(py as int, cleared));
    }
    if y == 0 || y == mh - 1 {
        frame.fill_span(start_x, py, mw, '-', border);
    }
    let ghost dashed = if y as int == 0 || y as int == mh as int - 1 {
        spec_fill_span(cleared, start_x as int, mw as int, Cell { ch: '-', style: border })
    } else {
        cleared
    };
    proof {
        assert(frame.grid() =~= old(frame).grid().update(py as int, dashed));
        assert(frame.grid()[py as int] == dashed);
    }
    frame.set_cell(start_x, py, '|', border);
    let ghost piped0 = put(dashed, start_x as int, Cell { ch: '|', style: border });
    proof {
        assert(frame.grid() =~= old(frame).grid().update(py as int, piped0));
    }
    if mw >= 1 {
        frame.set_cell(start_x + mw - 1, py, '|', border);
    }
    let ghost piped = if mw >= 1 {
        put(piped0, start_x as int + mw as int - 1, Cell { ch: '|', style: border })
    } else {
        piped0
    };
    proof {
        assert(frame.grid() =~= old(frame).grid().update(py as int, piped));
        assert(frame.grid()[py as int] == piped);
    }
    let content_height = if mh >= 3 {
        mh - 3
    } else {
        0
    };
    let cw = if mw >= 4 {
        mw - 4
    } else {
        0
    };
    let ghost lv = lines@.map_values(|l: String| l@);
    let nlines = lines.len();
    proof {
        assert(lv.len() == nlines);
        assert(forall|j: int| 0 <= j < lines@.len() ==> #[trigger] lv[j] == lines@[j]@);
    }
    let mut wrote_content = false;
    if 1 <= y && y - 1 < content_height && scroll <= usize::MAX - (y - 1) && scroll + (y - 1)
        < lines.len() {
        let line = truncate_to_width(lines[scroll + y - 1].as_str(), cw);
        frame.set_string(start_x + 2, py, line.as_str(), bg);
        wrote_content = true;
        proof {
            assert(lv[scroll + y - 1] == lines@[scroll + y - 1]@);
        }
    }
    let ghost with_content = if 1 <= y as int && y as int - 1 < content_height as int && scroll
        + (y as int - 1) < lv.len() {
        row_write(
            piped,
            start_x as int + 2,
            crate::text::spec_truncate(lv[scroll + y - 1], cw as int),
            bg,
        )
    } else {
        piped
    };
    proof {
        if !wrote_content {
            if 1 <= y && y - 1 < content_height && scroll > usize::MAX - (y - 1) {
                assert(scroll + (y as int - 1) > usize::MAX >= lv.len());
            }
            assert(!(1 <= y as int && y as int - 1 < content_height as int && scroll + (
            y as int - 1) < lv.len()));
        }
        assert(frame.grid() =~= old(frame).grid().update(py as int, with_content));
        assert(frame.grid()[py as int] == with_content);
    }
    if mh >= 2 && y == mh - 2 {
        let esc_x = start_x + (if mw >= 11 {
            (mw - 11) / 2
        } else {
            0
        });
        frame.set_string(esc_x, py, "[ESC] Close", esc_style);
        proof {
            assert(esc_x as int == esc_hint_x(start_x as int, mw as int));
            assert(frame.grid() =~= old(frame).grid().update(
                py as int,
                row_write(with_content, esc_hint_x(start_x as int, mw as int), "[ESC] Close"@, esc_style),
            ));
        }
    }
    proof {
        assert(frame.grid() =~= old(frame).grid().update(
            py as int,
            modal_row(
                old(frame).grid()[py as int],
                y as int,
                start_x as int,
                mw as int,
                mh as int,
                lv,
                scroll as int,
                bg,
                border,
                esc_style,
            ),
        ));
    }
}

/// The summary modal: a centered four-fifths region with borders, the
/// wrapped text from the current scroll, and a close hint.
pub fn render_modal(frame: &mut Frame, app: &App, colors: &ColorScheme)
    requires
        old(frame).wf(),
        app.wf(),
        old(frame).width == app.terminal_width,
        old(frame).height == app.terminal_height,
        old(frame).width <= 0xffff,
        old(frame).height <= 0xffff,
    ensures
        final(frame).wf(),
        final(frame).width == old(frame).width,
        final(frame).height == old(frame).height,
        final(frame).grid() == spec_modal_cells(
            old(frame).grid(),
            app.terminal_width as int,
            app.terminal_height as int,
            app.modal_text@.map_values(|l: String| l@),
            app.modal_scroll as int,
            *colors,
        ),
{
    let width = frame.width;
    let height = frame.height;
    let modal_width = width * 8 / 10;
    let modal_height = height * 8 / 10;
    proof {
        assert(modal_width <= width && modal_height <= height);
    }
    let start_x = (width - modal_width) / 2;
    let start_y = (height - modal_height) / 2;
    proof {
        assert(start_x + modal_width <= width);
        assert(start_y + modal_height <= height);
    }
    let bg_style = CellStyle { fg: colors.categoryfg, bg: colors.categorybg };
    let border_style = CellStyle { fg: colors.categoryfg_s, bg: colors.categorybg };
    let esc_style = CellStyle { fg: colors.categoryfg_s, bg: colors.categorybg_s };
    let ghost lv = app.modal_text@.map_values(|l: String| l@);
    let ghost rows_target = Seq::new(
        old(frame).grid().len(),
        |r: int|
            if start_y <= r < start_y + modal_height {
                modal_row(
                    old(frame).grid()[r],
                    r - start_y,
                    start_x as int,
                    modal_width as int,
                    modal_height as int,
                    lv,
                    app.modal_scroll as int,
                    bg_style,
                    border_style,
                    esc_style,
                )
            } else {
                old(frame).grid()[r]
            },
    );
    proof {
        assert(old(frame).grid().len() == old(frame).cells@.len());
        assert(old(frame).grid().len() == height);
    }
    let mut y: usize = 0;
    while y < modal_height
        invariant
            frame.wf(),
            old(frame).wf(),
            frame.width == old(frame).width,
            frame.height == old(frame).height,
            width == frame.width,
            height == frame.height,
            width <= 0xffff,
            height <= 0xffff,
            modal_width == width * 8 / 10,
            modal_height == height * 8 / 10,
            start_x == (width - modal_width) / 2,
            start_y == (height - modal_height) / 2,
            start_x + modal_width <= width,
            start_y + modal_height <= height,
            y <= modal_height,
            lv == app.modal_text@.map_values(|l: String| l@),
            rows_target.len() == old(frame).grid().len(),
            old(frame).grid().len() == height,
            rows_target == Seq::new(
                old(frame).grid().len(),
                |r: int|
                    if start_y <= r < start_y + modal_height {
                        modal_row(
                            old(frame).grid()[r],
                            r - start_y,
                            start_x as int,
                            modal_width as int,
                            modal_height as int,
                            lv,
                            app.modal_scroll as int,
                            bg_style,
                            border_style,
                            esc_style,
                        )
                    } else {
                        old(frame).grid()[r]
                    },
            ),
            forall|r: int|
                start_y <= r < start_y + y ==> #[trigger] frame.grid()[r] == rows_target[r],
            forall|r: int|
                (0 <= r < start_y || start_y + y <= r < height) ==> #[trigger] frame.grid()[r]
                    == old(frame).grid()[r],
        decreases modal_height - y,
    {
        let ghost pre = frame.grid();
        proof {
            assert(pre.len() == frame.cells@.len());
            assert(pre.len() == height);
            assert(start_y + y < height);
            assert(pre[start_y + y as int] == old(frame).grid()[start_y + y as int]);
        }
        draw_modal_row(
            frame,
            y,
            start_x,
            start_y,
            modal_width,
            modal_height,
            &app.modal_text,
            app.modal_scroll,
            bg_style,
            border_style,
            esc_style,
        );
        proof {
            assert(rows_target[start_y + y as int] == modal_row(
                old(frame).grid()[start_y + y as int],
                y as int,
                start_x as int,
                modal_width as int,
                modal_height as int,
                lv,
                app.modal_scroll as int,
                bg_style,
                border_style,
                esc_style,
            ));
            assert(frame.grid()[start_y + y as int] == rows_target[start_y + y as int]);
        }
        y = y + 1;
    }
    if modal_height < 2 && start_y + modal_height >= 2 {
        let esc_x = start_x + (if modal_width >= 11 {
            (modal_width - 11) / 2
        } else {
            0
        });
        let esc_y = start_y + modal_height - 2;
        frame.set_string(esc_x, esc_y, "[ESC] Close", esc_style);
        proof {
            assert(esc_x as int == esc_hint_x(start_x as int, modal_width as int));
            assert(frame.grid() == grid_write(
                rows_target,
                esc_hint_x(start_x as int, modal_width as int),
                start_y + modal_height - 2,
                "[ESC] Close"@,
                esc_style,
            ));
        }
    }
    proof {
        assert(frame.grid().len() == rows_target.len());
        if modal_height < 2 && start_y + modal_height >= 2 {
            assert(frame.grid() =~= spec_modal_cells(
                old(frame).grid(),
                width as int,
                height as int,
                lv,
                app.modal_scroll as int,
                *colors,
            ));
        } else {
            assert(frame.grid() =~= rows_target);
            assert(frame.grid() =~= spec_modal_cells(
                old(frame).grid(),
                width as int,
                height as int,
                lv,
                app.modal_scroll as int,
                *colors,
            ));
        }
    }
}

/// The modal lines after a width change re-wraps them.
pub open spec fn rewrapped_lines(a: App) -> Seq<Seq<char>> {
    if a.modal_wrapped_width == a.terminal_width || a.modal_raw_text@.len() == 0 {
        a.modal_text@.map_values(|l: String| l@)
    } else {
        crate::text::spec_wrap_text(
            a.modal_raw_text@,
            crate::state::modal_content_width(a.terminal_width as int),
        )
    }
}

/// The modal scroll after a width change clamps it.
pub open spec fn rewrapped_scroll(a: App) -> int {
    if a.modal_wrapped_width == a.terminal_width || a.modal_raw_text@.len() == 0 {
        a.modal_scroll as int
    } else {
        crate::state::clamped_scroll(
            a.modal_scroll as int,
            rewrapped_lines(a).len() as int,
            a.spec_modal_page(),
        )
    }
}

/// What one whole frame holds: the help overlay alone when open; else
/// the category bar, the entry rows, the alert strip for loading,
/// translating or summarizing, and the modal over everything.
pub open spec fn spec_frame_cells(
    a: App,
    colors: ColorScheme,
    loading_now: bool,
    translating: bool,
) -> Seq<Seq<Cell>> {
    let w = a.terminal_width as int;
    let h = a.terminal_height as int;
    let g0 = Seq::new(h as nat, |r: int| blank_row(w as nat));
    let alert_style = CellStyle { fg: colors.alertfg, bg: colors.alertbg };
    if a.show_help {
        spec_help_cells(g0, w, h, alert_style)
    } else {
        let g1 = spec_bar(g0, a.categories@, a.current_category as int, w, colors);
        let g2 = spec_entries_cells(g1, a, colors);
        let g3 = if loading_now {
            spec_alert(g2, w, "LOADING"@, alert_style)
        } else if translating {
            spec_alert(g2, w, "TRANSLATING..."@, alert_style)
        } else {
            g2
        };
        let g4 = if a.summarizing {
            spec_alert(g3, w, "SUMMARIZING WITH GEMINI..."@, alert_style)
        } else {
            g3
        };
        if a.show_modal {
            spec_modal_cells(g4, w, h, rewrapped_lines(a), rewrapped_scroll(a), colors)
        } else {
            g4
        }
    }
}

/// One whole frame: the help overlay alone when open, else the
/// category bar, the entry rows, the alert strip for loading,
/// translating or summarizing, and the modal on top, re-wrapped if the
/// terminal width changed.  Of the state only the marquee direction
/// and the modal wrap may change.
pub fn render_frame(
    app: &mut App,
    colors: &ColorScheme,
    loading: &LoadingState,
    translating: bool,
) -> (frame: Frame)
    requires
        old(app).wf(),
    ensures
        frame.wf(),
        frame.width == old(app).terminal_width,
        frame.height == old(app).terminal_height,
        frame.grid() == spec_frame_cells(*old(app), *colors, loading.is_loading, translating),
        final(app).wf(),
        old(app).show_help ==> *final(app) == *old(app),
        !old(app).show_help ==> final(app).marquee.direction == spec_entries_direction(
            *old(app),
        ),
        final(app).marquee.shift == old(app).marquee.shift,
        final(app).marquee.tick_count == old(app).marquee.tick_count,
        final(app).selected == old(app).selected,
        final(app).entries@ == old(app).entries@,
        final(app).categories@ == old(app).categories@,
        final(app).current_category == old(app).current_category,
        final(app).terminal_width == old(app).terminal_width,
        final(app).terminal_height == old(app).terminal_height,
        !old(app).show_help && old(app).show_modal ==> final(app).modal_text@.map_values(
            |l: String| l@,
        ) == rewrapped_lines(*old(app)) && final(app).modal_scroll == rewrapped_scroll(
            *old(app),
        ),
{
    let mut frame = Frame::new(app.terminal_width, app.terminal_height);
    if app.show_help {
        render_help(&mut frame, colors);
        proof {
            assert(frame.grid() == spec_frame_cells(
                *old(app),
                *colors,
                loading.is_loading,
                translating,
            ));
        }
        return frame;
    }
    render_category_bar(&mut frame, app, colors);
    render_entries(&mut frame, app, colors);
    if loading.is_loading {
        render_alert(&mut frame, colors, "LOADING");
    } else if translating {
        render_alert(&mut frame, colors, "TRANSLATING...");
    }
    if app.summarizing {
        render_alert(&mut frame, colors, "SUMMARIZING WITH GEMINI...");
    }
    if app.show_modal {
        app.rewrap_modal();
        proof {
            assert(app.modal_text@.map_values(|l: String| l@) == rewrapped_lines(*old(app)));
            assert(app.modal_scroll as int == rewrapped_scroll(*old(app)));
        }
        render_modal(&mut frame, app, colors);
    }
    proof {
        assert(frame.grid() == spec_frame_cells(
            *old(app),
            *colors,
            loading.is_loading,
            translating,
        ));
    }
    frame
}

} // verus!
