use vstd::prelude::*;
use crate::scrollback::{line_text, lines_view, min_nat, sat_sub, ScrollbackBuffer, ScrollbackView};

verus! {

/// An RGB triple.
#[derive(Clone, Copy, Debug, PartialEq, Eq, Structural)]
pub struct Color {
    pub r: u8,
    pub g: u8,
    pub b: u8,
}

/// The sixteen base colours of the palette: eight normal, then eight bright.
pub open spec fn base_palette(n: u8) -> Color
    recommends
        n < 16,
{
    if n == 0 { Color { r: 0, g: 0, b: 0 } }
    else if n == 1 { Color { r: 205, g: 49, b: 49 } }
    else if n == 2 { Color { r: 13, g: 188, b: 121 } }
    else if n == 3 { Color { r: 229, g: 229, b: 16 } }
    else if n == 4 { Color { r: 36, g: 114, b: 200 } }
    else if n == 5 { Color { r: 188, g: 63, b: 188 } }
    else if n == 6 { Color { r: 17, g: 168, b: 205 } }
    else if n == 7 { Color { r: 229, g: 229, b: 229 } }
    else if n == 8 { Color { r: 102, g: 102, b: 102 } }
    else if n == 9 { Color { r: 241, g: 76, b: 76 } }
    else if n == 10 { Color { r: 35, g: 209, b: 139 } }
    else if n == 11 { Color { r: 245, g: 245, b: 67 } }
    else if n == 12 { Color { r: 59, g: 142, b: 234 } }
    else if n == 13 { Color { r: 214, g: 112, b: 214 } }
    else if n == 14 { Color { r: 41, g: 184, b: 219 } }
    else { Color { r: 255, g: 255, b: 255 } }
}

/// The colour of a 256-colour palette index: the base colours, then the
/// 6x6x6 cube (each axis in steps of 51), then a 24-step grey ramp.
pub open spec fn ansi_color(n: u8) -> Color {
    if n < 16 {
        base_palette(n)
    } else if n < 232 {
        let i = n - 16;
        Color { r: ((i / 36) * 51) as u8, g: (((i / 6) % 6) * 51) as u8, b: ((i % 6) * 51) as u8 }
    } else {
        let gray = (8 + (n - 232) * 10) as u8;
        Color { r: gray, g: gray, b: gray }
    }
}

impl Color {

    /// The colour of palette index `n`; every index has one.
    pub fn from_ansi(n: u8) -> (c: Color)
        ensures
            c == ansi_color(n),
    {
        match n {
            0 => Color { r: 0, g: 0, b: 0 },
            1 => Color { r: 205, g: 49, b: 49 },
            2 => Color { r: 13, g: 188, b: 121 },
            3 => Color { r: 229, g: 229, b: 16 },
            4 => Color { r: 36, g: 114, b: 200 },
            5 => Color { r: 188, g: 63, b: 188 },
            6 => Color { r: 17, g: 168, b: 205 },
            7 => Color { r: 229, g: 229, b: 229 },
            8 => Color { r: 102, g: 102, b: 102 },
            9 => Color { r: 241, g: 76, b: 76 },
            10 => Color { r: 35, g: 209, b: 139 },
            11 => Color { r: 245, g: 245, b: 67 },
            12 => Color { r: 59, g: 142, b: 234 },
            13 => Color { r: 214, g: 112, b: 214 },
            14 => Color { r: 41, g: 184, b: 219 },
            15 => Color { r: 255, g: 255, b: 255 },
            16..=231 => {
                let idx = n - 16;
                Color { r: (idx / 36) * 51, g: ((idx / 6) % 6) * 51, b: (idx % 6) * 51 }
            },
            _ => {
                let gray = 8 + (n - 232) * 10;
                Color { r: gray, g: gray, b: gray }
            },
        }
    }
}


/// The colour used for text when none was chosen.
pub open spec fn default_fg() -> Color {
    Color { r: 229, g: 229, b: 229 }
}

/// The colour used behind text when none was chosen.
pub open spec fn default_bg() -> Color {
    Color { r: 0, g: 0, b: 0 }
}

impl Default for Color {
    fn default() -> (c: Color)
        ensures
            c == default_fg(),
    {
        Color { r: 229, g: 229, b: 229 }
    }
}

/// One position of the grid: a character (`'\0'` when empty), its colours
/// and its style.
#[derive(Clone, Copy, Debug, PartialEq, Eq, Structural)]
pub struct Cell {
    pub ch: char,
    pub fg: Color,
    pub bg: Color,
    pub bold: bool,
    pub italic: bool,
    pub underline: bool,
}

/// The empty cell.
pub open spec fn blank_cell() -> Cell {
    Cell { ch: '\0', fg: default_fg(), bg: default_bg(), bold: false, italic: false, underline: false }
}

impl Default for Cell {
    fn default() -> (c: Cell)
        ensures
            c == blank_cell(),
    {
        Cell {
            ch: '\0',
            fg: Color::default(),
            bg: Color::from_ansi(0),
            bold: false,
            italic: false,
            underline: false,
        }
    }
}

/// How a cell's character reads as text: an empty cell reads as a space.
pub open spec fn display_char(c: char) -> char {
    if c == '\0' { ' ' } else { c }
}


/// The attributes that the next printed character takes.
pub struct Pen {
    pub fg: Color,
    pub bg: Color,
    pub bold: bool,
    pub italic: bool,
    pub underline: bool,
}

pub open spec fn default_pen() -> Pen {
    Pen { fg: default_fg(), bg: default_bg(), bold: false, italic: false, underline: false }
}

/// `ch` drawn with the attributes of `pen`.
pub open spec fn styled(ch: char, pen: Pen) -> Cell {
    Cell { ch, fg: pen.fg, bg: pen.bg, bold: pen.bold, italic: pen.italic, underline: pen.underline }
}

/// A dimension of at least one: a grid is never empty.
pub open spec fn at_least_one(n: nat) -> nat {
    if n == 0 { 1 } else { n }
}

/// The columns that a character takes: its display width where known,
/// at least one and at most two.
pub open spec fn columns_of(w: Option<usize>) -> nat {
    match w {
        Some(n) => if n >= 2 { 2 } else { 1 },
        None => 1,
    }
}

/// The state of a grid: its size, its cells row by row, the cursor, the pen
/// and the scrollback.
pub struct GridView {
    pub cols: nat,
    pub rows: nat,
    pub cells: Seq<Cell>,
    pub x: nat,
    pub y: nat,
    pub pen: Pen,
    pub scrollback: ScrollbackView,
}

/// A parameter taken as a colour component: its low eight bits.
pub open spec fn low_byte(v: u16) -> u8 {
    (v % 256) as u8
}

/// The first value of a parameter, if it has one.
pub open spec fn first_of(p: Seq<u16>) -> Option<u16> {
    if p.len() > 0 { Some(p[0]) } else { None }
}

/// The pen after one SGR code.
pub open spec fn sgr_code(pen: Pen, n: u16) -> Pen {
    if n == 0 { default_pen() }
    else if n == 1 { Pen { bold: true, ..pen } }
    else if n == 3 { Pen { italic: true, ..pen } }
    else if n == 4 { Pen { underline: true, ..pen } }
    else if n == 22 { Pen { bold: false, ..pen } }
    else if n == 23 { Pen { italic: false, ..pen } }
    else if n == 24 { Pen { underline: false, ..pen } }
    else if 30 <= n <= 37 { Pen { fg: ansi_color((n - 30) as u8), ..pen } }
    else if n == 39 { Pen { fg: default_fg(), ..pen } }
    else if 40 <= n <= 47 { Pen { bg: ansi_color((n - 40) as u8), ..pen } }
    else if n == 49 { Pen { bg: default_bg(), ..pen } }
    else if 90 <= n <= 97 { Pen { fg: ansi_color((n - 90 + 8) as u8), ..pen } }
    else if 100 <= n <= 107 { Pen { bg: ansi_color((n - 100 + 8) as u8), ..pen } }
    else { pen }
}

/// The colour that the parameters from `next` on give after a 38 or 48,
/// and where the parameters after it start: `5;N` is palette index N,
/// `2;R;G;B` an RGB triple. An incomplete form gives no colour and takes
/// what there is of it; any other kind takes just itself.
pub open spec fn extended_color(ps: Seq<Seq<u16>>, next: int) -> (Option<Color>, int) {
    if next < 0 || next >= ps.len() {
        (None, next)
    } else if first_of(ps[next]) == Some(2u16) {
        if next + 3 < ps.len() && ps[next + 1].len() > 0 && ps[next + 2].len() > 0 && ps[next + 3].len() > 0 {
            (Some(Color { r: low_byte(ps[next + 1][0]), g: low_byte(ps[next + 2][0]), b: low_byte(ps[next + 3][0]) }), next + 4)
        } else {
            (None, if next + 4 < ps.len() { next + 4 } else { ps.len() as int })
        }
    } else if first_of(ps[next]) == Some(5u16) {
        if next + 1 < ps.len() && ps[next + 1].len() > 0 {
            (Some(ansi_color(low_byte(ps[next + 1][0]))), next + 2)
        } else {
            (None, if next + 2 < ps.len() { next + 2 } else { ps.len() as int })
        }
    } else {
        (None, next + 1)
    }
}

/// The pen after the codes of `cur` from `j` on, then the parameters from
/// `next` on. Each value of a parameter is a code; a 38 or 48 takes its
/// colour from the parameters that follow.
pub open spec fn sgr_from(pen: Pen, ps: Seq<Seq<u16>>, next: int, cur: Seq<u16>, j: int) -> Pen
    decreases ps.len() - next, cur.len() - j,
{
    if 0 <= j < cur.len() {
        let n = cur[j];
        if (n == 38 || n == 48) && 0 <= next <= ps.len() {
            let (color, after) = extended_color(ps, next);
            let pen2 = match color {
                Some(c) => if n == 38 { Pen { fg: c, ..pen } } else { Pen { bg: c, ..pen } },
                None => pen,
            };
            if after >= next {
                sgr_from(pen2, ps, after, cur, j + 1)
            } else {
                pen2
            }
        } else {
            sgr_from(sgr_code(pen, n), ps, next, cur, j + 1)
        }
    } else if 0 <= next < ps.len() {
        sgr_from(pen, ps, next + 1, ps[next], 0)
    } else {
        pen
    }
}

/// The pen after the SGR parameters `ps`.
pub open spec fn sgr(pen: Pen, ps: Seq<Seq<u16>>) -> Pen {
    sgr_from(pen, ps, 0, Seq::empty(), 0)
}

pub open spec fn params_view(ps: Seq<Vec<u16>>) -> Seq<Seq<u16>> {
    ps.map_values(|p: Vec<u16>| p@)
}

pub uninterp spec fn display_width(c: char) -> Option<usize>;

/// Relies on `unicode_width::UnicodeWidthChar::width`: the columns that `c`
/// takes on a terminal, `None` for a control character.
#[verifier::external_body]
fn char_width(c: char) -> (r: Option<usize>)
    ensures
        r == display_width(c),
{
    unicode_width::UnicodeWidthChar::width(c)
}

/// The capacity of the scrollback of a new grid.
pub const SCROLLBACK_LINES: usize = 10000;

/// A new grid: every cell empty, the cursor home, the default pen.
pub open spec fn initial_grid(cols: nat, rows: nat) -> GridView {
    let c = at_least_one(cols);
    let r = at_least_one(rows);
    GridView {
        cols: c,
        rows: r,
        cells: Seq::new(c * r, |i: int| blank_cell()),
        x: 0,
        y: 0,
        pen: default_pen(),
        scrollback: ScrollbackView { lines: Seq::empty(), max_lines: SCROLLBACK_LINES as nat, offset: 0 },
    }
}

impl GridView {
    pub open spec fn wf(self) -> bool {
        &&& self.cols >= 1
        &&& self.rows >= 1
        &&& self.cells.len() == self.cols * self.rows
        &&& self.x < self.cols
        &&& self.y < self.rows
        &&& self.scrollback.wf()
    }

    /// Where the cell of column `x` and row `y` is stored.
    pub open spec fn idx(self, x: int, y: int) -> int {
        y * self.cols + x
    }

    pub open spec fn cell(self, x: int, y: int) -> Cell {
        self.cells[self.idx(x, y)]
    }

    /// The cells of row `r`.
    pub open spec fn row(self, r: int) -> Seq<Cell> {
        self.cells.subrange(r * self.cols, r * self.cols + self.cols)
    }

    pub open spec fn with_cells(self, cells: Seq<Cell>) -> GridView {
        GridView { cells, ..self }
    }

    pub open spec fn with_cursor(self, x: nat, y: nat) -> GridView {
        GridView { x, y, ..self }
    }

    /// The cells at `lo..hi` set to `c`.
    pub open spec fn filled(self, lo: int, hi: int, c: Cell) -> GridView {
        self.with_cells(Seq::new(self.cells.len(), |i: int| if lo <= i < hi { c } else { self.cells[i] }))
    }

    /// The cells at `lo..hi` made empty.
    pub open spec fn blanked(self, lo: int, hi: int) -> GridView {
        self.filled(lo, hi, blank_cell())
    }

    pub open spec fn with_pen(self, pen: Pen) -> GridView {
        GridView { pen, ..self }
    }

    /// The column of the next tab stop (every eight columns), no further
    /// than the last column.
    pub open spec fn tab_stop(self) -> nat {
        let s = (self.x / 8 + 1) * 8;
        if s < self.cols - 1 { s } else { (self.cols - 1) as nat }
    }

    /// Spaces drawn with the pen up to the next tab stop, where the cursor
    /// goes.
    pub open spec fn tab(self) -> GridView {
        let s = self.tab_stop();
        if self.x < s {
            self.filled(self.idx(self.x as int, self.y as int), self.idx(s as int, self.y as int), styled(' ', self.pen))
                .with_cursor(s, self.y)
        } else {
            self
        }
    }

    /// One column left, unless at the first.
    pub open spec fn backspace(self) -> GridView {
        if self.x > 0 { self.with_cursor((self.x - 1) as nat, self.y) } else { self }
    }

    /// The cursor at the 1-based `row` and `col` (zero counts as one),
    /// clamped to the grid.
    pub open spec fn cursor_position(self, row: nat, col: nat) -> GridView {
        let r = sat_sub(row, 1);
        let c = sat_sub(col, 1);
        self.with_cursor(
            if c < self.cols { c } else { (self.cols - 1) as nat },
            if r < self.rows { r } else { (self.rows - 1) as nat },
        )
    }

    pub open spec fn cursor_up(self, n: nat) -> GridView {
        self.with_cursor(self.x, sat_sub(self.y, n))
    }

    pub open spec fn cursor_down(self, n: nat) -> GridView {
        self.with_cursor(self.x, if self.y + n < self.rows { self.y + n } else { (self.rows - 1) as nat })
    }

    pub open spec fn cursor_forward(self, n: nat) -> GridView {
        self.with_cursor(if self.x + n < self.cols { self.x + n } else { (self.cols - 1) as nat }, self.y)
    }

    pub open spec fn cursor_back(self, n: nat) -> GridView {
        self.with_cursor(sat_sub(self.x, n), self.y)
    }

    /// Erase in display: 0 from the cursor to the end of the screen, 1 from
    /// the start of the screen to the cursor inclusive, 2 the whole screen
    /// with the cursor sent home; any other mode does nothing.
    pub open spec fn erase_in_display(self, mode: nat) -> GridView {
        let at = self.idx(self.x as int, self.y as int);
        if mode == 0 {
            self.blanked(at, self.cells.len() as int)
        } else if mode == 1 {
            self.blanked(0, at + 1)
        } else if mode == 2 {
            self.blanked(0, self.cells.len() as int).with_cursor(0, 0)
        } else {
            self
        }
    }

    /// Erase in line: 0 from the cursor to the end of its row, 1 from the
    /// start of the row to the cursor inclusive, 2 the whole row; the cursor
    /// stays; any other mode does nothing.
    pub open spec fn erase_in_line(self, mode: nat) -> GridView {
        let at = self.idx(self.x as int, self.y as int);
        let start = self.idx(0, self.y as int);
        let end = self.idx(0, self.y + 1 as int);
        if mode == 0 {
            self.blanked(at, end)
        } else if mode == 1 {
            self.blanked(start, at + 1)
        } else if mode == 2 {
            self.blanked(start, end)
        } else {
            self
        }
    }

    pub open spec fn carriage_return(self) -> GridView {
        self.with_cursor(0, self.y)
    }

    /// Down one row; on the last row the top row goes to the scrollback and
    /// every row moves up one, leaving an empty bottom row.
    pub open spec fn line_feed(self) -> GridView {
        if self.y + 1 < self.rows {
            self.with_cursor(self.x, self.y + 1)
        } else {
            GridView {
                cells: self.cells.skip(self.cols as int) + Seq::new(self.cols, |i: int| blank_cell()),
                scrollback: self.scrollback.push(self.cells.take(self.cols as int)),
                ..self
            }
        }
    }

    /// Carriage return, then line feed.
    pub open spec fn newline(self) -> GridView {
        self.carriage_return().line_feed()
    }

    /// Prints `ch`, whose display width is `w`, at the cursor with the pen.
    /// A character that does not fit in the rest of the row goes to the start
    /// of the next one; the column after a wide character is left empty; when
    /// the cursor passes the last column it wraps to the next row.
    pub open spec fn put(self, ch: char, w: Option<usize>) -> GridView {
        let width = columns_of(w);
        let g = if self.x + width > self.cols && self.x > 0 { self.newline() } else { self };
        let i = g.idx(g.x as int, g.y as int);
        let cells1 = g.cells.update(i, styled(ch, g.pen));
        let cells2 = if width == 2 && g.x + 1 < g.cols { cells1.update(i + 1, styled('\0', g.pen)) } else { cells1 };
        let h = g.with_cells(cells2);
        if g.x + width >= g.cols { h.newline() } else { h.with_cursor(g.x + width, g.y) }
    }
}

/// The text of `ls`, each line followed by a newline.
pub open spec fn lines_text(ls: Seq<Seq<Cell>>) -> Seq<char>
    decreases ls.len(),
{
    if ls.len() == 0 {
        Seq::empty()
    } else {
        lines_text(ls.drop_last()) + line_text(ls.last()) + seq!['\n']
    }
}

impl GridView {
    /// The text of row `r`, an empty cell reading as a space.
    pub open spec fn row_text(self, r: int) -> Seq<char> {
        Seq::new(self.cols, |c: int| display_char(self.cell(c, r).ch))
    }

    /// The text of the first `n` rows, each followed by a newline.
    pub open spec fn screen_text(self, n: int) -> Seq<char>
        decreases n,
    {
        if n <= 0 {
            Seq::empty()
        } else {
            self.screen_text(n - 1) + self.row_text(n - 1) + seq!['\n']
        }
    }

    /// What the screen shows: the live rows, or, when scrolled back, the
    /// scrollback viewport followed by the top live rows where the history
    /// is shorter than the screen.
    pub open spec fn display_text(self) -> Seq<char> {
        if self.scrollback.offset > 0 {
            let sb = self.scrollback;
            lines_text(sb.visible(self.rows)) + if self.rows > sb.len() && sb.offset < sb.len() {
                self.screen_text(self.rows - sb.len())
            } else {
                Seq::empty()
            }
        } else {
            self.screen_text(self.rows as int)
        }
    }

    /// The cell at column `c` and row `r`, each clamped to the grid.
    pub open spec fn clamped_cell(self, c: nat, r: nat) -> Cell {
        self.cell(min_nat(c, (self.cols - 1) as nat) as int, min_nat(r, (self.rows - 1) as nat) as int)
    }

    /// The text of columns `x0..=x1` of row `r`, clamped to the grid.
    pub open spec fn region_row(self, x0: nat, x1: nat, r: nat) -> Seq<char> {
        Seq::new(sat_sub(x1 + 1, x0), |k: int| display_char(self.clamped_cell((x0 + k) as nat, r).ch))
    }

    /// The text of rows `y0..=last` of the region, a newline after each row
    /// but the region's last (`y1`).
    pub open spec fn region_rows(self, x0: nat, x1: nat, y0: nat, y1: nat, last: nat) -> Seq<char>
        decreases last,
    {
        let part = self.region_row(x0, x1, last) + if last < y1 { seq!['\n'] } else { Seq::empty() };
        if last <= y0 { part } else { self.region_rows(x0, x1, y0, y1, (last - 1) as nat) + part }
    }

    /// The text of the rectangle from (`x0`, `y0`) to (`x1`, `y1`) inclusive,
    /// rows separated by newlines, positions clamped to the grid.
    pub open spec fn region_text(self, x0: nat, y0: nat, x1: nat, y1: nat) -> Seq<char> {
        if y0 > y1 { Seq::empty() } else { self.region_rows(x0, x1, y0, y1, y1) }
    }

    /// A destructive resize: every cell empty, the cursor home.
    pub open spec fn resized(self, cols: nat, rows: nat) -> GridView {
        let c = at_least_one(cols);
        let r = at_least_one(rows);
        GridView { cols: c, rows: r, cells: Seq::new(c * r, |i: int| blank_cell()), x: 0, y: 0, ..self }
    }

    /// The cell at column `c`, row `r` after a content-preserving resize to
    /// `nc` by `nr`: the intersection of the old and new grids, aligned at
    /// their bottom-right corners, keeps its cells; the rest is empty.
    pub open spec fn preserved_cell(self, nc: nat, nr: nat, c: int, r: int) -> Cell {
        let kr = min_nat(self.rows, nr);
        let kc = min_nat(self.cols, nc);
        if r >= nr - kr && c >= nc - kc {
            self.cell(self.cols - kc + (c - (nc - kc)), self.rows - kr + (r - (nr - kr)))
        } else {
            blank_cell()
        }
    }

    /// `new` is this grid after a content-preserving resize to `cols` by
    /// `rows` (a zero dimension counts as one): unchanged at the same size;
    /// else the cells of `preserved_cell`, the cursor clamped into the new
    /// bounds, the pen and the scrollback kept.
    pub open spec fn is_preserving_resize(self, new: GridView, cols: nat, rows: nat) -> bool {
        let nc = at_least_one(cols);
        let nr = at_least_one(rows);
        if nc == self.cols && nr == self.rows {
            new == self
        } else {
            &&& new.cols == nc
            &&& new.rows == nr
            &&& new.cells.len() == nc * nr
            &&& forall|r: int| 0 <= r < nr ==> #[trigger] new.row(r) == Seq::new(nc, |c: int| self.preserved_cell(nc, nr, c, r))
            &&& new.x == min_nat(self.x, (nc - 1) as nat)
            &&& new.y == min_nat(self.y, (nr - 1) as nat)
            &&& new.pen == self.pen
            &&& new.scrollback == self.scrollback
        }
    }
}

/// A new grid of at least one row and column has its cursor home and every
/// cell empty.
pub proof fn lemma_new_grid_is_empty(cols: nat, rows: nat)
    requires
        cols >= 1,
        rows >= 1,
    ensures
        initial_grid(cols, rows).wf(),
        initial_grid(cols, rows).cols == cols,
        initial_grid(cols, rows).rows == rows,
        initial_grid(cols, rows).x == 0,
        initial_grid(cols, rows).y == 0,
        forall|c: int, r: int| 0 <= c < cols && 0 <= r < rows ==> #[trigger] initial_grid(cols, rows).cell(c, r) == blank_cell(),
{
    assert forall|c: int, r: int| 0 <= c < cols && 0 <= r < rows implies #[trigger] initial_grid(cols, rows).cell(c, r)
        == blank_cell() by {
        lemma_row_bounds(r, cols as int, rows as int);
    }
}

/// The grid after printing the characters of `s` in order.
pub open spec fn prints(g: GridView, s: Seq<char>) -> GridView
    decreases s.len(),
{
    if s.len() == 0 { g } else { prints(g, s.drop_last()).put(s.last(), display_width(s.last())) }
}

/// Row `y` with its first `k` cells holding `s`, drawn with the pen.
pub open spec fn row_written(g: GridView, s: Seq<char>, k: nat) -> Seq<Cell> {
    let start = g.y * g.cols;
    Seq::new(g.cells.len(), |j: int| if start <= j < start + k { styled(s[j - start], g.pen) } else { g.cells[j] })
}

/// Printing a row's worth of one-column characters from the first column
/// wraps exactly once, after the last of them: before it the cursor only
/// moves along the row; after it the row holds the characters and the cursor
/// stands at the start of the next row, or of the last row once the screen
/// has scrolled.
pub proof fn lemma_full_row_wraps_once(g: GridView, s: Seq<char>)
    requires
        g.wf(),
        g.x == 0,
        s.len() == g.cols,
        forall|i: int| 0 <= i < s.len() ==> columns_of(display_width(#[trigger] s[i])) == 1,
    ensures
        forall|k: nat| k < g.cols ==> #[trigger] prints(g, s.take(k as int)) == g.with_cells(row_written(g, s, k)).with_cursor(k, g.y),
        prints(g, s) == g.with_cells(row_written(g, s, g.cols)).newline(),
        prints(g, s).x == 0,
        prints(g, s).y == (if g.y + 1 < g.rows { g.y + 1 } else { g.y }),
{
    lemma_row_bounds(g.y as int, g.cols as int, g.rows as int);
    assert forall|k: nat| k < g.cols implies #[trigger] prints(g, s.take(k as int)) == g.with_cells(row_written(g, s, k)).with_cursor(k, g.y) by {
        lemma_prints_prefix(g, s, k);
    }
    let last = (g.cols - 1) as nat;
    lemma_prints_prefix(g, s, last);
    assert(s.take(g.cols as int) =~= s);
    assert(s.take(g.cols as int).drop_last() =~= s.take(last as int));
    let h = g.with_cells(row_written(g, s, last)).with_cursor(last, g.y);
    let i = h.idx(last as int, g.y as int);
    let rw = row_written(g, s, g.cols);
    assert(h.cells.update(i, styled(s.last(), h.pen)) =~= rw);
    assert(h.with_cells(rw).carriage_return() == g.with_cells(rw).carriage_return());
}

proof fn lemma_prints_prefix(g: GridView, s: Seq<char>, k: nat)
    requires
        g.wf(),
        g.x == 0,
        s.len() == g.cols,
        forall|i: int| 0 <= i < s.len() ==> columns_of(display_width(#[trigger] s[i])) == 1,
        k < g.cols,
    ensures
        prints(g, s.take(k as int)) == g.with_cells(row_written(g, s, k)).with_cursor(k, g.y),
    decreases k,
{
    lemma_row_bounds(g.y as int, g.cols as int, g.rows as int);
    if k == 0 {
        assert(s.take(0) =~= Seq::<char>::empty());
        assert(row_written(g, s, 0) =~= g.cells);
    } else {
        let j = (k - 1) as nat;
        lemma_prints_prefix(g, s, j);
        assert(s.take(k as int).drop_last() =~= s.take(j as int));
        assert(s.take(k as int).last() == s[j as int]);
        let h = g.with_cells(row_written(g, s, j)).with_cursor(j, g.y);
        assert(h.put(s[j as int], display_width(s[j as int])).cells =~= row_written(g, s, k));
    }
}

/// A cell of a grid is the matching element of its row.
pub proof fn lemma_cell_in_row(v: GridView, c: int, r: int)
    requires
        v.cells.len() == v.cols * v.rows,
        0 <= c < v.cols,
        0 <= r < v.rows,
    ensures
        v.cell(c, r) == v.row(r)[c],
        0 <= v.idx(c, r) < v.cells.len(),
{
    lemma_row_bounds(r, v.cols as int, v.rows as int);
}

/// A content-preserving resize to the grid's own size changes nothing.
pub proof fn lemma_resize_same_size_is_identity(g: GridView, new: GridView)
    requires
        g.wf(),
        g.is_preserving_resize(new, g.cols, g.rows),
    ensures
        new == g,
{
}

/// Shrinking a grid with content-preserving resizes and growing it back to
/// its size keeps every cell of the bottom-right-aligned intersection of
/// the two sizes.
pub proof fn lemma_shrink_and_grow_back(g: GridView, small: GridView, back: GridView, cols: nat, rows: nat)
    requires
        g.wf(),
        1 <= cols <= g.cols,
        1 <= rows <= g.rows,
        g.is_preserving_resize(small, cols, rows),
        small.is_preserving_resize(back, g.cols, g.rows),
    ensures
        back.cols == g.cols,
        back.rows == g.rows,
        forall|c: int, r: int| g.cols - cols <= c < g.cols && g.rows - rows <= r < g.rows ==> #[trigger] back.cell(c, r) == g.cell(c, r),
{
    if cols == g.cols && rows == g.rows {
    } else {
        assert forall|c: int, r: int| g.cols - cols <= c < g.cols && g.rows - rows <= r < g.rows implies #[trigger] back.cell(c, r)
            == g.cell(c, r) by {
            let sc = c - (g.cols - cols);
            let sr = r - (g.rows - rows);
            lemma_cell_in_row(back, c, r);
            assert(back.row(r) == Seq::new(g.cols, |c: int| small.preserved_cell(g.cols, g.rows, c, r)));
            lemma_cell_in_row(small, sc, sr);
            assert(small.row(sr) == Seq::new(cols, |c: int| g.preserved_cell(cols, rows, c, sr)));
        }
    }
}

/// Relies on `String`'s `FromIterator<char>`: the string of the characters in
/// order.
#[verifier::external_body]
pub(crate) fn string_of(chars: &Vec<char>) -> (s: String)
    ensures
        s@ == chars@,
{
    chars.iter().collect()
}

/// The rows and columns that a multiplication of two dimensions fits in.
proof fn lemma_row_bounds(y: int, cols: int, rows: int)
    requires
        0 <= y < rows,
        cols >= 0,
    ensures
        y * cols + cols <= rows * cols,
        y * cols + cols <= cols * rows,
        0 <= y * cols,
        (y + 1) * cols == y * cols + cols,
{
    assert(y * cols + cols <= rows * cols) by (nonlinear_arith)
        requires
            0 <= y < rows,
            cols >= 0,
    ;
    assert(0 <= y * cols) by (nonlinear_arith)
        requires
            0 <= y,
            cols >= 0,
    ;
    assert((y + 1) * cols == y * cols + cols) by (nonlinear_arith);
}

fn blank_cells(n: usize) -> (r: Vec<Cell>)
    ensures
        r@ == Seq::new(n as nat, |i: int| blank_cell()),
{
    let mut r: Vec<Cell> = Vec::new();
    let mut i: usize = 0;
    while i < n
        invariant
            i <= n,
            r@ == Seq::new(i as nat, |k: int| blank_cell()),
        decreases n - i,
    {
        r.push(Cell::default());
        i += 1;
        assert(r@ =~= Seq::new(i as nat, |k: int| blank_cell()));
    }
    r
}

/// The screen: a grid of cells, a cursor, the attributes for the next
/// character, and the history of lines that scrolled off the top.
pub struct Grid {
    pub cols: usize,
    pub rows: usize,
    pub cells: Vec<Cell>,
    pub x: usize,
    pub y: usize,
    pub scrollback: ScrollbackBuffer,
    pub current_fg: Color,
    pub current_bg: Color,
    pub current_bold: bool,
    pub current_italic: bool,
    pub current_underline: bool,
}

impl View for Grid {
    type V = GridView;

    open spec fn view(&self) -> GridView {
        GridView {
            cols: self.cols as nat,
            rows: self.rows as nat,
            cells: self.cells@,
            x: self.x as nat,
            y: self.y as nat,
            pen: Pen {
                fg: self.current_fg,
                bg: self.current_bg,
                bold: self.current_bold,
                italic: self.current_italic,
                underline: self.current_underline,
            },
            scrollback: self.scrollback@,
        }
    }
}

impl Grid {
    /// Row `r` lies within the cells, whose number fits in a `usize`.
    pub(crate) proof fn lemma_row_fits(&self, r: int)
        requires
            self@.wf(),
            0 <= r < self.rows,
        ensures
            0 <= r * self.cols,
            r * self.cols + self.cols <= self.cells@.len() <= usize::MAX,
            (r + 1) * self.cols == r * self.cols + self.cols,
    {
        lemma_row_bounds(r, self.cols as int, self.rows as int);
        assert(self.cells@.len() == self.cells.len());
    }

    /// A grid of `cols` by `rows` cells (a zero dimension counts as one),
    /// all empty, with the cursor home and a scrollback of
    /// `SCROLLBACK_LINES` lines.
    pub fn new(cols: usize, rows: usize) -> (g: Grid)
        requires
            at_least_one(cols as nat) * at_least_one(rows as nat) <= usize::MAX,
        ensures
            g@ == initial_grid(cols as nat, rows as nat),
            g@.wf(),
            g.x == 0 && g.y == 0,
            cols >= 1 ==> g.cols == cols,
            rows >= 1 ==> g.rows == rows,
            forall|i: int| 0 <= i < g.cells@.len() ==> #[trigger] g.cells@[i] == blank_cell(),
    {
        let cols = if cols == 0 { 1 } else { cols };
        let rows = if rows == 0 { 1 } else { rows };
        let g = Grid {
            cols,
            rows,
            cells: blank_cells(cols * rows),
            x: 0,
            y: 0,
            scrollback: ScrollbackBuffer::new(SCROLLBACK_LINES),
            current_fg: Color::default(),
            current_bg: Color::from_ansi(0),
            current_bold: false,
            current_italic: false,
            current_underline: false,
        };
        assert(g@.cells =~= initial_grid(cols as nat, rows as nat).cells);
        g
    }

    /// Empties the cells at `lo..hi`.
    fn blank_range(&mut self, lo: usize, hi: usize)
        requires
            lo <= hi <= old(self).cells@.len(),
        ensures
            final(self)@ == old(self)@.blanked(lo as int, hi as int),
    {
        self.fill_range(lo, hi, Cell::default());
    }

    /// Sets the cells at `lo..hi` to `c`.
    fn fill_range(&mut self, lo: usize, hi: usize, c: Cell)
        requires
            lo <= hi <= old(self).cells@.len(),
        ensures
            final(self)@ == old(self)@.filled(lo as int, hi as int, c),
    {
        let ghost before = self.cells@;
        let mut i = lo;
        while i < hi
            invariant
                lo <= i <= hi <= self.cells@.len(),
                self.cells@.len() == before.len(),
                before == old(self).cells@,
                self@ == old(self)@.with_cells(self.cells@),
                forall|k: int| 0 <= k < self.cells@.len() ==> #[trigger] self.cells@[k] == (
                    if lo <= k < i { c } else { before[k] }),
            decreases hi - i,
        {
            self.cells[i] = c;
            i += 1;
        }
        assert(self.cells@ =~= old(self)@.filled(lo as int, hi as int, c).cells);
    }

    /// Empties every cell.
    pub fn clear_all(&mut self)
        ensures
            final(self)@ == old(self)@.blanked(0, old(self)@.cells.len() as int),
    {
        let n = self.cells.len();
        self.blank_range(0, n);
    }

    /// Empties the cursor's row from the cursor to its end.
    pub fn clear_eol(&mut self)
        requires
            old(self)@.wf(),
        ensures
            final(self)@ == old(self)@.blanked(
                old(self)@.idx(old(self).x as int, old(self).y as int),
                old(self)@.idx(0, old(self).y + 1),
            ),
            final(self)@.wf(),
    {
        proof { self.lemma_row_fits(self.y as int); }
        let start = self.y * self.cols + self.x;
        let end = self.y * self.cols + self.cols;
        self.blank_range(start, end);
    }

    /// Empties row `row`, or the last row where `row` is past it.
    pub fn clear_line(&mut self, row: usize)
        requires
            old(self)@.wf(),
        ensures
            final(self)@ == old(self)@.blanked(
                old(self)@.idx(0, if row < old(self).rows { row as int } else { old(self).rows - 1 }),
                old(self)@.idx(0, if row < old(self).rows { row + 1 } else { old(self).rows as int }),
            ),
            final(self)@.wf(),
    {
        let row = if row < self.rows { row } else { self.rows - 1 };
        proof { self.lemma_row_fits(row as int); }
        let start = row * self.cols;
        let end = start + self.cols;
        self.blank_range(start, end);
    }

    /// Empties the cursor's row from the cursor to its end.
    pub fn clear_eol_from_cursor(&mut self)
        requires
            old(self)@.wf(),
        ensures
            final(self)@ == old(self)@.blanked(
                old(self)@.idx(old(self).x as int, old(self).y as int),
                old(self)@.idx(0, old(self).y + 1),
            ),
            final(self)@.wf(),
    {
        self.clear_eol();
    }

    /// Empties the cursor's row from its start to the cursor, inclusive.
    pub fn clear_bol_to_cursor(&mut self)
        requires
            old(self)@.wf(),
        ensures
            final(self)@ == old(self)@.blanked(
                old(self)@.idx(0, old(self).y as int),
                old(self)@.idx(old(self).x + 1, old(self).y as int),
            ),
            final(self)@.wf(),
    {
        proof { self.lemma_row_fits(self.y as int); }
        let start = self.y * self.cols;
        let end = start + self.x + 1;
        self.blank_range(start, end);
    }

    /// Moves the cursor to the first column.
    pub fn cr(&mut self)
        ensures
            final(self)@ == old(self)@.carriage_return(),
    {
        self.x = 0;
    }

    /// Moves the cursor down a row, scrolling the screen up on the last row;
    /// see `GridView::line_feed`.
    pub fn lf(&mut self)
        requires
            old(self)@.wf(),
        ensures
            final(self)@ == old(self)@.line_feed(),
            final(self)@.wf(),
    {
        if self.y + 1 < self.rows {
            self.y += 1;
            return;
        }
        let ghost before = self.cells@;
        proof { self.lemma_row_fits(0); }
        let cols = self.cols;
        let mut line: Vec<Cell> = Vec::new();
        let mut c: usize = 0;
        while c < cols
            invariant
                cols == self.cols,
                self@.wf(),
                self.cells@ == before,
                cols <= before.len(),
                c <= cols,
                line@ == before.take(c as int),
            decreases cols - c,
        {
            line.push(self.cells[c]);
            c += 1;
            assert(line@ =~= before.take(c as int));
        }
        self.scrollback.push_line(line);
        let ghost mid = self@;
        let n = self.cells.len();
        let mut i: usize = 0;
        while i < n - cols
            invariant
                cols == self.cols,
                n == self.cells@.len(),
                n == before.len(),
                cols <= n,
                i <= n - cols,
                self@ == mid.with_cells(self.cells@),
                forall|k: int| 0 <= k < n ==> #[trigger] self.cells@[k] == (
                    if k < i { before[k + cols] } else { before[k] }),
            decreases n - cols - i,
        {
            let moved = self.cells[i + cols];
            self.cells[i] = moved;
            i += 1;
        }
        self.blank_range(n - cols, n);
        assert(self.cells@ =~= before.skip(cols as int) + Seq::new(cols as nat, |k: int| blank_cell()));
    }

    /// A cell holding `ch`, drawn with the current attributes.
    fn pen_cell(&self, ch: char) -> (c: Cell)
        ensures
            c == styled(ch, self@.pen),
    {
        Cell {
            ch,
            fg: self.current_fg,
            bg: self.current_bg,
            bold: self.current_bold,
            italic: self.current_italic,
            underline: self.current_underline,
        }
    }

    /// Prints `ch` at the cursor, taking `width` as its display width; see
    /// `GridView::put`.
    pub fn put_with_width(&mut self, ch: char, width: Option<usize>)
        requires
            old(self)@.wf(),
        ensures
            final(self)@ == old(self)@.put(ch, width),
            final(self)@.wf(),
    {
        let w: usize = match width {
            Some(n) => if n >= 2 { 2 } else { 1 },
            None => 1,
        };
        if w > self.cols - self.x && self.x > 0 {
            self.wrap();
        }
        proof { self.lemma_row_fits(self.y as int); }
        let i = self.y * self.cols + self.x;
        let c = self.pen_cell(ch);
        self.cells[i] = c;
        if w == 2 && self.x + 1 < self.cols {
            let blank = self.pen_cell('\0');
            self.cells[i + 1] = blank;
        }
        if w >= self.cols - self.x {
            self.wrap();
        } else {
            self.x = self.x + w;
        }
    }

    /// Prints `ch` at the cursor with the current attributes, advancing by
    /// its display width; see `GridView::put`.
    pub fn put(&mut self, ch: char)
        requires
            old(self)@.wf(),
        ensures
            final(self)@ == old(self)@.put(ch, display_width(ch)),
            final(self)@.wf(),
    {
        let w = char_width(ch);
        self.put_with_width(ch, w);
    }

    /// Draws spaces up to the next tab stop; see `GridView::tab`.
    pub fn tab(&mut self)
        requires
            old(self)@.wf(),
        ensures
            final(self)@ == old(self)@.tab(),
            final(self)@.wf(),
    {
        let last = self.cols - 1;
        let stop = if last - self.x <= 8 - self.x % 8 { last } else { self.x - self.x % 8 + 8 };
        assert(stop == self@.tab_stop());
        if self.x < stop {
            proof { self.lemma_row_fits(self.y as int); }
            let lo = self.y * self.cols + self.x;
            let hi = self.y * self.cols + stop;
            let c = self.pen_cell(' ');
            self.fill_range(lo, hi, c);
            self.x = stop;
        }
    }

    /// Moves the cursor one column left, unless at the first.
    pub fn backspace(&mut self)
        ensures
            final(self)@ == old(self)@.backspace(),
    {
        if self.x > 0 {
            self.x -= 1;
        }
    }

    /// Moves the cursor to the 1-based `row` and `col`, clamped to the grid.
    pub fn cursor_position(&mut self, row: usize, col: usize)
        requires
            old(self)@.wf(),
        ensures
            final(self)@ == old(self)@.cursor_position(row as nat, col as nat),
            final(self)@.wf(),
    {
        let r = if row > 0 { row - 1 } else { 0 };
        let c = if col > 0 { col - 1 } else { 0 };
        self.y = if r < self.rows { r } else { self.rows - 1 };
        self.x = if c < self.cols { c } else { self.cols - 1 };
    }

    pub fn cursor_up(&mut self, n: usize)
        requires
            old(self)@.wf(),
        ensures
            final(self)@ == old(self)@.cursor_up(n as nat),
            final(self)@.wf(),
    {
        self.y = if self.y >= n { self.y - n } else { 0 };
    }

    pub fn cursor_down(&mut self, n: usize)
        requires
            old(self)@.wf(),
        ensures
            final(self)@ == old(self)@.cursor_down(n as nat),
            final(self)@.wf(),
    {
        self.y = if n < self.rows - self.y { self.y + n } else { self.rows - 1 };
    }

    pub fn cursor_forward(&mut self, n: usize)
        requires
            old(self)@.wf(),
        ensures
            final(self)@ == old(self)@.cursor_forward(n as nat),
            final(self)@.wf(),
    {
        self.x = if n < self.cols - self.x { self.x + n } else { self.cols - 1 };
    }

    pub fn cursor_back(&mut self, n: usize)
        requires
            old(self)@.wf(),
        ensures
            final(self)@ == old(self)@.cursor_back(n as nat),
            final(self)@.wf(),
    {
        self.x = if self.x >= n { self.x - n } else { 0 };
    }

    /// Erase in display; see `GridView::erase_in_display`.
    pub fn erase_in_display(&mut self, mode: u16)
        requires
            old(self)@.wf(),
        ensures
            final(self)@ == old(self)@.erase_in_display(mode as nat),
            final(self)@.wf(),
    {
        proof { self.lemma_row_fits(self.y as int); }
        let at = self.y * self.cols + self.x;
        let n = self.cells.len();
        if mode == 0 {
            self.blank_range(at, n);
        } else if mode == 1 {
            self.blank_range(0, at + 1);
        } else if mode == 2 {
            self.blank_range(0, n);
            self.x = 0;
            self.y = 0;
        }
    }

    /// Erase in line; see `GridView::erase_in_line`.
    pub fn erase_in_line(&mut self, mode: u16)
        requires
            old(self)@.wf(),
        ensures
            final(self)@ == old(self)@.erase_in_line(mode as nat),
            final(self)@.wf(),
    {
        proof { self.lemma_row_fits(self.y as int); }
        let start = self.y * self.cols;
        let at = start + self.x;
        let end = start + self.cols;
        if mode == 0 {
            self.blank_range(at, end);
        } else if mode == 1 {
            self.blank_range(start, at + 1);
        } else if mode == 2 {
            self.blank_range(start, end);
        }
    }

    /// Sets the pen from SGR codes.
    fn sgr_code(&mut self, n: u16)
        ensures
            final(self)@ == old(self)@.with_pen(sgr_code(old(self)@.pen, n)),
    {
        if n == 0 {
            self.current_fg = Color::default();
            self.current_bg = Color::from_ansi(0);
            self.current_bold = false;
            self.current_italic = false;
            self.current_underline = false;
        } else if n == 1 {
            self.current_bold = true;
        } else if n == 3 {
            self.current_italic = true;
        } else if n == 4 {
            self.current_underline = true;
        } else if n == 22 {
            self.current_bold = false;
        } else if n == 23 {
            self.current_italic = false;
        } else if n == 24 {
            self.current_underline = false;
        } else if 30 <= n && n <= 37 {
            self.current_fg = Color::from_ansi((n - 30) as u8);
        } else if n == 39 {
            self.current_fg = Color::default();
        } else if 40 <= n && n <= 47 {
            self.current_bg = Color::from_ansi((n - 40) as u8);
        } else if n == 49 {
            self.current_bg = Color::from_ansi(0);
        } else if 90 <= n && n <= 97 {
            self.current_fg = Color::from_ansi((n - 90 + 8) as u8);
        } else if 100 <= n && n <= 107 {
            self.current_bg = Color::from_ansi((n - 100 + 8) as u8);
        }
    }

    /// Select graphic rendition: updates the attributes for the next
    /// characters from `params`, leaving the cells as they are; see `sgr`.
    pub fn apply_sgr(&mut self, params: &Vec<Vec<u16>>)
        ensures
            final(self)@ == old(self)@.with_pen(sgr(old(self)@.pen, params_view(params@))),
    {
        let ghost ps = params_view(params@);
        let ghost empty = Seq::<u16>::empty();
        assert(sgr(old(self)@.pen, ps) == sgr_from(old(self)@.pen, ps, 0, empty, 0));
        assert(sgr_from(old(self)@.pen, ps, 0, empty, 0) == (if 0 < ps.len() {
            sgr_from(old(self)@.pen, ps, 1, ps[0], 0)
        } else {
            old(self)@.pen
        }));
        let mut next: usize = 0;
        while next < params.len()
            invariant
                ps == params_view(params@),
                empty == Seq::<u16>::empty(),
                next <= params@.len(),
                self@ == old(self)@.with_pen(self@.pen),
                sgr(old(self)@.pen, ps) == sgr_from(self@.pen, ps, next as int, empty, 0),
            decreases params@.len() - next,
        {
            let cur = &params[next];
            let ghost cv = ps[next as int];
            assert(cur@ == cv);
            assert(ps.len() == params@.len());
            let ghost next0 = next;
            assert(sgr_from(self@.pen, ps, next as int, empty, 0) == sgr_from(self@.pen, ps, next + 1, cv, 0));
            next += 1;
            let mut j: usize = 0;
            while j < cur.len()
                invariant
                    ps == params_view(params@),
                    empty == Seq::<u16>::empty(),
                    next0 < next <= params@.len(),
                    cur@ == cv,
                    j <= cv.len(),
                    self@ == old(self)@.with_pen(self@.pen),
                    sgr(old(self)@.pen, ps) == sgr_from(self@.pen, ps, next as int, cv, j as int),
                decreases params@.len() - next, cv.len() - j,
            {
                let n = cur[j];
                if n == 38 || n == 48 {
                    let (color, after) = self.extended_color(params, next);
                    match color {
                        Some(c) => {
                            if n == 38 {
                                self.current_fg = c;
                            } else {
                                self.current_bg = c;
                            }
                        },
                        None => {},
                    }
                    next = after;
                } else {
                    self.sgr_code(n);
                }
                j += 1;
            }
            assert(sgr_from(self@.pen, ps, next as int, cv, j as int) == (if next < ps.len() {
                sgr_from(self@.pen, ps, next + 1, ps[next as int], 0)
            } else {
                self@.pen
            }));
            assert(sgr_from(self@.pen, ps, next as int, empty, 0) == (if next < ps.len() {
                sgr_from(self@.pen, ps, next + 1, ps[next as int], 0)
            } else {
                self@.pen
            }));
        }
    }

    /// Reads an extended colour; see `extended_color`.
    fn extended_color(&self, params: &Vec<Vec<u16>>, next: usize) -> (r: (Option<Color>, usize))
        requires
            next <= params@.len(),
        ensures
            (r.0, r.1 as int) == extended_color(params_view(params@), next as int),
            next <= r.1 <= params@.len(),
    {
        let ghost ps = params_view(params@);
        let len = params.len();
        if next >= len {
            return (None, next);
        }
        assert(params@[next as int]@ == ps[next as int]);
        let kind = &params[next];
        if kind.len() > 0 && kind[0] == 2 {
            if len - next > 3 && params[next + 1].len() > 0 && params[next + 2].len() > 0 && params[next + 3].len() > 0 {
                assert(params@[next + 1]@ == ps[next + 1]);
                assert(params@[next + 2]@ == ps[next + 2]);
                assert(params@[next + 3]@ == ps[next + 3]);
                let r = (params[next + 1][0] % 256) as u8;
                let g = (params[next + 2][0] % 256) as u8;
                let b = (params[next + 3][0] % 256) as u8;
                (Some(Color { r, g, b }), next + 4)
            } else {
                proof {
                    if next + 3 < len {
                        assert(params@[next + 1]@ == ps[next + 1]);
                        assert(params@[next + 2]@ == ps[next + 2]);
                        assert(params@[next + 3]@ == ps[next + 3]);
                    }
                }
                (None, if len - next > 4 { next + 4 } else { len })
            }
        } else if kind.len() > 0 && kind[0] == 5 {
            if len - next > 1 && params[next + 1].len() > 0 {
                assert(params@[next + 1]@ == ps[next + 1]);
                let c = Color::from_ansi((params[next + 1][0] % 256) as u8);
                (Some(c), next + 2)
            } else {
                proof {
                    if next + 1 < len {
                        assert(params@[next + 1]@ == ps[next + 1]);
                    }
                }
                (None, if len - next > 2 { next + 2 } else { len })
            }
        } else {
            (None, next + 1)
        }
    }

    /// Appends the text of row `r` and a newline.
    fn push_row_text(&self, out: &mut Vec<char>, r: usize)
        requires
            self@.wf(),
            r < self.rows,
        ensures
            final(out)@ == old(out)@ + self@.row_text(r as int) + seq!['\n'],
    {
        proof { self.lemma_row_fits(r as int); }
        let ghost start = out@;
        let mut c: usize = 0;
        while c < self.cols
            invariant
                self@.wf(),
                r < self.rows,
                r * self.cols + self.cols <= self.cells@.len() <= usize::MAX,
                c <= self.cols,
                out@ == start + self@.row_text(r as int).take(c as int),
            decreases self.cols - c,
        {
            let ch = self.cells[r * self.cols + c].ch;
            out.push(if ch == '\0' { ' ' } else { ch });
            c += 1;
            assert(out@ =~= start + self@.row_text(r as int).take(c as int));
        }
        assert(self@.row_text(r as int).take(c as int) =~= self@.row_text(r as int));
        out.push('\n');
        assert(out@ =~= start + self@.row_text(r as int) + seq!['\n']);
    }

    /// Appends the text of the first `n` rows.
    fn push_screen_text(&self, out: &mut Vec<char>, n: usize)
        requires
            self@.wf(),
            n <= self.rows,
        ensures
            final(out)@ == old(out)@ + self@.screen_text(n as int),
    {
        let ghost start = out@;
        let mut r: usize = 0;
        assert(start =~= start + self@.screen_text(0));
        while r < n
            invariant
                self@.wf(),
                n <= self.rows,
                r <= n,
                out@ == start + self@.screen_text(r as int),
            decreases n - r,
        {
            self.push_row_text(out, r);
            r += 1;
            assert(out@ =~= start + self@.screen_text(r as int));
        }
    }

    /// The whole screen as text, each row followed by a newline, an empty
    /// cell reading as a space.
    pub fn to_string_lines(&self) -> (s: String)
        requires
            self@.wf(),
        ensures
            s@ == self@.screen_text(self@.rows as int),
    {
        let mut out: Vec<char> = Vec::new();
        self.push_screen_text(&mut out, self.rows);
        assert(out@ =~= self@.screen_text(self@.rows as int));
        string_of(&out)
    }

    /// Appends the text of columns `x0..=x1` of row `r`, clamped to the grid.
    fn push_region_row(&self, out: &mut Vec<char>, x0: usize, x1: usize, r: usize)
        requires
            self@.wf(),
        ensures
            final(out)@ == old(out)@ + self@.region_row(x0 as nat, x1 as nat, r as nat),
    {
        let ghost start = out@;
        let ghost want = self@.region_row(x0 as nat, x1 as nat, r as nat);
        if x0 > x1 {
            assert(want =~= Seq::<char>::empty());
            assert(out@ =~= start + want);
            return;
        }
        let row = if r < self.rows { r } else { self.rows - 1 };
        proof { self.lemma_row_fits(row as int); }
        let mut col = x0;
        loop
            invariant_except_break
                out@ == start + want.take(col - x0),
            invariant
                self@.wf(),
                x0 <= col <= x1,
                row < self.rows,
                row == min_nat(r as nat, (self.rows - 1) as nat),
                row * self.cols + self.cols <= self.cells@.len() <= usize::MAX,
                want == self@.region_row(x0 as nat, x1 as nat, r as nat),
                want.len() == x1 + 1 - x0,
            ensures
                out@ == start + want,
            decreases x1 - col,
        {
            let c = if col < self.cols { col } else { self.cols - 1 };
            let ch = self.cells[row * self.cols + c].ch;
            out.push(if ch == '\0' { ' ' } else { ch });
            assert(out@ =~= start + want.take(col + 1 - x0));
            if col == x1 {
                assert(want.take(col + 1 - x0) =~= want);
                break;
            }
            col += 1;
        }
    }

    /// The text of the rectangle from (`x0`, `y0`) to (`x1`, `y1`), both
    /// corners included, rows separated by newlines; positions past the grid
    /// read the nearest cell.
    pub fn get_text_in_region(&self, x0: usize, y0: usize, x1: usize, y1: usize) -> (s: String)
        requires
            self@.wf(),
        ensures
            s@ == self@.region_text(x0 as nat, y0 as nat, x1 as nat, y1 as nat),
    {
        let mut out: Vec<char> = Vec::new();
        if y0 <= y1 {
            let mut row = y0;
            loop
                invariant_except_break
                    out@ == (if row == y0 {
                        Seq::empty()
                    } else {
                        self@.region_rows(x0 as nat, x1 as nat, y0 as nat, y1 as nat, (row - 1) as nat)
                    }),
                invariant
                    self@.wf(),
                    y0 <= row <= y1,
                ensures
                    out@ == self@.region_rows(x0 as nat, x1 as nat, y0 as nat, y1 as nat, y1 as nat),
                decreases y1 - row,
            {
                self.push_region_row(&mut out, x0, x1, row);
                if row < y1 {
                    out.push('\n');
                }
                assert(out@ =~= self@.region_rows(x0 as nat, x1 as nat, y0 as nat, y1 as nat, row as nat));
                if row == y1 {
                    break;
                }
                row += 1;
            }
        }
        string_of(&out)
    }

    /// The rectangle that two corners span: (left, top, right, bottom).
    pub fn selection_bounds(&self, start: (usize, usize), end: (usize, usize)) -> (r: (usize, usize, usize, usize))
        ensures
            r.0 == min_nat(start.0 as nat, end.0 as nat),
            r.1 == min_nat(start.1 as nat, end.1 as nat),
            r.2 == (if start.0 >= end.0 { start.0 } else { end.0 }),
            r.3 == (if start.1 >= end.1 { start.1 } else { end.1 }),
    {
        let (x0, y0) = start;
        let (x1, y1) = end;
        let minx = if x0 <= x1 { x0 } else { x1 };
        let maxx = if x0 >= x1 { x0 } else { x1 };
        let miny = if y0 <= y1 { y0 } else { y1 };
        let maxy = if y0 >= y1 { y0 } else { y1 };
        (minx, miny, maxx, maxy)
    }

    /// What the screen shows as text; see `GridView::display_text`.
    pub fn get_display_content(&self) -> (s: String)
        requires
            self@.wf(),
        ensures
            s@ == self@.display_text(),
    {
        let offset = self.scrollback.scroll_offset();
        if offset == 0 {
            return self.to_string_lines();
        }
        let lines = self.scrollback.get_visible_lines(self.rows);
        let mut out: Vec<char> = Vec::new();
        let mut i: usize = 0;
        while i < lines.len()
            invariant
                i <= lines@.len(),
                out@ == lines_text(lines_view(lines@).take(i as int)),
            decreases lines@.len() - i,
        {
            let line = &lines[i];
            let ghost prev = out@;
            let mut c: usize = 0;
            while c < line.len()
                invariant
                    c <= line@.len(),
                    out@ == prev + line_text(line@).take(c as int),
                decreases line@.len() - c,
            {
                let ch = line[c].ch;
                out.push(if ch == '\0' { ' ' } else { ch });
                c += 1;
                assert(out@ =~= prev + line_text(line@).take(c as int));
            }
            out.push('\n');
            assert(line_text(line@).take(c as int) =~= line_text(line@));
            assert(lines_view(lines@).take(i + 1).drop_last() =~= lines_view(lines@).take(i as int));
            assert(out@ =~= lines_text(lines_view(lines@).take(i + 1)));
            i += 1;
        }
        assert(lines_view(lines@).take(i as int) =~= lines_view(lines@));
        let len = self.scrollback.len();
        if self.rows > len && offset < len {
            self.push_screen_text(&mut out, self.rows - len);
        } else {
            assert(out@ =~= out@ + Seq::<char>::empty());
        }
        string_of(&out)
    }

    /// Resizes to `cols` by `rows` (a zero dimension counts as one),
    /// emptying every cell and sending the cursor home.
    pub fn resize(&mut self, cols: usize, rows: usize)
        requires
            old(self)@.wf(),
            at_least_one(cols as nat) * at_least_one(rows as nat) <= usize::MAX,
        ensures
            final(self)@ == old(self)@.resized(cols as nat, rows as nat),
            final(self)@.wf(),
    {
        let cols = if cols == 0 { 1 } else { cols };
        let rows = if rows == 0 { 1 } else { rows };
        self.cols = cols;
        self.rows = rows;
        self.cells = blank_cells(cols * rows);
        self.x = 0;
        self.y = 0;
        assert(self@.cells =~= old(self)@.resized(cols as nat, rows as nat).cells);
    }

    /// Row `r` of the grid after a content-preserving resize to `nc` by `nr`.
    fn preserved_row(&self, nc: usize, nr: usize, r: usize) -> (row: Vec<Cell>)
        requires
            self@.wf(),
            nc >= 1,
            r < nr,
        ensures
            row@ == Seq::new(nc as nat, |c: int| self@.preserved_cell(nc as nat, nr as nat, c, r as int)),
    {
        let kr = if self.rows < nr { self.rows } else { nr };
        let kc = if self.cols < nc { self.cols } else { nc };
        let ghost want = Seq::new(nc as nat, |c: int| self@.preserved_cell(nc as nat, nr as nat, c, r as int));
        let mut row: Vec<Cell> = Vec::new();
        let mut c: usize = 0;
        while c < nc
            invariant
                self@.wf(),
                r < nr,
                c <= nc,
                kr == min_nat(self.rows as nat, nr as nat),
                kc == min_nat(self.cols as nat, nc as nat),
                want == Seq::new(nc as nat, |c: int| self@.preserved_cell(nc as nat, nr as nat, c, r as int)),
                row@ == want.take(c as int),
            decreases nc - c,
        {
            if r >= nr - kr && c >= nc - kc {
                let sr = self.rows - kr + (r - (nr - kr));
                let sc = self.cols - kc + (c - (nc - kc));
                proof { self.lemma_row_fits(sr as int); }
                row.push(self.cells[sr * self.cols + sc]);
            } else {
                row.push(Cell::default());
            }
            c += 1;
            assert(row@ =~= want.take(c as int));
        }
        assert(want.take(c as int) =~= want);
        row
    }

    /// Resizes to `cols` by `rows` (a zero dimension counts as one), keeping
    /// the bottom-right-aligned intersection of the old and new grids and
    /// clamping the cursor into the new bounds; see
    /// `GridView::is_preserving_resize`.
    pub fn resize_preserve(&mut self, new_cols: usize, new_rows: usize)
        requires
            old(self)@.wf(),
            at_least_one(new_cols as nat) * at_least_one(new_rows as nat) <= usize::MAX,
        ensures
            old(self)@.is_preserving_resize(final(self)@, new_cols as nat, new_rows as nat),
            final(self)@.wf(),
    {
        let nc = if new_cols == 0 { 1 } else { new_cols };
        let nr = if new_rows == 0 { 1 } else { new_rows };
        if nc == self.cols && nr == self.rows {
            return;
        }
        let mut cells: Vec<Cell> = Vec::new();
        let mut r: usize = 0;
        while r < nr
            invariant
                self@ == old(self)@,
                self@.wf(),
                nc >= 1,
                nc * nr <= usize::MAX,
                r <= nr,
                cells@.len() == r * nc,
                forall|k: int| 0 <= k < r ==> #[trigger] cells@.subrange(k * nc, k * nc + nc)
                    == Seq::new(nc as nat, |c: int| self@.preserved_cell(nc as nat, nr as nat, c, k)),
            decreases nr - r,
        {
            let row = self.preserved_row(nc, nr, r);
            let ghost prev = cells@;
            let mut c: usize = 0;
            proof { lemma_row_bounds(r as int, nc as int, nr as int); }
            while c < nc
                invariant
                    c <= nc,
                    row@.len() == nc,
                    cells@ == prev + row@.take(c as int),
                decreases nc - c,
            {
                cells.push(row[c]);
                c += 1;
                assert(cells@ =~= prev + row@.take(c as int));
            }
            assert(row@.take(c as int) =~= row@);
            assert forall|k: int| 0 <= k < r + 1 implies #[trigger] cells@.subrange(k * nc, k * nc + nc)
                == Seq::new(nc as nat, |c: int| self@.preserved_cell(nc as nat, nr as nat, c, k)) by {
                lemma_row_bounds(k, nc as int, r + 1);
                if k < r {
                    lemma_row_bounds(k, nc as int, r as int);
                    assert(cells@.subrange(k * nc, k * nc + nc) =~= prev.subrange(k * nc, k * nc + nc));
                } else {
                    assert(cells@.subrange(k * nc, k * nc + nc) =~= row@);
                }
            }
            r += 1;
        }
        assert(cells@.len() == nc * nr) by (nonlinear_arith)
            requires
                cells@.len() == r * nc,
                r == nr,
        ;
        let old_x = self.x;
        let old_y = self.y;
        self.cols = nc;
        self.rows = nr;
        self.cells = cells;
        self.x = if old_x < nc { old_x } else { nc - 1 };
        self.y = if old_y < nr { old_y } else { nr - 1 };
        assert forall|k: int| 0 <= k < nr implies #[trigger] self@.row(k) == Seq::new(
            nc as nat,
            |c: int| old(self)@.preserved_cell(nc as nat, nr as nat, c, k),
        ) by {
            assert(self@.row(k) == cells@.subrange(k * nc, k * nc + nc));
        }
    }

    /// Scrolls the view `lines` lines back into the scrollback.
    pub fn scroll_up(&mut self, lines: usize)
        requires
            old(self)@.wf(),
        ensures
            final(self)@ == (GridView { scrollback: old(self)@.scrollback.scroll_up(lines as nat), ..old(self)@ }),
            final(self)@.wf(),
    {
        self.scrollback.scroll_up(lines);
    }

    /// Scrolls the view `lines` lines forward, towards the live screen.
    pub fn scroll_down(&mut self, lines: usize)
        requires
            old(self)@.wf(),
        ensures
            final(self)@ == (GridView { scrollback: old(self)@.scrollback.scroll_down(lines as nat), ..old(self)@ }),
            final(self)@.wf(),
    {
        self.scrollback.scroll_down(lines);
    }

    /// Scrolls back by one screen.
    pub fn page_up(&mut self)
        requires
            old(self)@.wf(),
        ensures
            final(self)@ == (GridView { scrollback: old(self)@.scrollback.scroll_up(old(self)@.rows), ..old(self)@ }),
            final(self)@.wf(),
    {
        let rows = self.rows;
        self.scrollback.page_up(rows);
    }

    /// Scrolls forward by one screen.
    pub fn page_down(&mut self)
        requires
            old(self)@.wf(),
        ensures
            final(self)@ == (GridView { scrollback: old(self)@.scrollback.scroll_down(old(self)@.rows), ..old(self)@ }),
            final(self)@.wf(),
    {
        let rows = self.rows;
        self.scrollback.page_down(rows);
    }

    /// Whether the view shows the scrollback rather than the live screen.
    pub fn is_scrolled(&self) -> (r: bool)
        ensures
            r == (self@.scrollback.offset > 0),
    {
        self.scrollback.scroll_offset() > 0
    }

    /// Returns the view to the live screen.
    pub fn scroll_to_bottom(&mut self)
        requires
            old(self)@.wf(),
        ensures
            final(self)@ == (GridView { scrollback: old(self)@.scrollback.with_offset(0), ..old(self)@ }),
            final(self)@.wf(),
    {
        self.scrollback.scroll_to_bottom();
    }

    /// Carriage return, then line feed.
    pub fn wrap(&mut self)
        requires
            old(self)@.wf(),
        ensures
            final(self)@ == old(self)@.newline(),
            final(self)@.wf(),
    {
        self.cr();
        self.lf();
    }
}

} // verus!
