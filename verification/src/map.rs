//! Sparse 2-D character grid fed by `map` messages.
//!
//! Cells carry optional absolute coordinates and an optional glyph. A cell
//! with coordinates moves the write cursor to an absolute slot computed from
//! the grid centre; a cell without coordinates advances the cursor by one
//! (the wire format omits coordinates for contiguous runs). A glyph, when
//! present, overwrites the slot under the cursor; out-of-range writes are
//! silently dropped.

use vstd::prelude::*;
use crate::util::{dec_text, push_char};

verus! {

use vstd::string::StringExecFns;

/// One cell update from a `map` message.
#[derive(Debug, Clone, PartialEq)]
pub struct Cell {
    pub x: Option<i32>,
    pub y: Option<i32>,
    pub g: Option<String>,
}

/// The mathematical content of a `Cell`.
pub struct CellV {
    pub x: Option<int>,
    pub y: Option<int>,
    pub g: Option<Seq<char>>,
}

impl View for Cell {
    type V = CellV;

    open spec fn view(&self) -> CellV {
        CellV {
            x: match self.x {
                Some(v) => Some(v as int),
                None => None,
            },
            y: match self.y {
                Some(v) => Some(v as int),
                None => None,
            },
            g: match self.g {
                Some(ref s) => Some(s@),
                None => None,
            },
        }
    }
}

/// The views of a sequence of cells, in order.
pub open spec fn cells_view(cs: Seq<Cell>) -> Seq<CellV> {
    cs.map(|i: int, c: Cell| c@)
}

/// The glyph contents of a grid row-major slot sequence.
pub open spec fn grid_view(cs: Seq<Option<String>>) -> Seq<Option<Seq<char>>> {
    cs.map(
        |i: int, o: Option<String>|
            match o {
                Some(s) => Some(s@),
                None => None,
            },
    )
}

/// Where a cell writes: an absolute slot recomputed from the grid centre when
/// it carries both coordinates, else one past the previous cursor.
pub open spec fn cell_target(w: int, h: int, prev: int, c: CellV) -> int {
    if c.x is Some && c.y is Some {
        w / 2 + c.x.unwrap() + w * (h / 2 + c.y.unwrap())
    } else {
        prev + 1
    }
}

/// Overwrites slot `idx` with the glyph when one is present and the index is
/// in range; otherwise leaves the grid unchanged.
pub open spec fn apply_glyph(
    grid: Seq<Option<Seq<char>>>,
    idx: int,
    g: Option<Seq<char>>,
) -> Seq<Option<Seq<char>>> {
    if g is Some && 0 <= idx < grid.len() {
        grid.update(idx, g)
    } else {
        grid
    }
}

/// Runs a sequence of cell updates against a grid, threading the write
/// cursor; yields the final grid and cursor.
pub open spec fn run_cells(
    grid: Seq<Option<Seq<char>>>,
    w: int,
    h: int,
    cs: Seq<CellV>,
    prev: int,
) -> (Seq<Option<Seq<char>>>, int)
    decreases cs.len(),
{
    if cs.len() == 0 {
        (grid, prev)
    } else {
        let t = cell_target(w, h, prev, cs[0]);
        run_cells(apply_glyph(grid, t, cs[0].g), w, h, cs.subrange(1, cs.len() as int), t)
    }
}

/// The renderable map grid: a dense row-major store of optional glyphs.
pub struct MapState {
    width: usize,
    height: usize,
    cells: Vec<Option<String>>,
}

impl MapState {
    /// The store is a dense 200 by 200 rectangle.
    pub closed spec fn wf(&self) -> bool {
        &&& self.cells@.len() == self.width * self.height
        &&& self.width == 200
        &&& self.height == 200
    }

    pub closed spec fn spec_width(&self) -> int {
        self.width as int
    }

    pub closed spec fn spec_height(&self) -> int {
        self.height as int
    }

    pub closed spec fn grid(&self) -> Seq<Option<Seq<char>>> {
        grid_view(self.cells@)
    }

    /// A fresh, empty 200 by 200 grid.
    pub fn new() -> (r: MapState)
        ensures
            r.wf(),
            r.spec_width() == 200,
            r.spec_height() == 200,
            r.grid() =~= Seq::new(40000, |i: int| None::<Seq<char>>),
    {
        let cells: Vec<Option<String>> = vec![None; 200 * 200];
        MapState { width: 200, height: 200, cells }
    }

    /// Applies one batch of cell updates, as `run_cells` describes, starting
    /// from cursor zero.
    pub fn update_map(&mut self, cells: &Vec<Cell>)
        requires
            old(self).wf(),
        ensures
            final(self).wf(),
            final(self).spec_width() == old(self).spec_width(),
            final(self).spec_height() == old(self).spec_height(),
            final(self).grid() == run_cells(
                old(self).grid(),
                old(self).spec_width(),
                old(self).spec_height(),
                cells_view(cells@),
                0,
            ).0,
    {
        let ghost g0 = self.grid();
        let ghost w = self.spec_width();
        let ghost h = self.spec_height();
        let ghost all = cells_view(cells@);
        proof {
            assert(all.subrange(0, all.len() as int) =~= all);
        }
        let mut cursor: i128 = 0;
        let mut p: usize = 0;
        while p < cells.len()
            invariant
                self.wf(),
                self.spec_width() == w,
                self.spec_height() == h,
                all == cells_view(cells@),
                p <= cells@.len(),
                -0x1000_0000_0000_0000_0000_0000_0000 <= cursor,
                cursor <= 0x1000_0000_0000_0000_0000_0000_0000 + p,
                run_cells(self.grid(), w, h, all.subrange(p as int, all.len() as int), cursor as int)
                    == run_cells(g0, w, h, all, 0),
            decreases cells@.len() - p,
        {
            let c = &cells[p];
            let ghost pre_grid = self.grid();
            let ghost pre_cursor = cursor as int;
            if c.x.is_some() && c.y.is_some() {
                let x = *c.x.as_ref().unwrap();
                let y = *c.y.as_ref().unwrap();
                cursor = (self.width / 2) as i128 + (x as i128) + (self.width as i128) * (
                (self.height / 2) as i128 + (y as i128));
            } else {
                cursor = cursor + 1;
            }
            assert(cursor as int == cell_target(w, h, pre_cursor, c@));
            if let Some(g) = &c.g {
                if cursor >= 0 && cursor < self.cells.len() as i128 {
                    let idx = cursor as usize;
                    let glyph = g.clone();
                    self.cells[idx] = Some(glyph);
                    assert(self.grid() =~= apply_glyph(pre_grid, cursor as int, Some(g@)));
                } else {
                    assert(self.grid() == apply_glyph(pre_grid, cursor as int, Some(g@)));
                }
            } else {
                assert(self.grid() == apply_glyph(pre_grid, cursor as int, None));
            }
            proof {
                assert(all.subrange(p as int, all.len() as int)[0] == c@);
                assert(all.subrange(p as int, all.len() as int).subrange(
                    1,
                    all.len() - p,
                ) =~= all.subrange(p as int + 1, all.len() as int));
            }
            p = p + 1;
        }
        proof {
            assert(all.subrange(p as int, all.len() as int) =~= Seq::<CellV>::empty());
        }
    }

    fn row_occupied(&self, y: usize) -> (r: bool)
        requires
            self.wf(),
            y < self.spec_height(),
        ensures
            r == row_occ(self.grid(), self.spec_width(), y as int),
    {
        let w = self.width;
        let mut x: usize = 0;
        while x < w
            invariant
                self.wf(),
                w == self.spec_width(),
                y < self.spec_height(),
                x <= w,
                forall|x0: int| 0 <= x0 < x ==> #[trigger] self.grid()[x0 + y * w] is None,
            decreases w - x,
        {
            if self.cells[x + y * w].is_some() {
                assert(self.grid()[x as int + y * w] is Some);
                return true;
            }
            x = x + 1;
        }
        false
    }

    fn col_occupied(&self, x: usize) -> (r: bool)
        requires
            self.wf(),
            x < self.spec_width(),
        ensures
            r == col_occ(self.grid(), self.spec_width(), self.spec_height(), x as int),
    {
        let h = self.height;
        let mut y: usize = 0;
        while y < h
            invariant
                self.wf(),
                h == self.spec_height(),
                x < self.spec_width(),
                y <= h,
                forall|y0: int| 0 <= y0 < y ==> #[trigger] self.grid()[x + y0 * self.spec_width()] is None,
            decreases h - y,
        {
            if self.cells[x + y * self.width].is_some() {
                assert(self.grid()[x as int + y * self.spec_width()] is Some);
                return true;
            }
            y = y + 1;
        }
        false
    }

    /// Renders the tight bounding box of all glyph-bearing slots: a header
    /// with the box corners, then one line per row, blank slots as spaces;
    /// or a fixed line when the whole grid is empty.
    pub fn print_map(&self) -> (r: String)
        requires
            self.wf(),
        ensures
            r@ == render_text(self.grid(), self.spec_width(), self.spec_height()),
    {
        let ghost grid = self.grid();
        let ghost w = self.spec_width();
        let ghost h = self.spec_height();
        let mut min_y: usize = 0;
        while min_y < self.height && !self.row_occupied(min_y)
            invariant
                self.wf(),
                w == self.spec_width(),
                h == self.spec_height(),
                grid == self.grid(),
                min_y <= h,
                first_row(grid, w, h, 0) == first_row(grid, w, h, min_y as int),
            decreases self.spec_height() - min_y,
        {
            min_y = min_y + 1;
        }
        if min_y == self.height {
            assert(first_row(grid, w, h, 0) == h);
            let r = String::from_str("Map is empty\n");
            return r;
        }
        assert(row_occ(grid, w, min_y as int));
        assert(first_row(grid, w, h, 0) == min_y);
        let ghost xw = choose|x0: int| 0 <= x0 < w && #[trigger] grid[x0 + min_y * w] is Some;
        assert(col_occ(grid, w, h, xw));

        let mut max_y: usize = self.height - 1;
        while !self.row_occupied(max_y)
            invariant
                self.wf(),
                w == self.spec_width(),
                h == self.spec_height(),
                grid == self.grid(),
                min_y <= max_y < h,
                row_occ(grid, w, min_y as int),
                last_row(grid, w, h - 1) == last_row(grid, w, max_y as int),
            decreases max_y,
        {
            max_y = max_y - 1;
        }
        assert(last_row(grid, w, h - 1) == max_y);

        let mut min_x: usize = 0;
        while !self.col_occupied(min_x)
            invariant
                self.wf(),
                w == self.spec_width(),
                h == self.spec_height(),
                grid == self.grid(),
                0 <= xw < w,
                col_occ(grid, w, h, xw),
                min_x <= xw,
                first_col(grid, w, h, 0) == first_col(grid, w, h, min_x as int),
            decreases w - min_x,
        {
            min_x = min_x + 1;
        }
        assert(first_col(grid, w, h, 0) == min_x);

        let mut max_x: usize = self.width - 1;
        while !self.col_occupied(max_x)
            invariant
                self.wf(),
                w == self.spec_width(),
                h == self.spec_height(),
                grid == self.grid(),
                0 <= xw < w,
                col_occ(grid, w, h, xw),
                xw <= max_x < w,
                last_col(grid, w, h, w - 1) == last_col(grid, w, h, max_x as int),
            decreases max_x,
        {
            max_x = max_x - 1;
        }
        assert(last_col(grid, w, h, w - 1) == max_x);
        assert(min_x <= max_x);

        let mut s = String::new();
        crate::util::u64_append(&mut s, min_x as u64);
        s.append(",");
        crate::util::u64_append(&mut s, min_y as u64);
        s.append(" - ");
        crate::util::u64_append(&mut s, max_x as u64);
        s.append(",");
        crate::util::u64_append(&mut s, max_y as u64);
        s.append("\n");
        let ghost header = s@;
        proof {
            assert(header =~= dec_text(min_x as nat) + ","@ + dec_text(min_y as nat) + " - "@
                + dec_text(max_x as nat) + ","@ + dec_text(max_y as nat) + "\n"@);
        }

        let mut y: usize = min_y;
        while y <= max_y
            invariant
                self.wf(),
                w == self.spec_width(),
                h == self.spec_height(),
                grid == self.grid(),
                min_y <= y <= max_y + 1,
                max_y < h,
                min_x <= max_x < w,
                s@ + render_rows(grid, w, min_x as int, max_x as int, y as int, max_y as int)
                    == header + render_rows(
                    grid,
                    w,
                    min_x as int,
                    max_x as int,
                    min_y as int,
                    max_y as int,
                ),
            decreases max_y + 1 - y,
        {
            let mut x: usize = min_x;
            while x <= max_x
                invariant
                    self.wf(),
                    w == self.spec_width(),
                    h == self.spec_height(),
                    grid == self.grid(),
                    min_y <= y <= max_y,
                    max_y < h,
                    min_x <= x <= max_x + 1,
                    max_x < w,
                    s@ + render_row(grid, w, y as int, x as int, max_x as int) + render_rows(
                        grid,
                        w,
                        min_x as int,
                        max_x as int,
                        y + 1,
                        max_y as int,
                    ) == header + render_rows(
                        grid,
                        w,
                        min_x as int,
                        max_x as int,
                        min_y as int,
                        max_y as int,
                    ),
                decreases max_x + 1 - x,
            {
                match &self.cells[x + y * self.width] {
                    None => {
                        push_char(&mut s, ' ');
                        assert(grid[x as int + y * w] is None);
                    },
                    Some(g) => {
                        s.append(g.as_str());
                        assert(grid[x as int + y * w] == Some(g@));
                    },
                }
                x = x + 1;
            }
            push_char(&mut s, '\n');
            y = y + 1;
        }
        proof {
            assert(render_rows(grid, w, min_x as int, max_x as int, y as int, max_y as int)
                =~= Seq::<char>::empty());
            assert(s@ =~= header + render_rows(
                grid,
                w,
                min_x as int,
                max_x as int,
                min_y as int,
                max_y as int,
            ));
        }
        s
    }
}

/// A row holds at least one glyph.
pub open spec fn row_occ(grid: Seq<Option<Seq<char>>>, w: int, y: int) -> bool {
    exists|x: int| 0 <= x < w && #[trigger] grid[x + y * w] is Some
}

/// A column holds at least one glyph.
pub open spec fn col_occ(grid: Seq<Option<Seq<char>>>, w: int, h: int, x: int) -> bool {
    exists|y: int| 0 <= y < h && #[trigger] grid[x + y * w] is Some
}

/// The first occupied row at or below `y`, or `h` when there is none.
pub open spec fn first_row(grid: Seq<Option<Seq<char>>>, w: int, h: int, y: int) -> int
    decreases h - y,
{
    if y < 0 || y >= h {
        h
    } else if row_occ(grid, w, y) {
        y
    } else {
        first_row(grid, w, h, y + 1)
    }
}

/// The last occupied row at or above `y`, or `-1` when there is none.
pub open spec fn last_row(grid: Seq<Option<Seq<char>>>, w: int, y: int) -> int
    decreases y + 1,
{
    if y < 0 {
        -1
    } else if row_occ(grid, w, y) {
        y
    } else {
        last_row(grid, w, y - 1)
    }
}

/// The first occupied column at or right of `x`, or `w` when there is none.
pub open spec fn first_col(grid: Seq<Option<Seq<char>>>, w: int, h: int, x: int) -> int
    decreases w - x,
{
    if x < 0 || x >= w {
        w
    } else if col_occ(grid, w, h, x) {
        x
    } else {
        first_col(grid, w, h, x + 1)
    }
}

/// The last occupied column at or left of `x`, or `-1` when there is none.
pub open spec fn last_col(grid: Seq<Option<Seq<char>>>, w: int, h: int, x: int) -> int
    decreases x + 1,
{
    if x < 0 {
        -1
    } else if col_occ(grid, w, h, x) {
        x
    } else {
        last_col(grid, w, h, x - 1)
    }
}

/// One rendered row from column `x` through `x1`, each blank slot a space,
/// closed by a newline.
pub open spec fn render_row(grid: Seq<Option<Seq<char>>>, w: int, y: int, x: int, x1: int) -> Seq<
    char,
>
    decreases x1 + 1 - x,
{
    if x > x1 {
        seq!['\n']
    } else {
        (match grid[x + y * w] {
            None => seq![' '],
            Some(g) => g,
        }) + render_row(grid, w, y, x + 1, x1)
    }
}

/// The rendered rows from `y` through `y1` over columns `x0..=x1`.
pub open spec fn render_rows(
    grid: Seq<Option<Seq<char>>>,
    w: int,
    x0: int,
    x1: int,
    y: int,
    y1: int,
) -> Seq<char>
    decreases y1 + 1 - y,
{
    if y > y1 {
        Seq::empty()
    } else {
        render_row(grid, w, y, x0, x1) + render_rows(grid, w, x0, x1, y + 1, y1)
    }
}

/// The full rendering: the tight bounding box corners, then its rows; or a
/// fixed line when no slot holds a glyph.
pub open spec fn render_text(grid: Seq<Option<Seq<char>>>, w: int, h: int) -> Seq<char> {
    let y0 = first_row(grid, w, h, 0);
    if y0 == h {
        "Map is empty\n"@
    } else {
        let y1 = last_row(grid, w, h - 1);
        let x0 = first_col(grid, w, h, 0);
        let x1 = last_col(grid, w, h, w - 1);
        dec_text(x0 as nat) + ","@ + dec_text(y0 as nat) + " - "@ + dec_text(x1 as nat) + ","@
            + dec_text(y1 as nat) + "\n"@ + render_rows(grid, w, x0, x1, y0, y1)
    }
}

} // verus!
