use vstd::prelude::*;
use vstd::std_specs::cmp::PartialEqSpec;

verus! {

/// A signed cell coordinate. Valid cells are non-negative; negative components
/// appear only as direction deltas and intermediate results.
#[derive(Clone, Copy, Debug, PartialEq, Eq, Structural)]
pub struct Coord {
    pub x: i16,
    pub y: i16,
}

impl Coord {
    pub fn new(x: i16, y: i16) -> (c: Coord)
        ensures
            c == (Coord { x, y }),
    {
        Coord { x, y }
    }

    /// Whether the coordinate names a cell of a surface of `cols` by `rows` cells.
    pub open spec fn within(self, cols: int, rows: int) -> bool {
        0 <= self.x < cols && 0 <= self.y < rows
    }

    /// True when the component-wise sum with `delta` is again a coordinate.
    pub open spec fn can_add(self, delta: Coord) -> bool {
        &&& i16::MIN <= self.x + delta.x <= i16::MAX
        &&& i16::MIN <= self.y + delta.y <= i16::MAX
    }

    /// Component-wise sum.
    pub fn offset(self, delta: Coord) -> (c: Coord)
        requires
            self.can_add(delta),
        ensures
            c.x == self.x + delta.x,
            c.y == self.y + delta.y,
    {
        Coord { x: self.x + delta.x, y: self.y + delta.y }
    }

    /// Component-wise sum where it is representable, `None` otherwise.
    pub fn checked_offset(self, delta: Coord) -> (r: Option<Coord>)
        ensures
            r is Some <==> self.can_add(delta),
            r matches Some(c) ==> c.x == self.x + delta.x && c.y == self.y + delta.y,
    {
        match (self.x.checked_add(delta.x), self.y.checked_add(delta.y)) {
            (Some(x), Some(y)) => Some(Coord { x, y }),
            _ => None,
        }
    }
}

/// An axis-aligned block of cells: `size.x` columns and `size.y` rows starting
/// at `top_left`. A size with a component that is zero or negative holds no cell.
#[derive(Clone, Copy, Debug)]
pub struct Rect {
    pub top_left: Coord,
    pub size: Coord,
}

impl Rect {
    pub fn new(top_left: Coord, size: Coord) -> (r: Rect)
        ensures
            r.top_left == top_left,
            r.size == size,
    {
        Rect { top_left, size }
    }

    /// Whether cell `(x, y)` lies in the rectangle.
    pub open spec fn contains(self, x: int, y: int) -> bool {
        &&& self.top_left.x <= x < self.top_left.x + self.size.x
        &&& self.top_left.y <= y < self.top_left.y + self.size.y
    }

    /// Whether the rectangle holds no cell.
    pub open spec fn is_empty(self) -> bool {
        self.size.x <= 0 || self.size.y <= 0
    }

    /// Whether every cell of the rectangle lies on a surface of `cols` by `rows` cells.
    pub open spec fn fits(self, cols: int, rows: int) -> bool {
        self.is_empty() || {
            &&& 0 <= self.top_left.x
            &&& 0 <= self.top_left.y
            &&& self.top_left.x + self.size.x <= cols
            &&& self.top_left.y + self.size.y <= rows
        }
    }

    /// Whether every cell of the rectangle lies on a surface of `cols` by
    /// `rows` cells.
    pub fn fits_in(&self, cols: i16, rows: i16) -> (r: bool)
        ensures
            r == self.fits(cols as int, rows as int),
    {
        self.size.x <= 0 || self.size.y <= 0 || (self.top_left.x >= 0 && self.top_left.y >= 0
            && self.top_left.x as i32 + self.size.x as i32 <= cols as i32 && self.top_left.y as i32
            + self.size.y as i32 <= rows as i32)
    }

    /// Whether every cell of `self` is a cell of `outer`.
    pub open spec fn inside(self, outer: Rect) -> bool {
        forall|x: int, y: int| self.contains(x, y) ==> outer.contains(x, y)
    }
}

/// The executable `==` of `T` decides mathematical equality.
pub open spec fn plain_eq<T: PartialEq>() -> bool {
    &&& T::obeys_eq_spec()
    &&& forall|a: T, b: T| #[trigger] a.eq_spec(&b) <==> a == b
}

/// A rectangular surface of cells addressed by [`Coord`].
///
/// An implementor describes itself by its number of columns and rows and by the
/// value of each cell, and supplies single-cell access; the batch operations are
/// built on these.
pub trait Grid2D<T: Copy>: Sized {
    /// Number of columns.
    spec fn cols(&self) -> int;

    /// Number of rows.
    spec fn rows(&self) -> int;

    /// The value stored at column `x`, row `y`.
    spec fn cell(&self, x: int, y: int) -> T;

    /// The surface is internally consistent.
    spec fn wf(&self) -> bool;

    /// Every coordinate of a consistent surface is representable.
    proof fn dims_fit(&self)
        requires
            self.wf(),
        ensures
            0 <= self.cols() <= i16::MAX,
            0 <= self.rows() <= i16::MAX,
    ;

    fn width(&self) -> (w: i16)
        requires
            self.wf(),
        ensures
            w == self.cols(),
    ;

    fn height(&self) -> (h: i16)
        requires
            self.wf(),
        ensures
            h == self.rows(),
    ;

    fn get(&self, position: Coord) -> (value: T)
        requires
            self.wf(),
            position.within(self.cols(), self.rows()),
        ensures
            value == self.cell(position.x as int, position.y as int),
    ;

    fn set(&mut self, position: Coord, value: T)
        requires
            old(self).wf(),
            position.within(old(self).cols(), old(self).rows()),
        ensures
            final(self).wf(),
            final(self).cols() == old(self).cols(),
            final(self).rows() == old(self).rows(),
            forall|x: int, y: int|
                #[trigger] final(self).cell(x, y) == if x == position.x && y == position.y {
                    value
                } else {
                    old(self).cell(x, y)
                },
    ;

    /// The checked bounds test for coordinates that come from outside or from
    /// adding a delta.
    fn is_in_bounds(&self, position: Coord) -> (r: bool)
        requires
            self.wf(),
        ensures
            r == position.within(self.cols(), self.rows()),
    {
        position.x >= 0 && position.x < self.width() && position.y >= 0 && position.y
            < self.height()
    }

    /// Replaces the value `v` of every cell `c` by `f(v, c)`, rows from top to
    /// bottom and each row from left to right.
    fn for_each<F: Fn(T, Coord) -> T>(&mut self, f: F)
        requires
            old(self).wf(),
            forall|c: Coord|
                c.within(old(self).cols(), old(self).rows()) ==> #[trigger] f.requires(
                    (old(self).cell(c.x as int, c.y as int), c),
                ),
        ensures
            final(self).wf(),
            final(self).cols() == old(self).cols(),
            final(self).rows() == old(self).rows(),
            forall|c: Coord|
                c.within(old(self).cols(), old(self).rows()) ==> #[trigger] f.ensures(
                    (old(self).cell(c.x as int, c.y as int), c),
                    final(self).cell(c.x as int, c.y as int),
                ),
    {
        let w = self.width();
        let h = self.height();
        proof {
            self.dims_fit();
        }
        let mut y: i16 = 0;
        while y < h
            invariant
                self.wf(),
                self.cols() == old(self).cols() == w,
                self.rows() == old(self).rows() == h,
                0 <= y <= h,
                0 <= w,
                forall|c: Coord|
                    c.within(old(self).cols(), old(self).rows()) ==> #[trigger] f.requires(
                        (old(self).cell(c.x as int, c.y as int), c),
                    ),
                forall|c: Coord|
                    c.within(old(self).cols(), old(self).rows()) && c.y < y ==> #[trigger] f.ensures(
                        (old(self).cell(c.x as int, c.y as int), c),
                        self.cell(c.x as int, c.y as int),
                    ),
                forall|c: Coord|
                    c.within(old(self).cols(), old(self).rows()) && c.y >= y ==> #[trigger] self.cell(
                        c.x as int,
                        c.y as int,
                    ) == old(self).cell(c.x as int, c.y as int),
            decreases h - y,
        {
            let mut x: i16 = 0;
            while x < w
                invariant
                    self.wf(),
                    self.cols() == old(self).cols() == w,
                    self.rows() == old(self).rows() == h,
                    0 <= y < h,
                    0 <= x <= w,
                    forall|c: Coord|
                        c.within(old(self).cols(), old(self).rows()) ==> #[trigger] f.requires(
                            (old(self).cell(c.x as int, c.y as int), c),
                        ),
                    forall|c: Coord|
                        c.within(old(self).cols(), old(self).rows()) && (c.y < y || (c.y == y && c.x < x))
                            ==> #[trigger] f.ensures(
                            (old(self).cell(c.x as int, c.y as int), c),
                            self.cell(c.x as int, c.y as int),
                        ),
                    forall|c: Coord|
                        c.within(old(self).cols(), old(self).rows()) && (c.y > y || (c.y == y && c.x >= x))
                            ==> #[trigger] self.cell(c.x as int, c.y as int) == old(self).cell(
                            c.x as int,
                            c.y as int,
                        ),
                decreases w - x,
            {
                let position = Coord { x, y };
                let ghost before = *self;
                assert(position.within(old(self).cols(), old(self).rows()));
                assert(self.cell(position.x as int, position.y as int) == old(self).cell(
                    position.x as int,
                    position.y as int,
                ));
                let current = self.get(position);
                let next = f(current, position);
                self.set(position, next);
                assert forall|c: Coord|
                    c.within(old(self).cols(), old(self).rows()) && (c.y < y || (c.y == y && c.x < x + 1))
                    implies #[trigger] f.ensures(
                    (old(self).cell(c.x as int, c.y as int), c),
                    self.cell(c.x as int, c.y as int),
                ) by {
                    if c.x == x && c.y == y {
                        assert(c == position);
                    } else {
                        assert(self.cell(c.x as int, c.y as int) == before.cell(
                            c.x as int,
                            c.y as int,
                        ));
                    }
                }
                assert forall|c: Coord|
                    c.within(old(self).cols(), old(self).rows()) && (c.y > y || (c.y == y && c.x >= x + 1))
                    implies #[trigger] self.cell(c.x as int, c.y as int) == old(self).cell(
                    c.x as int,
                    c.y as int,
                ) by {
                    assert(self.cell(c.x as int, c.y as int) == before.cell(
                        c.x as int,
                        c.y as int,
                    ));
                }
                x = x + 1;
            }
            y = y + 1;
        }
    }

    /// Whether every cell of `rect` equals `value`. A rectangle without cells
    /// passes.
    fn rect_has_value(&self, rect: Rect, value: T) -> (r: bool) where T: PartialEq
        requires
            self.wf(),
            plain_eq::<T>(),
            rect.fits(self.cols(), self.rows()),
        ensures
            r == (forall|x: int, y: int| rect.contains(x, y) ==> #[trigger] self.cell(x, y) == value),
    {
        let x0: i32 = rect.top_left.x as i32;
        let y0: i32 = rect.top_left.y as i32;
        let x1: i32 = x0 + rect.size.x as i32;
        let y1: i32 = y0 + rect.size.y as i32;
        if x1 <= x0 || y1 <= y0 {
            return true;
        }
        proof {
            self.dims_fit();
        }
        let mut y: i32 = y0;
        while y < y1
            invariant
                self.wf(),
                plain_eq::<T>(),
                x0 == rect.top_left.x,
                y0 == rect.top_left.y,
                x1 == x0 + rect.size.x,
                y1 == y0 + rect.size.y,
                0 <= x0 < x1 <= self.cols() <= i16::MAX,
                0 <= y0 <= y <= y1 <= self.rows() <= i16::MAX,
                forall|cx: int, cy: int|
                    rect.contains(cx, cy) && cy < y ==> #[trigger] self.cell(cx, cy) == value,
            decreases y1 - y,
        {
            let mut x: i32 = x0;
            while x < x1
                invariant
                    self.wf(),
                    plain_eq::<T>(),
                    x0 == rect.top_left.x,
                    y0 == rect.top_left.y,
                    x1 == x0 + rect.size.x,
                    y1 == y0 + rect.size.y,
                    0 <= x0 <= x <= x1 <= self.cols() <= i16::MAX,
                    0 <= y0 <= y < y1 <= self.rows() <= i16::MAX,
                    forall|cx: int, cy: int|
                        rect.contains(cx, cy) && (cy < y || (cy == y && cx < x))
                            ==> #[trigger] self.cell(cx, cy) == value,
                decreases x1 - x,
            {
                let position = Coord { x: x as i16, y: y as i16 };
                if self.get(position) != value {
                    assert(rect.contains(x as int, y as int));
                    assert(self.cell(x as int, y as int) != value);
                    return false;
                }
                x = x + 1;
            }
            y = y + 1;
        }
        true
    }

    /// Writes `value` to every cell of `rect`, whatever the cells held, and
    /// reports `true`.
    fn set_rect_value(&mut self, rect: Rect, value: T) -> (r: bool)
        requires
            old(self).wf(),
            rect.fits(old(self).cols(), old(self).rows()),
        ensures
            r,
            final(self).wf(),
            final(self).cols() == old(self).cols(),
            final(self).rows() == old(self).rows(),
            forall|x: int, y: int|
                #[trigger] final(self).cell(x, y) == if rect.contains(x, y) {
                    value
                } else {
                    old(self).cell(x, y)
                },
    {
        let x0: i32 = rect.top_left.x as i32;
        let y0: i32 = rect.top_left.y as i32;
        let x1: i32 = x0 + rect.size.x as i32;
        let y1: i32 = y0 + rect.size.y as i32;
        if x1 <= x0 || y1 <= y0 {
            return true;
        }
        proof {
            self.dims_fit();
        }
        let mut y: i32 = y0;
        while y < y1
            invariant
                self.wf(),
                self.cols() == old(self).cols(),
                self.rows() == old(self).rows(),
                x0 == rect.top_left.x,
                y0 == rect.top_left.y,
                x1 == x0 + rect.size.x,
                y1 == y0 + rect.size.y,
                0 <= x0 < x1 <= self.cols() <= i16::MAX,
                0 <= y0 <= y <= y1 <= self.rows() <= i16::MAX,
                forall|cx: int, cy: int|
                    #[trigger] self.cell(cx, cy) == if rect.contains(cx, cy) && cy < y {
                        value
                    } else {
                        old(self).cell(cx, cy)
                    },
            decreases y1 - y,
        {
            let mut x: i32 = x0;
            while x < x1
                invariant
                    self.wf(),
                    self.cols() == old(self).cols(),
                    self.rows() == old(self).rows(),
                    x0 == rect.top_left.x,
                    y0 == rect.top_left.y,
                    x1 == x0 + rect.size.x,
                    y1 == y0 + rect.size.y,
                    0 <= x0 <= x <= x1 <= self.cols() <= i16::MAX,
                    0 <= y0 <= y < y1 <= self.rows() <= i16::MAX,
                    forall|cx: int, cy: int|
                        #[trigger] self.cell(cx, cy) == if rect.contains(cx, cy) && (cy < y || (cy
                            == y && cx < x)) {
                            value
                        } else {
                            old(self).cell(cx, cy)
                        },
                decreases x1 - x,
            {
                let position = Coord { x: x as i16, y: y as i16 };
                self.set(position, value);
                x = x + 1;
            }
            y = y + 1;
        }
        true
    }
}

/// Position of cell `(x, y)` in a row-major buffer of rows `w` cells wide.
pub open spec fn flat_index(x: int, y: int, w: int) -> int {
    y * w + x
}

proof fn lemma_flat_index_in_range(x: int, y: int, w: int, h: int)
    by (nonlinear_arith)
    requires
        0 <= x < w,
        0 <= y < h,
    ensures
        0 <= flat_index(x, y, w) < w * h,
        y * w <= (h - 1) * w,
{
}

proof fn lemma_flat_index_injective(x1: int, y1: int, x2: int, y2: int, w: int)
    by (nonlinear_arith)
    requires
        0 <= x1 < w,
        0 <= x2 < w,
        flat_index(x1, y1, w) == flat_index(x2, y2, w),
    ensures
        x1 == x2,
        y1 == y2,
{
    if y1 < y2 {
        assert((y2 - y1) * w >= w);
    } else if y2 < y1 {
        assert((y1 - y2) * w >= w);
    }
}

proof fn lemma_area_fits(w: int, h: int)
    by (nonlinear_arith)
    requires
        0 <= w <= i16::MAX,
        0 <= h <= i16::MAX,
    ensures
        0 <= w * h <= 0x3fff_0001,
{
}

/// An owned dense buffer of cells, one row after the other.
#[derive(Clone, Debug)]
pub struct Grid<T> {
    width: i16,
    height: i16,
    cells: Vec<T>,
}

impl<T: Copy> Grid<T> {
    /// A surface of `width` by `height` cells that all hold `fill`.
    pub fn new(width: i16, height: i16, fill: T) -> (grid: Grid<T>)
        requires
            0 <= width,
            0 <= height,
        ensures
            grid.wf(),
            grid.cols() == width,
            grid.rows() == height,
            forall|x: int, y: int|
                0 <= x < width && 0 <= y < height ==> #[trigger] grid.cell(x, y) == fill,
    {
        proof {
            lemma_area_fits(width as int, height as int);
        }
        let total: usize = width as usize * height as usize;
        let mut cells: Vec<T> = Vec::new();
        while cells.len() < total
            invariant
                cells.len() <= total,
                forall|i: int| 0 <= i < cells.len() ==> cells[i] == fill,
            decreases total - cells.len(),
        {
            cells.push(fill);
        }
        let grid = Grid { width, height, cells };
        assert forall|x: int, y: int| 0 <= x < width && 0 <= y < height implies #[trigger] grid.cell(
            x,
            y,
        ) == fill by {
            lemma_flat_index_in_range(x, y, width as int, height as int);
        }
        grid
    }

    /// The surface whose row `y` is `rows[y]`, if the rows have one length and
    /// the surface can be addressed by coordinates.
    pub fn from_rows(rows: &Vec<Vec<T>>) -> (r: Option<Grid<T>>)
        ensures
            r is Some <==> {
                &&& rows.len() <= i16::MAX
                &&& forall|y: int|
                    0 <= y < rows.len() ==> (#[trigger] rows[y]).len() == rows[0].len()
                &&& rows.len() > 0 ==> rows[0].len() <= i16::MAX
            },
            r matches Some(grid) ==> {
                &&& grid.wf()
                &&& grid.rows() == rows.len()
                &&& grid.cols() == if rows.len() > 0 {
                    rows[0].len()
                } else {
                    0
                }
                &&& forall|x: int, y: int|
                    0 <= x < grid.cols() && 0 <= y < grid.rows() ==> #[trigger] grid.cell(x, y)
                        == rows[y][x]
            },
    {
        if rows.len() > i16::MAX as usize {
            return None;
        }
        let height: i16 = rows.len() as i16;
        if height == 0 {
            return Some(Grid { width: 0, height: 0, cells: Vec::new() });
        }
        if rows[0].len() > i16::MAX as usize {
            return None;
        }
        let width: i16 = rows[0].len() as i16;
        let mut y: usize = 0;
        while y < rows.len()
            invariant
                0 <= y <= rows.len(),
                rows[0].len() == width,
                forall|j: int| 0 <= j < y ==> (#[trigger] rows[j]).len() == width,
            decreases rows.len() - y,
        {
            if rows[y].len() != width as usize {
                return None;
            }
            y = y + 1;
        }
        if width == 0 {
            return Some(Grid { width, height, cells: Vec::new() });
        }
        let mut grid = Grid::new(width, height, rows[0][0]);
        let mut y: i16 = 0;
        while y < height
            invariant
                grid.wf(),
                grid.cols() == width,
                grid.rows() == height == rows.len(),
                0 <= y <= height,
                forall|j: int| 0 <= j < height ==> (#[trigger] rows[j]).len() == width,
                forall|cx: int, cy: int|
                    0 <= cx < width && 0 <= cy < y ==> #[trigger] grid.cell(cx, cy)
                        == rows[cy][cx],
            decreases height - y,
        {
            let row = &rows[y as usize];
            let mut x: i16 = 0;
            while x < width
                invariant
                    grid.wf(),
                    grid.cols() == width,
                    grid.rows() == height == rows.len(),
                    0 <= y < height,
                    0 <= x <= width,
                    row == rows[y as int],
                    row.len() == width,
                    forall|cx: int, cy: int|
                        0 <= cx < width && (0 <= cy < y || (cy == y && cx < x))
                            ==> #[trigger] grid.cell(cx, cy) == rows[cy][cx],
                decreases width - x,
            {
                grid.set(Coord { x, y }, row[x as usize]);
                x = x + 1;
            }
            y = y + 1;
        }
        Some(grid)
    }
}

impl<T: Copy> Grid2D<T> for Grid<T> {
    closed spec fn cols(&self) -> int {
        self.width as int
    }

    closed spec fn rows(&self) -> int {
        self.height as int
    }

    closed spec fn cell(&self, x: int, y: int) -> T {
        if 0 <= x < self.width && 0 <= y < self.height {
            self.cells@[flat_index(x, y, self.width as int)]
        } else {
            arbitrary()
        }
    }

    closed spec fn wf(&self) -> bool {
        &&& 0 <= self.width
        &&& 0 <= self.height
        &&& self.cells.len() == self.width * self.height
    }

    proof fn dims_fit(&self) {
    }

    fn width(&self) -> (w: i16) {
        self.width
    }

    fn height(&self) -> (h: i16) {
        self.height
    }

    fn get(&self, position: Coord) -> (value: T) {
        proof {
            lemma_flat_index_in_range(
                position.x as int,
                position.y as int,
                self.width as int,
                self.height as int,
            );
            lemma_area_fits(self.width as int, self.height as int);
        }
        self.cells[position.y as usize * self.width as usize + position.x as usize]
    }

    fn set(&mut self, position: Coord, value: T) {
        proof {
            lemma_flat_index_in_range(
                position.x as int,
                position.y as int,
                self.width as int,
                self.height as int,
            );
            lemma_area_fits(self.width as int, self.height as int);
        }
        let index: usize = position.y as usize * self.width as usize + position.x as usize;
        self.cells[index] = value;
        assert forall|x: int, y: int|
            #[trigger] self.cell(x, y) == if x == position.x && y == position.y {
                value
            } else {
                old(self).cell(x, y)
            } by {
            if 0 <= x < self.width && 0 <= y < self.height {
                lemma_flat_index_in_range(x, y, self.width as int, self.height as int);
                if flat_index(x, y, self.width as int) == index {
                    lemma_flat_index_injective(
                        x,
                        y,
                        position.x as int,
                        position.y as int,
                        self.width as int,
                    );
                }
            }
        }
    }
}

/// Every cell of `rect` holds `value`.
pub open spec fn rect_holds<T: Copy, G: Grid2D<T>>(
    grid: &G,
    rect: Rect,
    value: T,
) -> bool {
    forall|x: int, y: int| rect.contains(x, y) ==> #[trigger] grid.cell(x, y) == value
}

/// `after` is `before` with every cell of `rect` overwritten by `value`.
pub open spec fn is_rect_fill_of<T: Copy, G: Grid2D<T>>(
    after: &G,
    before: &G,
    rect: Rect,
    value: T,
) -> bool {
    &&& after.cols() == before.cols()
    &&& after.rows() == before.rows()
    &&& forall|x: int, y: int|
        #[trigger] after.cell(x, y) == if rect.contains(x, y) {
            value
        } else {
            before.cell(x, y)
        }
}

/// Writing a value over a rectangle makes every rectangle inside it test
/// positive for that value.
pub proof fn lemma_fill_then_test<T: Copy, G: Grid2D<T>>(
    before: G,
    after: G,
    rect: Rect,
    sub: Rect,
    value: T,
)
    requires
        is_rect_fill_of(&after, &before, rect, value),
        sub.inside(rect),
    ensures
        rect_holds(&after, sub, value),
{
    assert forall|x: int, y: int| sub.contains(x, y) implies #[trigger] after.cell(x, y)
        == value by {
        assert(rect.contains(x, y));
    }
}

} // verus!
