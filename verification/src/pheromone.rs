use vstd::prelude::*;
use crate::grid::{Coord, Grid, Grid2D};

verus! {

/// A diffusion factor in 1024ths: 1024 evens two neighbours out in one step.
#[derive(Debug, Clone, Copy, PartialEq, Eq, Structural)]
pub struct DiffusionProportion(pub u16);

impl DiffusionProportion {
    /// The factor that stands for `percent` per cent.
    pub fn from_percent(percent: i32) -> (r: Self)
        requires
            0 <= percent <= 100,
        ensures
            r.0 == (percent * 1024) / 100,
            r.0 <= 1024,
    {
        let value: i32 = (percent * 1024) / 100;
        DiffusionProportion(value as u16)
    }

    /// The factor in 1024ths.
    pub fn value(&self) -> (v: u16)
        ensures
            v == self.0,
    {
        self.0
    }
}

/// The kinds of resource that leave a trail.
#[derive(Debug, Copy, Clone, Eq, PartialEq, Structural)]
pub enum ResourceType {
    Wheat,
    Wood,
    Stone,
    Algae,
}

impl ResourceType {
    /// The number of the resource, from 0 for wheat on.
    pub open spec fn ordinal(self) -> u8 {
        match self {
            ResourceType::Wheat => 0,
            ResourceType::Wood => 1,
            ResourceType::Stone => 2,
            ResourceType::Algae => 3,
        }
    }

    /// The number of the resource.
    pub fn index(self) -> (n: u8)
        ensures
            n == self.ordinal(),
    {
        match self {
            ResourceType::Wheat => 0,
            ResourceType::Wood => 1,
            ResourceType::Stone => 2,
            ResourceType::Algae => 3,
        }
    }

    /// The resource with number `n`, if there is one.
    pub fn from_index(n: u8) -> (r: Option<ResourceType>)
        ensures
            r is Some <==> n < 4,
            r matches Some(resource) ==> resource.ordinal() == n,
    {
        match n {
            0 => Some(ResourceType::Wheat),
            1 => Some(ResourceType::Wood),
            2 => Some(ResourceType::Stone),
            3 => Some(ResourceType::Algae),
            _ => None,
        }
    }
}

/// The largest proportion that the diffusion can compute with: beyond it the
/// share of a difference need not fit 32 bits.
pub const MAX_PROPORTION: u16 = 32768;

/// The coordinate of column `x`, row `y`.
pub open spec fn at(x: int, y: int) -> Coord {
    Coord { x: x as i16, y: y as i16 }
}

/// The intensities of a surface as a function of column and row.
pub open spec fn field_of<G: Grid2D<u16>>(grid: &G) -> spec_fn(int, int) -> u16 {
    |x: int, y: int| grid.cell(x, y)
}

/// What a passability test says of each cell: the cells for which it can
/// answer `true`.
pub open spec fn verdict<F: Fn(Coord) -> bool>(passable: F) -> spec_fn(Coord) -> bool {
    |c: Coord| passable.ensures((c,), true)
}

/// Whatever the test answers for a cell of a surface of `cols` by `rows`
/// cells is what `predicate` says of the cell.
pub open spec fn answers<F: Fn(Coord) -> bool>(
    passable: F,
    predicate: spec_fn(Coord) -> bool,
    cols: int,
    rows: int,
) -> bool {
    forall|c: Coord, r: bool|
        c.within(cols, rows) && #[trigger] passable.ensures((c,), r) ==> r == predicate(c)
}

/// The test can be asked about every cell of a surface of `cols` by `rows`
/// cells and has one answer for each.
pub open spec fn decides<F: Fn(Coord) -> bool>(passable: F, cols: int, rows: int) -> bool {
    &&& forall|c: Coord| c.within(cols, rows) ==> #[trigger] passable.requires((c,))
    &&& answers(passable, verdict(passable), cols, rows)
}

/// An intensity after evaporation: one less, and never below zero.
pub open spec fn evaporated(intensity: u16) -> u16 {
    if intensity > 0 {
        (intensity - 1) as u16
    } else {
        0
    }
}

/// What a cell of intensity `here` gains from a neighbour of intensity
/// `there`: the given share of the difference, rounded down. A negative gain
/// is a loss.
pub open spec fn gain(here: u16, there: u16, proportion: u16) -> int {
    ((there - here) * proportion) / 1024
}

/// What cell `(x, y)` gains from its right neighbour. Nothing flows where
/// there is no neighbour or one of the two cells is impassable.
pub open spec fn flow_x(
    field: spec_fn(int, int) -> u16,
    cols: int,
    passable: spec_fn(Coord) -> bool,
    proportion: u16,
    x: int,
    y: int,
) -> int {
    if 0 <= x && x + 1 < cols && passable(at(x, y)) && passable(at(x + 1, y)) {
        gain(field(x, y), field(x + 1, y), proportion)
    } else {
        0
    }
}

/// What cell `(x, y)` gains from the neighbour below it.
pub open spec fn flow_y(
    field: spec_fn(int, int) -> u16,
    rows: int,
    passable: spec_fn(Coord) -> bool,
    proportion: u16,
    x: int,
    y: int,
) -> int {
    if 0 <= y && y + 1 < rows && passable(at(x, y)) && passable(at(x, y + 1)) {
        gain(field(x, y), field(x, y + 1), proportion)
    } else {
        0
    }
}

/// The intensity of cell `(x, y)` after diffusion along the rows, before it
/// is cut to 16 bits: the cell gains from its right neighbour and gives to its
/// left neighbour, both measured on the field as it was.
pub open spec fn settled_x(
    field: spec_fn(int, int) -> u16,
    cols: int,
    passable: spec_fn(Coord) -> bool,
    proportion: u16,
    x: int,
    y: int,
) -> int {
    field(x, y) + flow_x(field, cols, passable, proportion, x, y) - flow_x(
        field,
        cols,
        passable,
        proportion,
        x - 1,
        y,
    )
}

/// The intensity of cell `(x, y)` after diffusion along the columns, before it
/// is cut to 16 bits.
pub open spec fn settled_y(
    field: spec_fn(int, int) -> u16,
    rows: int,
    passable: spec_fn(Coord) -> bool,
    proportion: u16,
    x: int,
    y: int,
) -> int {
    field(x, y) + flow_y(field, rows, passable, proportion, x, y) - flow_y(
        field,
        rows,
        passable,
        proportion,
        x,
        y - 1,
    )
}

/// The field after diffusion along the rows.
pub open spec fn diffused_x(
    field: spec_fn(int, int) -> u16,
    cols: int,
    passable: spec_fn(Coord) -> bool,
    proportion: u16,
) -> spec_fn(int, int) -> u16 {
    |x: int, y: int| settled_x(field, cols, passable, proportion, x, y) as u16
}

/// The field after diffusion along the columns.
pub open spec fn diffused_y(
    field: spec_fn(int, int) -> u16,
    rows: int,
    passable: spec_fn(Coord) -> bool,
    proportion: u16,
) -> spec_fn(int, int) -> u16 {
    |x: int, y: int| settled_y(field, rows, passable, proportion, x, y) as u16
}

/// The share of a difference of two intensities fits 32 bits with room to
/// spare, and the shift that computes it rounds down.
proof fn lemma_gain(here: u16, there: u16, proportion: u16)
    requires
        proportion <= MAX_PROPORTION,
    ensures
        -2147450880 <= (there - here) * proportion <= 2147450880,
        -2097120 <= gain(here, there, proportion) <= 2097120,
        (((there - here) * proportion) as i32) >> 10 == gain(here, there, proportion),
{
    let d: int = there - here;
    assert(-2147450880 <= d * proportion <= 2147450880) by (nonlinear_arith)
        requires
            -65535 <= d <= 65535,
            0 <= proportion <= 32768,
    ;
    let m: i32 = (d * proportion) as i32;
    assert(m >> 10 == m / 1024) by (bit_vector);
}

/// What has been added to entry `j` of a row's accumulator when the pairs
/// left of column `done` have been looked at.
pub open spec fn pending_x(
    field: spec_fn(int, int) -> u16,
    cols: int,
    passable: spec_fn(Coord) -> bool,
    proportion: u16,
    done: int,
    j: int,
    y: int,
) -> int {
    (if j < done {
        flow_x(field, cols, passable, proportion, j, y)
    } else {
        0
    }) - (if j - 1 < done {
        flow_x(field, cols, passable, proportion, j - 1, y)
    } else {
        0
    })
}

/// What has been added to entry `j` of a column's accumulator when the pairs
/// above row `done` have been looked at.
pub open spec fn pending_y(
    field: spec_fn(int, int) -> u16,
    rows: int,
    passable: spec_fn(Coord) -> bool,
    proportion: u16,
    done: int,
    x: int,
    j: int,
) -> int {
    (if j < done {
        flow_y(field, rows, passable, proportion, x, j)
    } else {
        0
    }) - (if j - 1 < done {
        flow_y(field, rows, passable, proportion, x, j - 1)
    } else {
        0
    })
}

/// The test has been seen to give its verdict on cell `(x, y)` and, where
/// that cell is passable, on the cell `(x + dx, y + dy)` as well.
pub open spec fn pair_seen<F: Fn(Coord) -> bool>(passable: F, x: int, y: int, dx: int, dy: int) -> bool {
    &&& passable.ensures((at(x, y),), verdict(passable)(at(x, y)))
    &&& verdict(passable)(at(x, y)) ==> passable.ensures(
        (at(x + dx, y + dy),),
        verdict(passable)(at(x + dx, y + dy)),
    )
}

proof fn lemma_flow_x_agrees<F: Fn(Coord) -> bool>(
    passable: F,
    predicate: spec_fn(Coord) -> bool,
    field: spec_fn(int, int) -> u16,
    cols: int,
    rows: int,
    proportion: u16,
    x: int,
    y: int,
)
    requires
        answers(passable, predicate, cols, rows),
        cols <= i16::MAX,
        rows <= i16::MAX,
        0 <= y < rows,
        0 <= x && x + 1 < cols ==> pair_seen(passable, x, y, 1, 0),
    ensures
        flow_x(field, cols, verdict(passable), proportion, x, y) == flow_x(
            field,
            cols,
            predicate,
            proportion,
            x,
            y,
        ),
{
    if 0 <= x && x + 1 < cols {
        assert(at(x, y).within(cols, rows));
        assert(at(x + 1, y).within(cols, rows));
    }
}

proof fn lemma_flow_y_agrees<F: Fn(Coord) -> bool>(
    passable: F,
    predicate: spec_fn(Coord) -> bool,
    field: spec_fn(int, int) -> u16,
    cols: int,
    rows: int,
    proportion: u16,
    x: int,
    y: int,
)
    requires
        answers(passable, predicate, cols, rows),
        cols <= i16::MAX,
        rows <= i16::MAX,
        0 <= x < cols,
        0 <= y && y + 1 < rows ==> pair_seen(passable, x, y, 0, 1),
    ensures
        flow_y(field, rows, verdict(passable), proportion, x, y) == flow_y(
            field,
            rows,
            predicate,
            proportion,
            x,
            y,
        ),
{
    if 0 <= y && y + 1 < rows {
        assert(at(x, y).within(cols, rows));
        assert(at(x, y + 1).within(cols, rows));
    }
}

/// Diffusion along the columns of a surface reads no cell outside the
/// surface: on a surface that holds the row-diffused field, it gives the
/// column diffusion of that field.
proof fn lemma_two_passes<G: Grid2D<u16>>(
    between: &G,
    field: spec_fn(int, int) -> u16,
    cols: int,
    rows: int,
    predicate: spec_fn(Coord) -> bool,
    proportion: u16,
    x: int,
    y: int,
)
    requires
        0 <= x < cols,
        0 <= y < rows,
        forall|cx: int, cy: int|
            0 <= cx < cols && 0 <= cy < rows ==> #[trigger] between.cell(cx, cy) == diffused_x(
                field,
                cols,
                predicate,
                proportion,
            )(cx, cy),
    ensures
        diffused_y(field_of(between), rows, predicate, proportion)(x, y) == diffused_y(
            diffused_x(field, cols, predicate, proportion),
            rows,
            predicate,
            proportion,
        )(x, y),
{
    let along_x = diffused_x(field, cols, predicate, proportion);
    let seen = field_of(between);
    assert(seen(x, y) == between.cell(x, y));
    assert(seen(x, y + 1) == between.cell(x, y + 1));
    assert(seen(x, y - 1) == between.cell(x, y - 1));
    assert(flow_y(seen, rows, predicate, proportion, x, y) == flow_y(
        along_x,
        rows,
        predicate,
        proportion,
        x,
        y,
    ));
    assert(flow_y(seen, rows, predicate, proportion, x, y - 1) == flow_y(
        along_x,
        rows,
        predicate,
        proportion,
        x,
        y - 1,
    ));
}

/// A surface of intensities that fade and spread.
pub trait Dispersion: Grid2D<u16> {
    /// Lowers every intensity by one, stopping at zero.
    fn evaporate(&mut self)
        requires
            old(self).wf(),
        ensures
            final(self).wf(),
            final(self).cols() == old(self).cols(),
            final(self).rows() == old(self).rows(),
            forall|x: int, y: int|
                0 <= x < old(self).cols() && 0 <= y < old(self).rows() ==> #[trigger] final(self).cell(x, y) == evaporated(old(self).cell(x, y)),
    {
        proof {
            self.dims_fit();
        }
        let fade = |intensity: u16, position: Coord| -> (faded: u16)
            ensures
                faded == evaporated(intensity),
            { intensity.saturating_sub(1) };
        self.for_each(fade);
        assert forall|x: int, y: int|
            0 <= x < old(self).cols() && 0 <= y < old(self).rows() implies #[trigger] self.cell(
            x,
            y,
        ) == evaporated(old(self).cell(x, y)) by {
            let c = at(x, y);
            assert(c.within(old(self).cols(), old(self).rows()));
            assert(fade.ensures((old(self).cell(c.x as int, c.y as int), c), self.cell(c.x as int, c.y as int)));
        }
    }

    /// Lets every pair of passable cells that lie side by side in a row even
    /// out by `proportion` 1024ths of their difference. All pairs of a row are
    /// measured before any cell of the row changes.
    fn diffuse_x<F: Fn(Coord) -> bool>(&mut self, proportion: u16, passable: F)
        requires
            old(self).wf(),
            proportion <= MAX_PROPORTION,
            decides(passable, old(self).cols(), old(self).rows()),
        ensures
            final(self).wf(),
            final(self).cols() == old(self).cols(),
            final(self).rows() == old(self).rows(),
            forall|x: int, y: int|
                0 <= x < old(self).cols() && 0 <= y < old(self).rows() ==> #[trigger] final(self).cell(
                    x,
                    y,
                ) == diffused_x(
                    field_of(old(self)),
                    old(self).cols(),
                    verdict(passable),
                    proportion,
                )(x, y),
            forall|predicate: spec_fn(Coord) -> bool| #[trigger]
                answers(passable, predicate, old(self).cols(), old(self).rows()) ==> forall|
                    x: int,
                    y: int,
                |
                    0 <= x < old(self).cols() && 0 <= y < old(self).rows() ==> #[trigger] final(self).cell(
                        x,
                        y,
                    ) == diffused_x(field_of(old(self)), old(self).cols(), predicate, proportion)(
                        x,
                        y,
                    ),
    {
        let w: i16 = self.width();
        let h: i16 = self.height();
        proof {
            self.dims_fit();
        }
        let ghost field = field_of(old(self));
        let ghost pass = verdict(passable);
        let share: i32 = proportion as i32;
        let mut deltas: Vec<i32> = vec![0i32; w as usize];
        let mut y: i16 = 0;
        while y < h
            invariant
                self.wf(),
                self.cols() == old(self).cols() == w,
                self.rows() == old(self).rows() == h,
                0 <= w,
                0 <= y <= h,
                share == proportion,
                proportion <= MAX_PROPORTION,
                field == field_of(old(self)),
                pass == verdict(passable),
                decides(passable, w as int, h as int),
                deltas.len() == w,
                forall|j: int| 0 <= j < w ==> deltas[j] == 0,
                forall|cx: int, cy: int|
                    0 <= cx && cx + 1 < w && 0 <= cy < h && cy < y ==> #[trigger] pair_seen(passable, cx, cy, 1, 0),
                forall|cx: int, cy: int|
                    0 <= cx < w && 0 <= cy < h ==> #[trigger] self.cell(cx, cy) == if cy < y {
                        diffused_x(field, w as int, pass, proportion)(cx, cy)
                    } else {
                        field(cx, cy)
                    },
            decreases h - y,
        {
            let mut x: i16 = 0;
            while x < w - 1
                invariant
                    self.wf(),
                    self.cols() == old(self).cols() == w,
                    self.rows() == old(self).rows() == h,
                    0 <= y < h,
                    0 <= x,
                    x <= w - 1 || w == 0,
                    share == proportion,
                    proportion <= MAX_PROPORTION,
                    field == field_of(old(self)),
                    pass == verdict(passable),
                    decides(passable, w as int, h as int),
                    forall|cx: int, cy: int|
                        0 <= cx && cx + 1 < w && 0 <= cy < h && (cy < y || (cy == y && cx < x)) ==> #[trigger] pair_seen(passable, cx, cy, 1, 0),
                    deltas.len() == w,
                    forall|j: int|
                        0 <= j < w ==> #[trigger] deltas[j] == pending_x(
                            field,
                            w as int,
                            pass,
                            proportion,
                            x as int,
                            j,
                            y as int,
                        ),
                    forall|cx: int, cy: int|
                        0 <= cx < w && 0 <= cy < h ==> #[trigger] self.cell(cx, cy) == if cy
                            < y {
                            diffused_x(field, w as int, pass, proportion)(cx, cy)
                        } else {
                            field(cx, cy)
                        },
                decreases w - x,
            {
                let cur_position = Coord { x, y };
                let next_position = Coord { x: x + 1, y };
                assert(cur_position == at(x as int, y as int));
                assert(next_position == at(x + 1, y as int));
                assert(cur_position.within(w as int, h as int));
                assert(next_position.within(w as int, h as int));
                let ghost earlier = deltas@;
                let cur_open = passable(cur_position);
                let next_open = if cur_open {
                    passable(next_position)
                } else {
                    false
                };
                assert(cur_open == pass(cur_position));
                assert(cur_open ==> next_open == pass(next_position));
                assert(pair_seen(passable, x as int, y as int, 1, 0));
                if cur_open && next_open {
                    let cur_value: i32 = self.get(cur_position) as i32;
                    let next_value: i32 = self.get(next_position) as i32;
                    proof {
                        lemma_gain(cur_value as u16, next_value as u16, proportion);
                    }
                    let delta: i32 = next_value - cur_value;
                    let amount: i32 = (delta * share) >> 10;
                    assert(amount == flow_x(field, w as int, pass, proportion, x as int, y as int));
                    proof {
                        if x > 0 {
                            lemma_gain(field(x - 1, y as int), field(x as int, y as int), proportion);
                        }
                    }
                    deltas[x as usize] = deltas[x as usize] + amount;
                    deltas[x as usize + 1] = deltas[x as usize + 1] - amount;
                }
                assert forall|j: int| 0 <= j < w implies #[trigger] deltas[j] == pending_x(
                    field,
                    w as int,
                    pass,
                    proportion,
                    x + 1,
                    j,
                    y as int,
                ) by {
                    assert(earlier[j] == pending_x(
                        field,
                        w as int,
                        pass,
                        proportion,
                        x as int,
                        j,
                        y as int,
                    ));
                }
                x = x + 1;
            }
            let mut x: i16 = 0;
            while x < w
                invariant
                    self.wf(),
                    self.cols() == old(self).cols() == w,
                    self.rows() == old(self).rows() == h,
                    0 <= y < h,
                    0 <= x <= w,
                    proportion <= MAX_PROPORTION,
                    field == field_of(old(self)),
                    pass == verdict(passable),
                    deltas.len() == w,
                    forall|j: int| 0 <= j < x ==> deltas[j] == 0,
                    forall|cx: int, cy: int|
                        0 <= cx && cx + 1 < w && 0 <= cy < h && cy <= y ==> #[trigger] pair_seen(passable, cx, cy, 1, 0),
                    forall|j: int|
                        x <= j < w ==> #[trigger] deltas[j] == settled_x(
                            field,
                            w as int,
                            pass,
                            proportion,
                            j,
                            y as int,
                        ) - field(j, y as int),
                    forall|cx: int, cy: int|
                        0 <= cx < w && 0 <= cy < h ==> #[trigger] self.cell(cx, cy) == if cy < y
                            || (cy == y && cx < x) {
                            diffused_x(field, w as int, pass, proportion)(cx, cy)
                        } else {
                            field(cx, cy)
                        },
                decreases w - x,
            {
                let position = Coord { x, y };
                let value: i32 = self.get(position) as i32;
                proof {
                    lemma_gain(field(x as int, y as int), field(x + 1, y as int), proportion);
                    lemma_gain(field(x - 1, y as int), field(x as int, y as int), proportion);
                }
                self.set(position, #[verifier::truncate] ((value + deltas[x as usize]) as u16));
                deltas[x as usize] = 0;
                x = x + 1;
            }
            y = y + 1;
        }
        proof {
            assert forall|predicate: spec_fn(Coord) -> bool| #[trigger]
                answers(passable, predicate, w as int, h as int) implies forall|x: int, y: int|
                0 <= x < w && 0 <= y < h ==> #[trigger] self.cell(x, y) == diffused_x(
                    field,
                    w as int,
                    predicate,
                    proportion,
                )(x, y) by {
                assert forall|x: int, y: int| 0 <= x < w && 0 <= y < h implies #[trigger] self.cell(
                    x,
                    y,
                ) == diffused_x(field, w as int, predicate, proportion)(x, y) by {
                    lemma_flow_x_agrees(
                        passable,
                        predicate,
                        field,
                        w as int,
                        h as int,
                        proportion,
                        x,
                        y,
                    );
                    lemma_flow_x_agrees(
                        passable,
                        predicate,
                        field,
                        w as int,
                        h as int,
                        proportion,
                        x - 1,
                        y,
                    );
                }
            }
        }
    }

    /// Lets every pair of passable cells that lie one above the other in a
    /// column even out by `proportion` 1024ths of their difference. All pairs
    /// of a column are measured before any cell of the column changes.
    fn diffuse_y<F: Fn(Coord) -> bool>(&mut self, proportion: u16, passable: F)
        requires
            old(self).wf(),
            proportion <= MAX_PROPORTION,
            decides(passable, old(self).cols(), old(self).rows()),
        ensures
            final(self).wf(),
            final(self).cols() == old(self).cols(),
            final(self).rows() == old(self).rows(),
            forall|x: int, y: int|
                0 <= x < old(self).cols() && 0 <= y < old(self).rows() ==> #[trigger] final(self).cell(
                    x,
                    y,
                ) == diffused_y(
                    field_of(old(self)),
                    old(self).rows(),
                    verdict(passable),
                    proportion,
                )(x, y),
            forall|predicate: spec_fn(Coord) -> bool| #[trigger]
                answers(passable, predicate, old(self).cols(), old(self).rows()) ==> forall|
                    x: int,
                    y: int,
                |
                    0 <= x < old(self).cols() && 0 <= y < old(self).rows() ==> #[trigger] final(self).cell(
                        x,
                        y,
                    ) == diffused_y(field_of(old(self)), old(self).rows(), predicate, proportion)(
                        x,
                        y,
                    ),
    {
        let w: i16 = self.width();
        let h: i16 = self.height();
        proof {
            self.dims_fit();
        }
        let ghost field = field_of(old(self));
        let ghost pass = verdict(passable);
        let share: i32 = proportion as i32;
        let mut deltas: Vec<i32> = vec![0i32; h as usize];
        let mut x: i16 = 0;
        while x < w
            invariant
                self.wf(),
                self.cols() == old(self).cols() == w,
                self.rows() == old(self).rows() == h,
                0 <= h,
                0 <= x <= w,
                share == proportion,
                proportion <= MAX_PROPORTION,
                field == field_of(old(self)),
                pass == verdict(passable),
                decides(passable, w as int, h as int),
                deltas.len() == h,
                forall|j: int| 0 <= j < h ==> deltas[j] == 0,
                forall|cx: int, cy: int|
                    0 <= cx < w && 0 <= cy && cy + 1 < h && cx < x ==> #[trigger] pair_seen(passable, cx, cy, 0, 1),
                forall|cx: int, cy: int|
                    0 <= cx < w && 0 <= cy < h ==> #[trigger] self.cell(cx, cy) == if cx < x {
                        diffused_y(field, h as int, pass, proportion)(cx, cy)
                    } else {
                        field(cx, cy)
                    },
            decreases w - x,
        {
            let mut y: i16 = 0;
            while y < h - 1
                invariant
                    self.wf(),
                    self.cols() == old(self).cols() == w,
                    self.rows() == old(self).rows() == h,
                    0 <= x < w,
                    0 <= y,
                    y <= h - 1 || h == 0,
                    share == proportion,
                    proportion <= MAX_PROPORTION,
                    field == field_of(old(self)),
                    pass == verdict(passable),
                    decides(passable, w as int, h as int),
                    forall|cx: int, cy: int|
                        0 <= cx < w && 0 <= cy && cy + 1 < h && (cx < x || (cx == x && cy < y)) ==> #[trigger] pair_seen(passable, cx, cy, 0, 1),
                    deltas.len() == h,
                    forall|j: int|
                        0 <= j < h ==> #[trigger] deltas[j] == pending_y(
                            field,
                            h as int,
                            pass,
                            proportion,
                            y as int,
                            x as int,
                            j,
                        ),
                    forall|cx: int, cy: int|
                        0 <= cx < w && 0 <= cy < h ==> #[trigger] self.cell(cx, cy) == if cx
                            < x {
                            diffused_y(field, h as int, pass, proportion)(cx, cy)
                        } else {
                            field(cx, cy)
                        },
                decreases h - y,
            {
                let cur_position = Coord { x, y };
                let next_position = Coord { x, y: y + 1 };
                assert(cur_position == at(x as int, y as int));
                assert(next_position == at(x as int, y + 1));
                assert(cur_position.within(w as int, h as int));
                assert(next_position.within(w as int, h as int));
                let ghost earlier = deltas@;
                let cur_open = passable(cur_position);
                let next_open = if cur_open {
                    passable(next_position)
                } else {
                    false
                };
                assert(cur_open == pass(cur_position));
                assert(cur_open ==> next_open == pass(next_position));
                assert(pair_seen(passable, x as int, y as int, 0, 1));
                if cur_open && next_open {
                    let cur_value: i32 = self.get(cur_position) as i32;
                    let next_value: i32 = self.get(next_position) as i32;
                    proof {
                        lemma_gain(cur_value as u16, next_value as u16, proportion);
                    }
                    let delta: i32 = next_value - cur_value;
                    let amount: i32 = (delta * share) >> 10;
                    assert(amount == flow_y(field, h as int, pass, proportion, x as int, y as int));
                    proof {
                        if y > 0 {
                            lemma_gain(field(x as int, y - 1), field(x as int, y as int), proportion);
                        }
                    }
                    deltas[y as usize] = deltas[y as usize] + amount;
                    deltas[y as usize + 1] = deltas[y as usize + 1] - amount;
                }
                assert forall|j: int| 0 <= j < h implies #[trigger] deltas[j] == pending_y(
                    field,
                    h as int,
                    pass,
                    proportion,
                    y + 1,
                    x as int,
                    j,
                ) by {
                    assert(earlier[j] == pending_y(
                        field,
                        h as int,
                        pass,
                        proportion,
                        y as int,
                        x as int,
                        j,
                    ));
                }
                y = y + 1;
            }
            let mut y: i16 = 0;
            while y < h
                invariant
                    self.wf(),
                    self.cols() == old(self).cols() == w,
                    self.rows() == old(self).rows() == h,
                    0 <= x < w,
                    0 <= y <= h,
                    proportion <= MAX_PROPORTION,
                    field == field_of(old(self)),
                    pass == verdict(passable),
                    deltas.len() == h,
                    forall|j: int| 0 <= j < y ==> deltas[j] == 0,
                    forall|cx: int, cy: int|
                        0 <= cx < w && 0 <= cy && cy + 1 < h && cx <= x ==> #[trigger] pair_seen(passable, cx, cy, 0, 1),
                    forall|j: int|
                        y <= j < h ==> #[trigger] deltas[j] == settled_y(
                            field,
                            h as int,
                            pass,
                            proportion,
                            x as int,
                            j,
                        ) - field(x as int, j),
                    forall|cx: int, cy: int|
                        0 <= cx < w && 0 <= cy < h ==> #[trigger] self.cell(cx, cy) == if cx < x
                            || (cx == x && cy < y) {
                            diffused_y(field, h as int, pass, proportion)(cx, cy)
                        } else {
                            field(cx, cy)
                        },
                decreases h - y,
            {
                let position = Coord { x, y };
                let value: i32 = self.get(position) as i32;
                proof {
                    lemma_gain(field(x as int, y as int), field(x as int, y + 1), proportion);
                    lemma_gain(field(x as int, y - 1), field(x as int, y as int), proportion);
                }
                self.set(position, #[verifier::truncate] ((value + deltas[y as usize]) as u16));
                deltas[y as usize] = 0;
                y = y + 1;
            }
            x = x + 1;
        }
        proof {
            assert forall|predicate: spec_fn(Coord) -> bool| #[trigger]
                answers(passable, predicate, w as int, h as int) implies forall|x: int, y: int|
                0 <= x < w && 0 <= y < h ==> #[trigger] self.cell(x, y) == diffused_y(
                    field,
                    h as int,
                    predicate,
                    proportion,
                )(x, y) by {
                assert forall|x: int, y: int| 0 <= x < w && 0 <= y < h implies #[trigger] self.cell(
                    x,
                    y,
                ) == diffused_y(field, h as int, predicate, proportion)(x, y) by {
                    lemma_flow_y_agrees(
                        passable,
                        predicate,
                        field,
                        w as int,
                        h as int,
                        proportion,
                        x,
                        y,
                    );
                    lemma_flow_y_agrees(
                        passable,
                        predicate,
                        field,
                        w as int,
                        h as int,
                        proportion,
                        x,
                        y - 1,
                    );
                }
            }
        }
    }

    /// Diffusion along the rows, then along the columns of the result.
    fn diffuse<F: Fn(Coord) -> bool + Copy>(&mut self, proportion: u16, passable: F)
        requires
            old(self).wf(),
            proportion <= MAX_PROPORTION,
            decides(passable, old(self).cols(), old(self).rows()),
        ensures
            final(self).wf(),
            final(self).cols() == old(self).cols(),
            final(self).rows() == old(self).rows(),
            forall|x: int, y: int|
                0 <= x < old(self).cols() && 0 <= y < old(self).rows() ==> #[trigger] final(self).cell(
                    x,
                    y,
                ) == diffused_y(
                    diffused_x(field_of(old(self)), old(self).cols(), verdict(passable), proportion),
                    old(self).rows(),
                    verdict(passable),
                    proportion,
                )(x, y),
            forall|predicate: spec_fn(Coord) -> bool| #[trigger]
                answers(passable, predicate, old(self).cols(), old(self).rows()) ==> forall|
                    x: int,
                    y: int,
                |
                    0 <= x < old(self).cols() && 0 <= y < old(self).rows() ==> #[trigger] final(self).cell(
                        x,
                        y,
                    ) == diffused_y(
                        diffused_x(field_of(old(self)), old(self).cols(), predicate, proportion),
                        old(self).rows(),
                        predicate,
                        proportion,
                    )(x, y),
    {
        self.diffuse_x(proportion, passable);
        let ghost between = *self;
        self.diffuse_y(proportion, passable);
        proof {
            let field = field_of(old(self));
            let cols = old(self).cols();
            let rows = old(self).rows();
            assert forall|x: int, y: int| 0 <= x < cols && 0 <= y < rows implies #[trigger] self.cell(
                x,
                y,
            ) == diffused_y(
                diffused_x(field, cols, verdict(passable), proportion),
                rows,
                verdict(passable),
                proportion,
            )(x, y) by {
                lemma_two_passes(&between, field, cols, rows, verdict(passable), proportion, x, y);
            }
            assert forall|predicate: spec_fn(Coord) -> bool| #[trigger]
                answers(passable, predicate, cols, rows) implies forall|x: int, y: int|
                0 <= x < cols && 0 <= y < rows ==> #[trigger] self.cell(x, y) == diffused_y(
                    diffused_x(field, cols, predicate, proportion),
                    rows,
                    predicate,
                    proportion,
                )(x, y) by {
                assert forall|x: int, y: int| 0 <= x < cols && 0 <= y < rows implies #[trigger] self.cell(
                    x,
                    y,
                ) == diffused_y(
                    diffused_x(field, cols, predicate, proportion),
                    rows,
                    predicate,
                    proportion,
                )(x, y) by {
                    lemma_two_passes(&between, field, cols, rows, predicate, proportion, x, y);
                }
            }
        }
    }
}

impl Dispersion for Grid<u16> {

}

impl Dispersion for PheromoneMap {

}

/// The intensities of one resource trail over the 1024 by 1024 map.
#[derive(Clone, Debug)]
pub struct PheromoneMap(pub Grid<u16>);

impl Default for PheromoneMap {
    /// The map without any trail.
    fn default() -> (map: Self)
        ensures
            map.wf(),
            forall|x: int, y: int| 0 <= x < 1024 && 0 <= y < 1024 ==> #[trigger] map.cell(x, y) == 0,
    {
        PheromoneMap(Grid::new(1024, 1024, 0))
    }
}

impl Grid2D<u16> for PheromoneMap {
    open spec fn cols(&self) -> int {
        self.0.cols()
    }

    open spec fn rows(&self) -> int {
        self.0.rows()
    }

    open spec fn cell(&self, x: int, y: int) -> u16 {
        self.0.cell(x, y)
    }

    open spec fn wf(&self) -> bool {
        &&& self.0.wf()
        &&& self.0.cols() == 1024
        &&& self.0.rows() == 1024
    }

    proof fn dims_fit(&self) {
    }

    fn width(&self) -> (w: i16) {
        self.0.width()
    }

    fn height(&self) -> (h: i16) {
        self.0.height()
    }

    fn get(&self, position: Coord) -> (value: u16) {
        self.0.get(position)
    }

    fn set(&mut self, position: Coord, value: u16) {
        self.0.set(position, value)
    }
}

/// The trails of one team: two maps for each kind of resource.
pub struct Team {
    pub pheromone_maps: [PheromoneMap; 8],
}

/// `after` is `before` with every cell evaporated once.
pub open spec fn is_evaporation_of<G: Grid2D<u16>>(after: &G, before: &G) -> bool {
    &&& after.cols() == before.cols()
    &&& after.rows() == before.rows()
    &&& forall|x: int, y: int|
        0 <= x < before.cols() && 0 <= y < before.rows() ==> #[trigger] after.cell(x, y)
            == evaporated(before.cell(x, y))
}

/// Evaporation changes nothing on a surface without any trail, and takes one
/// off every cell of a surface whose cells all hold the same positive
/// intensity.
pub proof fn lemma_evaporation_of_uniform<G: Grid2D<u16>>(before: &G, after: &G, intensity: u16)
    requires
        is_evaporation_of(after, before),
        forall|x: int, y: int|
            0 <= x < before.cols() && 0 <= y < before.rows() ==> #[trigger] before.cell(x, y)
                == intensity,
    ensures
        intensity == 0 ==> forall|x: int, y: int|
            0 <= x < before.cols() && 0 <= y < before.rows() ==> #[trigger] after.cell(x, y)
                == before.cell(x, y),
        intensity > 0 ==> forall|x: int, y: int|
            0 <= x < before.cols() && 0 <= y < before.rows() ==> #[trigger] after.cell(x, y)
                == intensity - 1,
{
    assert forall|x: int, y: int|
        0 <= x < before.cols() && 0 <= y < before.rows() implies #[trigger] after.cell(x, y)
        == evaporated(intensity) by {
        assert(before.cell(x, y) == intensity);
    }
}

/// The field mirrored at the diagonal: columns become rows.
pub open spec fn transposed(field: spec_fn(int, int) -> u16) -> spec_fn(int, int) -> u16 {
    |x: int, y: int| field(y, x)
}

/// The passability test mirrored at the diagonal.
pub open spec fn transposed_test(passable: spec_fn(Coord) -> bool) -> spec_fn(Coord) -> bool {
    |c: Coord| passable(Coord { x: c.y, y: c.x })
}

/// Diffusion along the columns is diffusion along the rows seen in a mirror:
/// on the mirrored field with the mirrored test it gives the mirrored result.
pub proof fn lemma_diffuse_y_mirrors_x(
    field: spec_fn(int, int) -> u16,
    side: int,
    passable: spec_fn(Coord) -> bool,
    proportion: u16,
    x: int,
    y: int,
)
    ensures
        diffused_y(transposed(field), side, transposed_test(passable), proportion)(x, y)
            == diffused_x(field, side, passable, proportion)(y, x),
        diffused_y(transposed(field), side, transposed_test(passable), proportion)(x, y)
            == transposed(diffused_x(field, side, passable, proportion))(x, y),
{
    let mirror = transposed(field);
    let test = transposed_test(passable);
    assert(test(at(x, y)) == passable(at(y, x)));
    assert(test(at(x, y + 1)) == passable(at(y + 1, x)));
    assert(test(at(x, y - 1)) == passable(at(y - 1, x)));
    assert(flow_y(mirror, side, test, proportion, x, y) == flow_x(
        field,
        side,
        passable,
        proportion,
        y,
        x,
    ));
    assert(flow_y(mirror, side, test, proportion, x, y - 1) == flow_x(
        field,
        side,
        passable,
        proportion,
        y - 1,
        x,
    ));
}

/// The sum of `values(0)` to `values(count - 1)`.
pub open spec fn total(values: spec_fn(int) -> int, count: int) -> int
    decreases count,
{
    if count <= 0 {
        0
    } else {
        total(values, count - 1) + values(count - 1)
    }
}

proof fn lemma_telescope(
    after: spec_fn(int) -> int,
    before: spec_fn(int) -> int,
    flow: spec_fn(int) -> int,
    count: int,
)
    requires
        0 <= count,
        forall|x: int| 0 <= x < count ==> #[trigger] after(x) == before(x) + flow(x) - flow(x - 1),
    ensures
        total(after, count) == total(before, count) + flow(count - 1) - flow(-1),
    decreases count,
{
    if count > 0 {
        lemma_telescope(after, before, flow, count - 1);
        assert(after(count - 1) == before(count - 1) + flow(count - 1) - flow(count - 2));
    }
}

/// Diffusion along the rows moves intensity within a row and neither makes
/// nor loses any: where no cell of row `y` leaves the 16-bit range, the row
/// sums to what it summed to before.
pub proof fn lemma_diffuse_x_keeps_row_sum(
    field: spec_fn(int, int) -> u16,
    cols: int,
    passable: spec_fn(Coord) -> bool,
    proportion: u16,
    y: int,
)
    requires
        0 <= cols,
        forall|x: int|
            0 <= x < cols ==> 0 <= #[trigger] settled_x(field, cols, passable, proportion, x, y)
                <= u16::MAX,
    ensures
        total(|x: int| diffused_x(field, cols, passable, proportion)(x, y) as int, cols) == total(
            |x: int| field(x, y) as int,
            cols,
        ),
{
    let after = |x: int| diffused_x(field, cols, passable, proportion)(x, y) as int;
    let before = |x: int| field(x, y) as int;
    let flow = |x: int| flow_x(field, cols, passable, proportion, x, y);
    assert forall|x: int| 0 <= x < cols implies #[trigger] after(x) == before(x) + flow(x) - flow(
        x - 1,
    ) by {
        assert(0 <= settled_x(field, cols, passable, proportion, x, y) <= u16::MAX);
    }
    lemma_telescope(after, before, flow, cols);
}

/// Diffusion along the columns keeps the sum of every column whose cells stay
/// within the 16-bit range.
pub proof fn lemma_diffuse_y_keeps_column_sum(
    field: spec_fn(int, int) -> u16,
    rows: int,
    passable: spec_fn(Coord) -> bool,
    proportion: u16,
    x: int,
)
    requires
        0 <= rows,
        forall|y: int|
            0 <= y < rows ==> 0 <= #[trigger] settled_y(field, rows, passable, proportion, x, y)
                <= u16::MAX,
    ensures
        total(|y: int| diffused_y(field, rows, passable, proportion)(x, y) as int, rows) == total(
            |y: int| field(x, y) as int,
            rows,
        ),
{
    let after = |y: int| diffused_y(field, rows, passable, proportion)(x, y) as int;
    let before = |y: int| field(x, y) as int;
    let flow = |y: int| flow_y(field, rows, passable, proportion, x, y);
    assert forall|y: int| 0 <= y < rows implies #[trigger] after(y) == before(y) + flow(y) - flow(
        y - 1,
    ) by {
        assert(0 <= settled_y(field, rows, passable, proportion, x, y) <= u16::MAX);
    }
    lemma_telescope(after, before, flow, rows);
}

/// With a proportion of at most one half, a cell gains or loses no more than
/// half the difference to its neighbour.
proof fn lemma_half_gain(here: u16, there: u16, proportion: u16)
    requires
        proportion <= 512,
    ensures
        there >= here ==> 0 <= 2 * gain(here, there, proportion) <= there - here,
        there < here ==> there - here - 1 <= 2 * gain(here, there, proportion) <= 0,
{
    let d: int = there - here;
    assert(d >= 0 ==> 0 <= d * proportion <= 512 * d) by (nonlinear_arith)
        requires
            0 <= proportion <= 512,
    ;
    assert(d < 0 ==> 512 * d <= d * proportion <= 0) by (nonlinear_arith)
        requires
            0 <= proportion <= 512,
    ;
}

/// With a proportion of at most one half, diffusion along the rows takes no
/// cell out of the 16-bit range.
pub proof fn lemma_gentle_diffusion_x_in_range(
    field: spec_fn(int, int) -> u16,
    cols: int,
    passable: spec_fn(Coord) -> bool,
    proportion: u16,
    x: int,
    y: int,
)
    requires
        proportion <= 512,
    ensures
        0 <= settled_x(field, cols, passable, proportion, x, y) <= u16::MAX,
{
    lemma_half_gain(field(x, y), field(x + 1, y), proportion);
    lemma_half_gain(field(x - 1, y), field(x, y), proportion);
}

/// With a proportion of at most one half, diffusion along the columns takes
/// no cell out of the 16-bit range.
pub proof fn lemma_gentle_diffusion_y_in_range(
    field: spec_fn(int, int) -> u16,
    rows: int,
    passable: spec_fn(Coord) -> bool,
    proportion: u16,
    x: int,
    y: int,
)
    requires
        proportion <= 512,
    ensures
        0 <= settled_y(field, rows, passable, proportion, x, y) <= u16::MAX,
{
    lemma_half_gain(field(x, y), field(x, y + 1), proportion);
    lemma_half_gain(field(x, y - 1), field(x, y), proportion);
}

/// With a proportion of at most one half, diffusion along the rows keeps the
/// sum of every row.
pub proof fn lemma_gentle_diffusion_conserves(
    field: spec_fn(int, int) -> u16,
    cols: int,
    passable: spec_fn(Coord) -> bool,
    proportion: u16,
    y: int,
)
    requires
        0 <= cols,
        proportion <= 512,
    ensures
        total(|x: int| diffused_x(field, cols, passable, proportion)(x, y) as int, cols) == total(
            |x: int| field(x, y) as int,
            cols,
        ),
{
    assert forall|x: int| 0 <= x < cols implies 0 <= #[trigger] settled_x(
        field,
        cols,
        passable,
        proportion,
        x,
        y,
    ) <= u16::MAX by {
        lemma_gentle_diffusion_x_in_range(field, cols, passable, proportion, x, y);
    }
    lemma_diffuse_x_keeps_row_sum(field, cols, passable, proportion, y);
}

} // verus!
