//! The torus: its point cloud and the two screen buffers.

use vstd::prelude::*;
use crate::grid::{grid_cells, grid_get, grid_set, grid_zeros, has_shape, Grid};
use crate::angle::Angle;
use crate::listing::{
    bracketed_line, bracketed_lines, bracketed_list, plain_line, plain_lines, push_triple,
};
use crate::point::{rotated, surface_point, Point};
use crate::shade::{cell_glyph, frame_text, shade};
use crate::raster::{
    cell_drawn, drawn, lemma_cell_step, lemma_peak_step, NEAREST, SCREEN_HEIGHT, SCREEN_WIDTH,
};

verus! {

/// Whether a value can be the luminance of a point: no larger in magnitude
/// than `104 * 2^63`.
pub open spec fn luminance_fits(l: int) -> bool {
    -959_230_691_832_896_684_032 <= l <= 959_230_691_832_896_684_032
}

/// Whether every cell of a buffer is nought.
pub open spec fn cleared(cells: Seq<Seq<i128>>) -> bool {
    forall|row: int, col: int|
        0 <= row < SCREEN_HEIGHT && 0 <= col < SCREEN_WIDTH ==> #[trigger] cells[row][col] == 0
}

/// The buffer of a screen on which nothing is drawn: every cell nought.
pub open spec fn blank() -> Seq<Seq<i128>> {
    Seq::new(SCREEN_HEIGHT as nat, |row: int| Seq::new(SCREEN_WIDTH as nat, |col: int| 0i128))
}

/// A cleared buffer of the shape of the screen is the blank one.
pub proof fn lemma_cleared_is_blank(cells: Seq<Seq<i128>>)
    requires
        has_shape(cells, SCREEN_HEIGHT as int, SCREEN_WIDTH as int),
        cleared(cells),
    ensures
        cells == blank(),
{
    assert forall|row: int| 0 <= row < SCREEN_HEIGHT implies cells[row] == blank()[row] by {
        assert forall|col: int| 0 <= col < SCREEN_WIDTH implies cells[row][col]
            == blank()[row][col] by {}
        assert(cells[row] =~= blank()[row]);
    }
    assert(cells =~= blank());
}

/// The points of a torus in the order of their making: for each angle of
/// `outer` in turn, round the hole, one point for each angle of `inner` in
/// turn, round the tube.
pub open spec fn cloud(
    torus_radius: int,
    ring_radius: int,
    outer: Seq<Angle>,
    inner: Seq<Angle>,
) -> Seq<Point> {
    Seq::new(
        outer.len() * inner.len(),
        |k: int|
            surface_point(
                torus_radius,
                ring_radius,
                outer[k / (inner.len() as int)],
                inner[k % (inner.len() as int)],
            ),
    )
}

/// The cloud is made angle by angle round the hole, and within each of those
/// angle by angle round the tube: it has a point for every pair of angles,
/// and the point of the `i`-th of `outer` and the `j`-th of `inner` stands at
/// `i` times the length of `inner`, and `j`.
pub proof fn lemma_cloud_order(
    torus_radius: int,
    ring_radius: int,
    outer: Seq<Angle>,
    inner: Seq<Angle>,
    i: int,
    j: int,
)
    requires
        0 <= i < outer.len(),
        0 <= j < inner.len(),
    ensures
        cloud(torus_radius, ring_radius, outer, inner).len() == outer.len() * inner.len(),
        0 <= i * inner.len() + j < outer.len() * inner.len(),
        cloud(torus_radius, ring_radius, outer, inner)[i * inner.len() + j] == surface_point(
            torus_radius,
            ring_radius,
            outer[i],
            inner[j],
        ),
{
    let width = inner.len() as int;
    let k = i * width + j;
    vstd::arithmetic::div_mod::lemma_fundamental_div_mod_converse(k, width, i, j);
    assert(0 <= i * width + j < outer.len() * width) by (nonlinear_arith)
        requires
            0 <= i < outer.len(),
            0 <= j < width,
    ;
}

/// A point cloud with the projection buffer and the luminance buffer that it
/// is drawn into.
pub struct Torus {
    torus_points: Vec<Point>,
    projection: Grid,
    luminance: Grid,
}

impl Torus {
    /// The points of the cloud, in order.
    pub closed spec fn points(&self) -> Seq<Point> {
        self.torus_points@
    }

    /// The projection buffer: for each cell the closeness of the nearest
    /// point drawn there, nought where none is.
    pub closed spec fn projection(&self) -> Seq<Seq<i128>> {
        grid_cells(self.projection)
    }

    /// The luminance buffer: for each cell the luminance of the point that
    /// the projection buffer speaks of.
    pub closed spec fn luminance(&self) -> Seq<Seq<i128>> {
        grid_cells(self.luminance)
    }

    /// Both buffers have the shape of the screen, every closeness lies
    /// between nought and [`NEAREST`], and every luminance is one that a
    /// point can have.
    pub open spec fn wf(&self) -> bool {
        &&& has_shape(self.projection(), SCREEN_HEIGHT as int, SCREEN_WIDTH as int)
        &&& has_shape(self.luminance(), SCREEN_HEIGHT as int, SCREEN_WIDTH as int)
        &&& forall|row: int, col: int|
            0 <= row < SCREEN_HEIGHT && 0 <= col < SCREEN_WIDTH ==> 0
                <= #[trigger] self.projection()[row][col] <= NEAREST
        &&& forall|row: int, col: int|
            0 <= row < SCREEN_HEIGHT && 0 <= col < SCREEN_WIDTH ==> luminance_fits(
                #[trigger] self.luminance()[row][col] as int,
            )
    }

    /// A torus of the given points, with both buffers cleared.
    pub fn from_points(points: Vec<Point>) -> (torus: Torus)
        ensures
            torus.wf(),
            torus.points() == points@,
            cleared(torus.projection()),
            cleared(torus.luminance()),
    {
        Torus {
            torus_points: points,
            projection: grid_zeros(SCREEN_HEIGHT, SCREEN_WIDTH),
            luminance: grid_zeros(SCREEN_HEIGHT, SCREEN_WIDTH),
        }
    }

    /// The torus with the distance `torus_radius` from its centre to the
    /// centre of its tube and the tube radius `ring_radius`, both in
    /// trillionths, sampled at every angle of `outer` round the hole and every
    /// angle of `inner` round the tube. Both buffers start cleared.
    pub fn create_torus(
        torus_radius: i64,
        ring_radius: i64,
        outer: &Vec<Angle>,
        inner: &Vec<Angle>,
    ) -> (torus: Torus)
        ensures
            torus.wf(),
            torus.points() == cloud(torus_radius as int, ring_radius as int, outer@, inner@),
            cleared(torus.projection()),
            cleared(torus.luminance()),
    {
        let ghost all = cloud(torus_radius as int, ring_radius as int, outer@, inner@);
        let ghost width = inner@.len() as int;
        let mut torus_points: Vec<Point> = Vec::new();
        let mut i: usize = 0;
        while i < outer.len()
            invariant
                i <= outer@.len(),
                width == inner@.len(),
                all == cloud(torus_radius as int, ring_radius as int, outer@, inner@),
                torus_points@.len() == i * width,
                forall|k: int| 0 <= k < torus_points@.len() ==> #[trigger] torus_points@[k] == all[k],
            decreases outer@.len() - i,
        {
            let mut j: usize = 0;
            while j < inner.len()
                invariant
                    i < outer@.len(),
                    j <= inner@.len(),
                    width == inner@.len(),
                    all == cloud(torus_radius as int, ring_radius as int, outer@, inner@),
                    torus_points@.len() == i * width + j,
                    forall|k: int|
                        0 <= k < torus_points@.len() ==> #[trigger] torus_points@[k] == all[k],
                decreases inner@.len() - j,
            {
                proof {
                    let k = i * width + j;
                    vstd::arithmetic::div_mod::lemma_fundamental_div_mod_converse(
                        k,
                        width,
                        i as int,
                        j as int,
                    );
                    assert(i * width + j < outer@.len() * width) by (nonlinear_arith)
                        requires
                            0 <= i < outer@.len(),
                            0 <= j < width,
                    ;
                }
                torus_points.push(Point::on_surface(torus_radius, ring_radius, outer[i], inner[j]));
                j = j + 1;
            }
            proof {
                assert((i + 1) * width == i * width + width) by (nonlinear_arith);
            }
            i = i + 1;
        }
        assert(torus_points@ =~= all);
        Torus::from_points(torus_points)
    }

    /// Turns every point of the cloud, in place, by the angles `a` and `b`.
    /// The buffers stay as they are.
    pub fn rotate(&mut self, a: Angle, b: Angle)
        ensures
            final(self).points().len() == old(self).points().len(),
            forall|i: int|
                0 <= i < old(self).points().len() ==> #[trigger] final(self).points()[i] == rotated(
                    old(self).points()[i],
                    a,
                    b,
                ),
            final(self).projection() == old(self).projection(),
            final(self).luminance() == old(self).luminance(),
    {
        let mut i: usize = 0;
        while i < self.torus_points.len()
            invariant
                i <= self.points().len(),
                self.points().len() == old(self).points().len(),
                self.torus_points@ == self.points(),
                forall|k: int|
                    0 <= k < i ==> #[trigger] self.points()[k] == rotated(old(self).points()[k], a, b),
                forall|k: int|
                    i <= k < self.points().len() ==> #[trigger] self.points()[k] == old(
                        self,
                    ).points()[k],
                self.projection() == old(self).projection(),
                self.luminance() == old(self).luminance(),
            decreases self.points().len() - i,
        {
            let turned = self.torus_points[i].rotate(a, b);
            self.torus_points.set(i, turned);
            i = i + 1;
        }
    }

    /// The number of points in the cloud.
    pub fn len(&self) -> (n: usize)
        ensures
            n == self.points().len(),
    {
        self.torus_points.len()
    }

    /// The point at `index`, if the cloud has that many.
    pub fn point(&self, index: usize) -> (p: Option<Point>)
        ensures
            p == if index < self.points().len() {
                Some(self.points()[index as int])
            } else {
                None
            },
    {
        if index < self.torus_points.len() {
            Some(self.torus_points[index])
        } else {
            None
        }
    }

    /// The closeness that the projection buffer holds at `row` and `col`, if
    /// the screen has such a cell.
    pub fn projection_at(&self, row: usize, col: usize) -> (v: Option<i128>)
        requires
            self.wf(),
        ensures
            v == if row < SCREEN_HEIGHT && col < SCREEN_WIDTH {
                Some(self.projection()[row as int][col as int])
            } else {
                None
            },
    {
        if row < SCREEN_HEIGHT && col < SCREEN_WIDTH {
            Some(grid_get(&self.projection, row, col))
        } else {
            None
        }
    }

    /// The luminance that the luminance buffer holds at `row` and `col`, if
    /// the screen has such a cell.
    pub fn luminance_at(&self, row: usize, col: usize) -> (v: Option<i128>)
        requires
            self.wf(),
        ensures
            v == if row < SCREEN_HEIGHT && col < SCREEN_WIDTH {
                Some(self.luminance()[row as int][col as int])
            } else {
                None
            },
    {
        if row < SCREEN_HEIGHT && col < SCREEN_WIDTH {
            Some(grid_get(&self.luminance, row, col))
        } else {
            None
        }
    }

    /// Resets every cell of the projection buffer to nought. The luminance
    /// buffer keeps what it holds: it is read only where the projection
    /// buffer is not nought.
    pub fn clear_projection(&mut self)
        requires
            old(self).wf(),
        ensures
            final(self).wf(),
            final(self).points() == old(self).points(),
            final(self).luminance() == old(self).luminance(),
            cleared(final(self).projection()),
    {
        let mut y: usize = 0;
        while y < SCREEN_HEIGHT
            invariant
                y <= SCREEN_HEIGHT,
                self.wf(),
                self.points() == old(self).points(),
                self.luminance() == old(self).luminance(),
                forall|row: int, col: int|
                    0 <= row < y && 0 <= col < SCREEN_WIDTH ==> #[trigger] self.projection()[row][col]
                        == 0,
            decreases SCREEN_HEIGHT - y,
        {
            let mut x: usize = 0;
            while x < SCREEN_WIDTH
                invariant
                    y < SCREEN_HEIGHT,
                    x <= SCREEN_WIDTH,
                    self.wf(),
                    self.points() == old(self).points(),
                    self.luminance() == old(self).luminance(),
                    forall|row: int, col: int|
                        0 <= row < y && 0 <= col < SCREEN_WIDTH ==> #[trigger] self.projection()[row][col]
                            == 0,
                    forall|col: int| 0 <= col < x ==> #[trigger] self.projection()[y as int][col] == 0,
                decreases SCREEN_WIDTH - x,
            {
                grid_set(&mut self.projection, y, x, 0);
                x = x + 1;
            }
            y = y + 1;
        }
    }

    /// Draws every point of the cloud into the buffers, in order, and
    /// returns the peak luminance of the pass.
    ///
    /// A point is written to its cell where it is closer than what the cell
    /// holds: the cell then takes the point's closeness and luminance. So a
    /// cell ends with the greatest closeness among what it held and the
    /// points that land on it, and with the luminance of the first point that
    /// close. The peak is the greatest luminance written, or nought if none
    /// is positive.
    pub fn calculate_projection(&mut self) -> (peak: i128)
        requires
            old(self).wf(),
        ensures
            final(self).wf(),
            final(self).points() == old(self).points(),
            drawn(
                old(self).points(),
                old(self).points().len() as int,
                old(self).projection(),
                old(self).luminance(),
                final(self).projection(),
                final(self).luminance(),
                peak as int,
            ),
            luminance_fits(peak as int),
    {
        let mut peak: i128 = 0;
        let mut i: usize = 0;
        proof {
            let points = self.points();
            assert forall|row: int, col: int|
                0 <= row < SCREEN_HEIGHT && 0 <= col < SCREEN_WIDTH implies #[trigger] cell_drawn(
                points,
                0,
                self.projection()[row][col] as int,
                self.luminance()[row][col] as int,
                row,
                col,
                self.projection()[row][col] as int,
                self.luminance()[row][col] as int,
            ) by {}
        }
        while i < self.torus_points.len()
            invariant
                i <= self.points().len(),
                self.wf(),
                old(self).wf(),
                self.points() == old(self).points(),
                self.torus_points@ == self.points(),
                luminance_fits(peak as int),
                drawn(
                    self.points(),
                    i as int,
                    old(self).projection(),
                    old(self).luminance(),
                    self.projection(),
                    self.luminance(),
                    peak as int,
                ),
            decreases self.points().len() - i,
        {
            let p = self.torus_points[i];
            let ghost points = self.points();
            let ghost floors = old(self).projection();
            let ghost stale = old(self).luminance();
            let ghost near = self.projection();
            let ghost lum = self.luminance();
            let ghost before = peak;
            match p.pixel() {
                Some((row, col)) => {
                    let c = p.closeness();
                    proof {
                        assert(cell_drawn(
                            points,
                            i as int,
                            floors[row as int][col as int] as int,
                            stale[row as int][col as int] as int,
                            row as int,
                            col as int,
                            near[row as int][col as int] as int,
                            lum[row as int][col as int] as int,
                        ));
                        lemma_peak_step(
                            points,
                            i as int,
                            floors,
                            stale[row as int][col as int] as int,
                            near[row as int][col as int] as int,
                            lum[row as int][col as int] as int,
                            before as int,
                        );
                    }
                    if grid_get(&self.projection, row, col) < c {
                        grid_set(&mut self.projection, row, col, c);
                        let l = p.luminance();
                        grid_set(&mut self.luminance, row, col, l);
                        if peak < l {
                            peak = l;
                        }
                    }
                },
                None => {
                    proof {
                        lemma_peak_step(points, i as int, floors, 0, 0, 0, before as int);
                    }
                },
            }
            proof {
                assert forall|row: int, col: int|
                    0 <= row < SCREEN_HEIGHT && 0 <= col < SCREEN_WIDTH implies #[trigger] cell_drawn(
                    points,
                    i + 1,
                    floors[row][col] as int,
                    stale[row][col] as int,
                    row,
                    col,
                    self.projection()[row][col] as int,
                    self.luminance()[row][col] as int,
                ) by {
                    assert(cell_drawn(
                        points,
                        i as int,
                        floors[row][col] as int,
                        stale[row][col] as int,
                        row,
                        col,
                        near[row][col] as int,
                        lum[row][col] as int,
                    ));
                    lemma_cell_step(
                        points,
                        i as int,
                        floors[row][col] as int,
                        stale[row][col] as int,
                        row,
                        col,
                        near[row][col] as int,
                        lum[row][col] as int,
                    );
                }
            }
            i = i + 1;
        }
        peak
    }

    /// The text of the frame that the buffers hold, shaded against the peak
    /// luminance `max_lum_val`: forty rows of eighty glyphs, each row ended
    /// by a line feed.
    pub fn show_torus_frame(&self, max_lum_val: i128) -> (frame: String)
        requires
            self.wf(),
        ensures
            frame@ == frame_text(self.projection(), self.luminance(), max_lum_val as int),
    {
        let ghost text = frame_text(self.projection(), self.luminance(), max_lum_val as int);
        let mut frame = String::new();
        let mut y: usize = 0;
        while y < SCREEN_HEIGHT
            invariant
                y <= SCREEN_HEIGHT,
                self.wf(),
                text == frame_text(self.projection(), self.luminance(), max_lum_val as int),
                frame@.len() == y * (SCREEN_WIDTH + 1),
                forall|i: int| 0 <= i < frame@.len() ==> #[trigger] frame@[i] == text[i],
            decreases SCREEN_HEIGHT - y,
        {
            let mut x: usize = 0;
            while x < SCREEN_WIDTH
                invariant
                    y < SCREEN_HEIGHT,
                    x <= SCREEN_WIDTH,
                    self.wf(),
                    text == frame_text(self.projection(), self.luminance(), max_lum_val as int),
                    frame@.len() == y * (SCREEN_WIDTH + 1) + x,
                    forall|i: int| 0 <= i < frame@.len() ==> #[trigger] frame@[i] == text[i],
                decreases SCREEN_WIDTH - x,
            {
                let near = grid_get(&self.projection, y, x);
                let lum = grid_get(&self.luminance, y, x);
                assert(luminance_fits(self.luminance()[y as int][x as int] as int));
                proof {
                    let i = y * 81 + x;
                    assert(i / 81 == y && i % 81 == x);
                    assert(text[i] == cell_glyph(near as int, lum as int, max_lum_val as int));
                }
                frame.push(shade(near, lum, max_lum_val));
                x = x + 1;
            }
            proof {
                let i = y * 81 + 80;
                assert(i / 81 == y && i % 81 == 80);
                assert(text[i] == '\n');
            }
            frame.push('\n');
            y = y + 1;
        }
        assert(frame@ =~= text);
        frame
    }

    /// Shows one frame: clears the projection buffer, draws the cloud into
    /// the buffers and shades them. Returns the text of the frame. The
    /// buffers stay as the pass leaves them: what an earlier frame left in
    /// the projection buffer takes no part.
    pub fn display(&mut self) -> (frame: String)
        requires
            old(self).wf(),
        ensures
            final(self).wf(),
            final(self).points() == old(self).points(),
            exists|peak: int|
                #[trigger] drawn(
                    old(self).points(),
                    old(self).points().len() as int,
                    blank(),
                    old(self).luminance(),
                    final(self).projection(),
                    final(self).luminance(),
                    peak,
                ) && frame@ == frame_text(final(self).projection(), final(self).luminance(), peak),
    {
        self.clear_projection();
        proof {
            lemma_cleared_is_blank(self.projection());
        }
        let max_lum_val = self.calculate_projection();
        let frame = self.show_torus_frame(max_lum_val);
        assert(drawn(
            old(self).points(),
            old(self).points().len() as int,
            blank(),
            old(self).luminance(),
            self.projection(),
            self.luminance(),
            max_lum_val as int,
        ) && frame@ == frame_text(self.projection(), self.luminance(), max_lum_val as int));
        frame
    }

    /// Keeps the place of a light that is set at a point. The luminance of a
    /// point is a fixed mix of two of its coordinates, so no light takes part
    /// in it and the torus stays as it is.
    pub fn set_luminance(&mut self, luminance_point: (i64, i64, i64))
        ensures
            *final(self) == *old(self),
    {
    }

    /// The points of the cloud as a plain list, one to a line, in units with
    /// two decimals.
    pub fn print_torus(self) -> (text: String)
        ensures
            text@ == plain_lines(self.points(), self.points().len() as int),
    {
        let mut text = String::new();
        let mut i: usize = 0;
        while i < self.torus_points.len()
            invariant
                i <= self.points().len(),
                self.torus_points@ == self.points(),
                text@ == plain_lines(self.points(), i as int),
            decreases self.points().len() - i,
        {
            let ghost before = text@;
            let p = self.torus_points[i];
            text.push(' ');
            push_triple(&mut text, p);
            text.push(' ');
            text.push(' ');
            text.push('\n');
            assert(text@ =~= before + plain_line(p));
            i = i + 1;
        }
        text
    }

    /// The points of the cloud as a bracketed list, one to a line, in units
    /// with two decimals.
    pub fn to_text(&self) -> (text: String)
        ensures
            text@ == bracketed_list(self.points()),
    {
        let mut text = String::new();
        text.push('[');
        text.push('\n');
        assert(text@ =~= bracketed_lines(self.points(), 0));
        let mut i: usize = 0;
        while i < self.torus_points.len()
            invariant
                i <= self.points().len(),
                self.torus_points@ == self.points(),
                text@ == bracketed_lines(self.points(), i as int),
            decreases self.points().len() - i,
        {
            let ghost before = text@;
            let p = self.torus_points[i];
            if i != 0 {
                text.push(' ');
            }
            text.push('(');
            push_triple(&mut text, p);
            text.push(')');
            text.push('\n');
            assert(text@ =~= before + bracketed_line(p, i == 0));
            i = i + 1;
        }
        text.push(']');
        text.push('\n');
        assert(text@ =~= bracketed_list(self.points()));
        text
    }
}

} // verus!
