//! Projection of points onto the screen, and what a finished depth test
//! leaves in the two buffers.

use vstd::prelude::*;
use crate::fixed::{div_floor, floor_div, magnitude};
use crate::grid::has_shape;
use crate::point::Point;

verus! {

/// Columns of the screen.
pub const SCREEN_WIDTH: usize = 80;

/// Rows of the screen.
pub const SCREEN_HEIGHT: usize = 40;

/// The column at the middle of the screen.
pub const CENTER_X: usize = 40;

/// The row at the middle of the screen.
pub const CENTER_Y: usize = 20;

/// How far the viewer stands from the origin, in trillionths of a unit.
pub const VIEWER_DISTANCE: i64 = 20_000_000_000_000;

/// The closeness of a point one trillionth of a unit off the plane `z = 0`,
/// the greatest there is. The scale is so fine that of two points the one
/// nearer the plane is always the closer, however little nearer it is.
pub const NEAREST: i128 = 100_000_000_000_000_000_000_000_000_000_000_000_000;

/// The distance from the viewer to the point along the line of sight.
pub open spec fn depth(p: Point) -> int {
    p.z + VIEWER_DISTANCE
}

/// Whether a point can be drawn at all: it has a projection, which one at
/// the viewer's own depth has not, and a closeness, which one at depth
/// nought from the origin has not.
pub open spec fn visible(p: Point) -> bool {
    p.z != 0 && depth(p) != 0
}

/// The screen column of a visible point.
pub open spec fn screen_col(p: Point) -> int {
    floor_div(SCREEN_WIDTH * p.x, depth(p)) + CENTER_X
}

/// The screen row of a visible point.
pub open spec fn screen_row(p: Point) -> int {
    floor_div(SCREEN_HEIGHT * p.y, depth(p)) + CENTER_Y
}

/// Whether the point is visible and its projection falls on the screen.
pub open spec fn on_screen(p: Point) -> bool {
    &&& visible(p)
    &&& 0 <= screen_row(p) < SCREEN_HEIGHT
    &&& 0 <= screen_col(p) < SCREEN_WIDTH
}

/// Whether the point is drawn on the cell at `row` and `col`.
pub open spec fn lands(p: Point, row: int, col: int) -> bool {
    visible(p) && screen_row(p) == row && screen_col(p) == col
}

/// The inverse of the point's distance from the plane `z = 0`: [`NEAREST`]
/// over the distance, rounded down; nought for a point in that plane, and
/// for no other.
pub open spec fn closeness(p: Point) -> int {
    if p.z == 0 {
        0
    } else {
        (NEAREST as int) / magnitude(p.z as int)
    }
}

/// The brightness of a point: `-100 y + 4 z`, in trillionths.
pub open spec fn luminance(p: Point) -> int {
    -100 * p.y + 4 * p.z
}

impl Point {
    /// The cell on which the point is drawn, as row and column, if it is
    /// visible and falls on the screen.
    pub fn pixel(&self) -> (px: Option<(usize, usize)>)
        ensures
            px is Some <==> on_screen(*self),
            px matches Some((row, col)) ==> row == screen_row(*self) && col == screen_col(*self),
    {
        let width: i128 = SCREEN_WIDTH as i128;
        let height: i128 = SCREEN_HEIGHT as i128;
        let depth: i128 = self.z as i128 + VIEWER_DISTANCE as i128;
        if self.z == 0 || depth == 0 {
            return None;
        }
        let col: i128 = div_floor(width * (self.x as i128), depth) + CENTER_X as i128;
        let row: i128 = div_floor(height * (self.y as i128), depth) + CENTER_Y as i128;
        if 0 <= row && row < height && 0 <= col && col < width {
            Some((row as usize, col as usize))
        } else {
            None
        }
    }

    /// The closeness of the point.
    pub fn closeness(&self) -> (c: i128)
        ensures
            c == closeness(*self),
            0 <= c <= NEAREST,
            self.z != 0 ==> c > 0,
    {
        if self.z == 0 {
            return 0;
        }
        let z: i128 = self.z as i128;
        let distance: i128 = if z < 0 {
            -z
        } else {
            z
        };
        proof {
            lemma_closeness_range(*self);
        }
        NEAREST / distance
    }

    /// The luminance of the point.
    pub fn luminance(&self) -> (l: i128)
        ensures
            l == luminance(*self),
    {
        4 * (self.z as i128) - 100 * (self.y as i128)
    }
}

/// Closeness lies between nought and [`NEAREST`], and is above nought for
/// every point off the plane `z = 0`: no point is too far to be drawn.
pub proof fn lemma_closeness_range(p: Point)
    ensures
        0 <= closeness(p) <= NEAREST,
        p.z != 0 ==> closeness(p) > 0,
        visible(p) ==> closeness(p) > 0,
{
    if p.z != 0 {
        let distance = magnitude(p.z as int);
        let near = NEAREST as int;
        crate::fixed::lemma_quotient_within(near, distance);
        vstd::arithmetic::div_mod::lemma_div_pos_is_pos(near, distance);
        vstd::arithmetic::div_mod::lemma_div_non_zero(near, distance);
    }
}

/// The inverse falls with every step: of two divisors whose square the
/// numerator reaches, the smaller gives the greater quotient.
proof fn lemma_inverse_falls(n: int, nearer: int, farther: int)
    requires
        0 < nearer < farther,
        farther * farther <= n,
    ensures
        n / nearer > n / farther,
{
    let q2 = n / farther;
    let q1 = n / nearer;
    vstd::arithmetic::div_mod::lemma_fundamental_div_mod(n, farther);
    vstd::arithmetic::div_mod::lemma_mod_bound(n, farther);
    vstd::arithmetic::div_mod::lemma_fundamental_div_mod(n, nearer);
    vstd::arithmetic::div_mod::lemma_mod_bound(n, nearer);
    let r2 = n % farther;
    let r1 = n % nearer;
    assert(q2 >= farther) by (nonlinear_arith)
        requires
            n == farther * q2 + r2,
            0 <= r2 < farther,
            farther * farther <= n,
    ;
    assert(q1 > q2) by (nonlinear_arith)
        requires
            n == farther * q2 + r2,
            0 <= r2 < farther,
            n == nearer * q1 + r1,
            0 <= r1 < nearer,
            0 < nearer < farther,
            q2 >= farther,
    ;
}

/// Closeness orders points as their distance from the plane `z = 0` does:
/// of two points off the plane the nearer is the closer, and two are equally
/// close only at the same distance.
pub proof fn lemma_closer_is_nearer(p: Point, q: Point)
    requires
        p.z != 0,
        q.z != 0,
    ensures
        closeness(p) > closeness(q) <==> magnitude(p.z as int) < magnitude(q.z as int),
        closeness(p) == closeness(q) <==> magnitude(p.z as int) == magnitude(q.z as int),
{
    let n = NEAREST as int;
    let a = magnitude(p.z as int);
    let b = magnitude(q.z as int);
    if a < b {
        assert(b * b <= n) by (nonlinear_arith)
            requires
                0 < b <= 0x8000_0000_0000_0000,
                n == 100_000_000_000_000_000_000_000_000_000_000_000_000,
        ;
        lemma_inverse_falls(n, a, b);
    } else if b < a {
        assert(a * a <= n) by (nonlinear_arith)
            requires
                0 < a <= 0x8000_0000_0000_0000,
                n == 100_000_000_000_000_000_000_000_000_000_000_000_000,
        ;
        lemma_inverse_falls(n, b, a);
    }
}

/// Among the first `n` points, point `k` takes the cell at `row` and `col`
/// from a value `floor`: it lands there, closer than `floor`, no point that
/// lands there is closer, and none before it is as close.
pub open spec fn wins(points: Seq<Point>, n: int, floor: int, k: int, row: int, col: int) -> bool {
    &&& 0 <= k < n
    &&& lands(points[k], row, col)
    &&& closeness(points[k]) > floor
    &&& forall|j: int|
        0 <= j < n && lands(#[trigger] points[j], row, col) ==> closeness(points[j]) <= closeness(
            points[k],
        )
    &&& forall|j: int|
        0 <= j < k && lands(#[trigger] points[j], row, col) ==> closeness(points[j]) < closeness(
            points[k],
        )
}

/// None of the first `n` points that land on the cell at `row` and `col` is
/// closer than `floor`.
pub open spec fn outdone(points: Seq<Point>, n: int, floor: int, row: int, col: int) -> bool {
    forall|j: int|
        0 <= j < n && lands(#[trigger] points[j], row, col) ==> closeness(points[j]) <= floor
}

/// What the depth test over the first `n` points leaves in one cell that
/// held the closeness `floor` and the luminance `stale`: both as they were
/// where no point is closer than `floor`, else the closeness and the
/// luminance of the point that takes the cell.
pub open spec fn cell_drawn(
    points: Seq<Point>,
    n: int,
    floor: int,
    stale: int,
    row: int,
    col: int,
    near: int,
    lum: int,
) -> bool {
    ||| outdone(points, n, floor, row, col) && near == floor && lum == stale
    ||| exists|k: int| #[trigger]
        wins(points, n, floor, k, row, col) && near == closeness(points[k]) && lum == luminance(
            points[k],
        )
}

/// Point `k` is written to the buffers when its turn comes: it falls on the
/// screen, closer than what its cell held in `floors`, and closer than every
/// earlier point on that cell.
pub open spec fn sets_record(points: Seq<Point>, floors: Seq<Seq<i128>>, k: int) -> bool {
    let p = points[k];
    &&& on_screen(p)
    &&& closeness(p) > floors[screen_row(p)][screen_col(p)]
    &&& forall|j: int|
        0 <= j < k && lands(#[trigger] points[j], screen_row(p), screen_col(p)) ==> closeness(
            points[j],
        ) < closeness(p)
}

/// `peak` is the greatest luminance among the points, of the first `n`, that
/// are written to the buffers, and nought if none of them is positive.
pub open spec fn is_peak(points: Seq<Point>, n: int, floors: Seq<Seq<i128>>, peak: int) -> bool {
    &&& peak >= 0
    &&& forall|k: int|
        0 <= k < n && #[trigger] sets_record(points, floors, k) ==> luminance(points[k]) <= peak
    &&& (peak == 0 || exists|k: int|
        0 <= k < n && #[trigger] sets_record(points, floors, k) && luminance(points[k]) == peak)
}

/// What drawing the first `n` points leaves: in every cell of the screen what
/// the depth test leaves there, starting from the buffers `floors` and
/// `stale`, and the peak luminance of what was written.
pub open spec fn drawn(
    points: Seq<Point>,
    n: int,
    floors: Seq<Seq<i128>>,
    stale: Seq<Seq<i128>>,
    near: Seq<Seq<i128>>,
    lum: Seq<Seq<i128>>,
    peak: int,
) -> bool {
    &&& forall|row: int, col: int|
        0 <= row < SCREEN_HEIGHT && 0 <= col < SCREEN_WIDTH ==> #[trigger] cell_drawn(
            points,
            n,
            floors[row][col] as int,
            stale[row][col] as int,
            row,
            col,
            near[row][col] as int,
            lum[row][col] as int,
        )
    &&& is_peak(points, n, floors, peak)
}

/// One more point is put to the depth test of a cell: the cell changes hands
/// where the point lands on it closer than what it holds, and not otherwise.
pub proof fn lemma_cell_step(
    points: Seq<Point>,
    n: int,
    floor: int,
    stale: int,
    row: int,
    col: int,
    near: int,
    lum: int,
)
    requires
        0 <= n < points.len(),
        cell_drawn(points, n, floor, stale, row, col, near, lum),
    ensures
        near >= floor,
        lands(points[n], row, col) && closeness(points[n]) > near ==> cell_drawn(
            points,
            n + 1,
            floor,
            stale,
            row,
            col,
            closeness(points[n]),
            luminance(points[n]),
        ),
        !(lands(points[n], row, col) && closeness(points[n]) > near) ==> cell_drawn(
            points,
            n + 1,
            floor,
            stale,
            row,
            col,
            near,
            lum,
        ),
{
    let p = points[n];
    if outdone(points, n, floor, row, col) && near == floor && lum == stale {
        if lands(p, row, col) && closeness(p) > near {
            assert(wins(points, n + 1, floor, n, row, col));
        } else {
            assert(outdone(points, n + 1, floor, row, col));
        }
    } else {
        let k = choose|k: int| #[trigger]
            wins(points, n, floor, k, row, col) && near == closeness(points[k]) && lum
                == luminance(points[k]);
        if lands(p, row, col) && closeness(p) > near {
            assert(wins(points, n + 1, floor, n, row, col));
        } else {
            assert(wins(points, n + 1, floor, k, row, col));
        }
    }
}

/// One more point is put to the running maximum: it counts where it is
/// written to the buffers, which is where it falls on the screen closer than
/// what its cell holds by then.
pub proof fn lemma_peak_step(
    points: Seq<Point>,
    n: int,
    floors: Seq<Seq<i128>>,
    stale: int,
    near: int,
    lum: int,
    peak: int,
)
    requires
        0 <= n < points.len(),
        is_peak(points, n, floors, peak),
        on_screen(points[n]) ==> cell_drawn(
            points,
            n,
            floors[screen_row(points[n])][screen_col(points[n])] as int,
            stale,
            screen_row(points[n]),
            screen_col(points[n]),
            near,
            lum,
        ),
    ensures
        sets_record(points, floors, n) <==> on_screen(points[n]) && closeness(points[n]) > near,
        is_peak(
            points,
            n + 1,
            floors,
            if sets_record(points, floors, n) && luminance(points[n]) > peak {
                luminance(points[n])
            } else {
                peak
            },
        ),
{
    let p = points[n];
    if on_screen(p) {
        let row = screen_row(p);
        let col = screen_col(p);
        let floor = floors[row][col] as int;
        if outdone(points, n, floor, row, col) && near == floor && lum == stale {
        } else {
            let k = choose|k: int| #[trigger]
                wins(points, n, floor, k, row, col) && near == closeness(points[k]) && lum
                    == luminance(points[k]);
            assert(lands(points[k], row, col));
        }
    }
    let next = if sets_record(points, floors, n) && luminance(p) > peak {
        luminance(p)
    } else {
        peak
    };
    if next != 0 {
        if sets_record(points, floors, n) && luminance(p) > peak {
            assert(sets_record(points, floors, n) && luminance(points[n]) == next);
        } else {
            let k = choose|k: int|
                0 <= k < n && #[trigger] sets_record(points, floors, k) && luminance(points[k])
                    == peak;
            assert(0 <= k < n + 1 && sets_record(points, floors, k) && luminance(points[k]) == next);
        }
    }
}

/// At most one point takes a cell.
pub proof fn lemma_winner_unique(
    points: Seq<Point>,
    n: int,
    floor: int,
    first: int,
    second: int,
    row: int,
    col: int,
)
    requires
        wins(points, n, floor, first, row, col),
        wins(points, n, floor, second, row, col),
    ensures
        first == second,
{
    assert(lands(points[first], row, col));
    assert(lands(points[second], row, col));
}

/// The depth test leaves one closeness and one luminance in a cell, and no
/// other: what is said of a cell after the test determines both.
pub proof fn lemma_cell_drawn_unique(
    points: Seq<Point>,
    n: int,
    floor: int,
    stale: int,
    row: int,
    col: int,
    near: int,
    lum: int,
    other_near: int,
    other_lum: int,
)
    requires
        cell_drawn(points, n, floor, stale, row, col, near, lum),
        cell_drawn(points, n, floor, stale, row, col, other_near, other_lum),
    ensures
        near == other_near,
        lum == other_lum,
{
    let kept = outdone(points, n, floor, row, col) && near == floor && lum == stale;
    let other_kept = outdone(points, n, floor, row, col) && other_near == floor && other_lum
        == stale;
    if !kept {
        let k = choose|k: int| #[trigger]
            wins(points, n, floor, k, row, col) && near == closeness(points[k]) && lum
                == luminance(points[k]);
        assert(lands(points[k], row, col));
        if !other_kept {
            let j = choose|j: int| #[trigger]
                wins(points, n, floor, j, row, col) && other_near == closeness(points[j])
                    && other_lum == luminance(points[j]);
            lemma_winner_unique(points, n, floor, k, j, row, col);
        }
    } else if !other_kept {
        let j = choose|j: int| #[trigger]
            wins(points, n, floor, j, row, col) && other_near == closeness(points[j])
                && other_lum == luminance(points[j]);
        assert(lands(points[j], row, col));
    }
}

/// A pass has one peak luminance, and no other.
pub proof fn lemma_peak_unique(
    points: Seq<Point>,
    n: int,
    floors: Seq<Seq<i128>>,
    peak: int,
    other: int,
)
    requires
        is_peak(points, n, floors, peak),
        is_peak(points, n, floors, other),
    ensures
        peak == other,
{
    if peak != 0 {
        let k = choose|k: int|
            0 <= k < n && #[trigger] sets_record(points, floors, k) && luminance(points[k])
                == peak;
        assert(luminance(points[k]) <= other);
    }
    if other != 0 {
        let k = choose|k: int|
            0 <= k < n && #[trigger] sets_record(points, floors, k) && luminance(points[k])
                == other;
        assert(luminance(points[k]) <= peak);
    }
}

/// A pass leaves one state of the buffers and one peak behind, and no
/// other: what is said of the buffers after the pass determines them.
pub proof fn lemma_drawn_unique(
    points: Seq<Point>,
    n: int,
    floors: Seq<Seq<i128>>,
    stale: Seq<Seq<i128>>,
    near: Seq<Seq<i128>>,
    lum: Seq<Seq<i128>>,
    peak: int,
    other_near: Seq<Seq<i128>>,
    other_lum: Seq<Seq<i128>>,
    other_peak: int,
)
    requires
        drawn(points, n, floors, stale, near, lum, peak),
        drawn(points, n, floors, stale, other_near, other_lum, other_peak),
        has_shape(near, SCREEN_HEIGHT as int, SCREEN_WIDTH as int),
        has_shape(lum, SCREEN_HEIGHT as int, SCREEN_WIDTH as int),
        has_shape(other_near, SCREEN_HEIGHT as int, SCREEN_WIDTH as int),
        has_shape(other_lum, SCREEN_HEIGHT as int, SCREEN_WIDTH as int),
    ensures
        near == other_near,
        lum == other_lum,
        peak == other_peak,
{
    lemma_peak_unique(points, n, floors, peak, other_peak);
    assert forall|row: int| 0 <= row < SCREEN_HEIGHT implies near[row] == other_near[row] && lum[row]
        == other_lum[row] by {
        assert forall|col: int| 0 <= col < SCREEN_WIDTH implies near[row][col]
            == other_near[row][col] && lum[row][col] == other_lum[row][col] by {
            assert(cell_drawn(
                points,
                n,
                floors[row][col] as int,
                stale[row][col] as int,
                row,
                col,
                near[row][col] as int,
                lum[row][col] as int,
            ));
            assert(cell_drawn(
                points,
                n,
                floors[row][col] as int,
                stale[row][col] as int,
                row,
                col,
                other_near[row][col] as int,
                other_lum[row][col] as int,
            ));
            lemma_cell_drawn_unique(
                points,
                n,
                floors[row][col] as int,
                stale[row][col] as int,
                row,
                col,
                near[row][col] as int,
                lum[row][col] as int,
                other_near[row][col] as int,
                other_lum[row][col] as int,
            );
        }
        assert(near[row] =~= other_near[row]);
        assert(lum[row] =~= other_lum[row]);
    }
    assert(near =~= other_near);
    assert(lum =~= other_lum);
}

/// After a pass over a cleared projection buffer, a cell holds the greatest
/// closeness among the points that land on it: none of them is closer, and
/// where the cell is not nought one of them is exactly that close. The cell
/// is nought only where no point lands on it.
pub proof fn lemma_cell_holds_maximum(
    points: Seq<Point>,
    n: int,
    stale: int,
    row: int,
    col: int,
    near: int,
    lum: int,
)
    requires
        cell_drawn(points, n, 0, stale, row, col, near, lum),
    ensures
        forall|j: int|
            0 <= j < n && lands(#[trigger] points[j], row, col) ==> 0 < closeness(points[j])
                <= near,
        near != 0 ==> exists|k: int|
            0 <= k < n && lands(#[trigger] points[k], row, col) && closeness(points[k]) == near,
{
    assert forall|j: int| 0 <= j < n && lands(#[trigger] points[j], row, col) implies 0
        < closeness(points[j]) by {
        lemma_closeness_range(points[j]);
    }
    if !(outdone(points, n, 0, row, col) && near == 0 && lum == stale) {
        let k = choose|k: int| #[trigger]
            wins(points, n, 0, k, row, col) && near == closeness(points[k]) && lum == luminance(
                points[k],
            );
        assert(0 <= k < n && lands(points[k], row, col) && closeness(points[k]) == near);
    }
}

/// Of two points that land on one cell equally close, the earlier keeps the
/// cell: where the two are the closest on the cell, closer than what it held,
/// and no point before the earlier is as close, the cell ends with the
/// luminance of the earlier.
pub proof fn lemma_tie_goes_to_first(
    points: Seq<Point>,
    n: int,
    floor: int,
    stale: int,
    earlier: int,
    later: int,
    row: int,
    col: int,
    near: int,
    lum: int,
)
    requires
        cell_drawn(points, n, floor, stale, row, col, near, lum),
        0 <= earlier < later < n,
        lands(points[earlier], row, col),
        lands(points[later], row, col),
        closeness(points[earlier]) == closeness(points[later]),
        closeness(points[earlier]) > floor,
        forall|j: int|
            0 <= j < n && lands(#[trigger] points[j], row, col) ==> closeness(points[j])
                <= closeness(points[earlier]),
        forall|j: int|
            0 <= j < earlier && lands(#[trigger] points[j], row, col) ==> closeness(points[j])
                < closeness(points[earlier]),
    ensures
        !wins(points, n, floor, later, row, col),
        near == closeness(points[earlier]),
        lum == luminance(points[earlier]),
{
    assert(wins(points, n, floor, earlier, row, col));
    lemma_cell_drawn_unique(
        points,
        n,
        floor,
        stale,
        row,
        col,
        near,
        lum,
        closeness(points[earlier]),
        luminance(points[earlier]),
    );
}

/// The tie on a cell of a cleared projection buffer: of two points that land
/// on it equally close, with no point closer on the cell and none before the
/// earlier as close, the earlier gives the cell its luminance, whatever the
/// luminance of the later.
pub proof fn lemma_tie_on_cleared_cell(
    points: Seq<Point>,
    n: int,
    stale: int,
    earlier: int,
    later: int,
    row: int,
    col: int,
    near: int,
    lum: int,
)
    requires
        cell_drawn(points, n, 0, stale, row, col, near, lum),
        0 <= earlier < later < n,
        lands(points[earlier], row, col),
        lands(points[later], row, col),
        closeness(points[earlier]) == closeness(points[later]),
        forall|j: int|
            0 <= j < n && lands(#[trigger] points[j], row, col) ==> closeness(points[j])
                <= closeness(points[earlier]),
        forall|j: int|
            0 <= j < earlier && lands(#[trigger] points[j], row, col) ==> closeness(points[j])
                < closeness(points[earlier]),
    ensures
        near == closeness(points[earlier]),
        lum == luminance(points[earlier]),
{
    lemma_closeness_range(points[earlier]);
    lemma_tie_goes_to_first(points, n, 0, stale, earlier, later, row, col, near, lum);
}

/// The depth test by depth itself: on a cell of a cleared projection buffer
/// the point that lands nearest the plane `z = 0` takes the cell, and of
/// several equally near the first. So where `k` lands on the cell, no point
/// that lands there is nearer the plane and none before `k` is as near, the
/// cell ends with the closeness and the luminance of `k`.
pub proof fn lemma_nearest_takes_cleared_cell(
    points: Seq<Point>,
    n: int,
    stale: int,
    k: int,
    row: int,
    col: int,
    near: int,
    lum: int,
)
    requires
        cell_drawn(points, n, 0, stale, row, col, near, lum),
        0 <= k < n,
        lands(points[k], row, col),
        forall|j: int|
            0 <= j < n && lands(#[trigger] points[j], row, col) ==> magnitude(points[j].z as int)
                >= magnitude(points[k].z as int),
        forall|j: int|
            0 <= j < k && lands(#[trigger] points[j], row, col) ==> magnitude(points[j].z as int)
                > magnitude(points[k].z as int),
    ensures
        near == closeness(points[k]),
        lum == luminance(points[k]),
{
    lemma_closeness_range(points[k]);
    assert forall|j: int| 0 <= j < n && lands(#[trigger] points[j], row, col) implies closeness(
        points[j],
    ) <= closeness(points[k]) by {
        lemma_closer_is_nearer(points[j], points[k]);
    }
    assert forall|j: int| 0 <= j < k && lands(#[trigger] points[j], row, col) implies closeness(
        points[j],
    ) < closeness(points[k]) by {
        lemma_closer_is_nearer(points[j], points[k]);
        lemma_closer_is_nearer(points[k], points[j]);
    }
    assert(wins(points, n, 0, k, row, col));
    lemma_cell_drawn_unique(
        points,
        n,
        0,
        stale,
        row,
        col,
        near,
        lum,
        closeness(points[k]),
        luminance(points[k]),
    );
}

} // verus!
