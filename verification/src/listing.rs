//! The points of a cloud written out as text, in units with two decimals.

use vstd::prelude::*;
use crate::fixed::{magnitude, round_div};
use crate::point::Point;

verus! {

/// The number of trillionths in a hundredth.
pub const HUNDREDTH: i64 = 10_000_000_000;

/// The character of a decimal digit.
pub open spec fn digit(d: int) -> char {
    if d == 0 {
        '0'
    } else if d == 1 {
        '1'
    } else if d == 2 {
        '2'
    } else if d == 3 {
        '3'
    } else if d == 4 {
        '4'
    } else if d == 5 {
        '5'
    } else if d == 6 {
        '6'
    } else if d == 7 {
        '7'
    } else if d == 8 {
        '8'
    } else {
        '9'
    }
}

/// The decimal digits of a number, the highest first, without leading
/// noughts.
pub open spec fn decimal(n: nat) -> Seq<char>
    decreases n,
{
    if n < 10 {
        seq![digit(n as int)]
    } else {
        decimal(n / 10).push(digit((n % 10) as int))
    }
}

/// The magnitude of a coordinate in hundredths of a unit, rounded to the
/// nearest, a half rounding away from nought.
pub open spec fn hundredths(v: int) -> int {
    round_div(magnitude(v), HUNDREDTH as int)
}

/// A coordinate as text: a minus sign where it is below nought, the whole
/// units, a point and two decimals.
pub open spec fn coordinate_text(v: int) -> Seq<char> {
    let h = hundredths(v);
    let sign = if v < 0 {
        seq!['-']
    } else {
        Seq::<char>::empty()
    };
    sign + decimal((h / 100) as nat) + seq!['.', digit((h / 10) % 10), digit(h % 10)]
}

/// The three coordinates of a point, set apart by commas between spaces.
pub open spec fn triple_text(p: Point) -> Seq<char> {
    coordinate_text(p.x as int) + seq![' ', ',', ' '] + coordinate_text(p.y as int) + seq![
        ' ',
        ',',
        ' ',
    ] + coordinate_text(p.z as int)
}

/// The line of one point in a plain list: a space, the coordinates, two
/// spaces and a line feed.
pub open spec fn plain_line(p: Point) -> Seq<char> {
    seq![' '] + triple_text(p) + seq![' ', ' ', '\n']
}

/// The lines of the first `n` points of a plain list.
pub open spec fn plain_lines(points: Seq<Point>, n: int) -> Seq<char>
    decreases n,
{
    if n <= 0 {
        Seq::<char>::empty()
    } else {
        plain_lines(points, n - 1) + plain_line(points[n - 1])
    }
}

/// The line of one point in a bracketed list: the coordinates in round
/// brackets and a line feed, behind a space on every line but the first.
pub open spec fn bracketed_line(p: Point, first: bool) -> Seq<char> {
    let lead = if first {
        Seq::<char>::empty()
    } else {
        seq![' ']
    };
    lead + seq!['('] + triple_text(p) + seq![')', '\n']
}

/// The opening bracket of a bracketed list and the lines of its first `n`
/// points.
pub open spec fn bracketed_lines(points: Seq<Point>, n: int) -> Seq<char>
    decreases n,
{
    if n <= 0 {
        seq!['[', '\n']
    } else {
        bracketed_lines(points, n - 1) + bracketed_line(points[n - 1], n == 1)
    }
}

/// A cloud as a bracketed list: an opening bracket on a line of its own, a
/// line for each point, and a closing bracket on a line of its own.
pub open spec fn bracketed_list(points: Seq<Point>) -> Seq<char> {
    bracketed_lines(points, points.len() as int) + seq![']', '\n']
}

/// The character of a decimal digit.
fn digit_char(d: u64) -> (c: char)
    requires
        d < 10,
    ensures
        c == digit(d as int),
{
    if d == 0 {
        '0'
    } else if d == 1 {
        '1'
    } else if d == 2 {
        '2'
    } else if d == 3 {
        '3'
    } else if d == 4 {
        '4'
    } else if d == 5 {
        '5'
    } else if d == 6 {
        '6'
    } else if d == 7 {
        '7'
    } else if d == 8 {
        '8'
    } else {
        '9'
    }
}

/// Appends the decimal digits of `n`.
fn push_decimal(out: &mut String, n: u64)
    ensures
        final(out)@ == old(out)@ + decimal(n as nat),
{
    let mut rest: u64 = n;
    let mut low: Vec<char> = Vec::new();
    while rest >= 10
        invariant
            decimal(n as nat) == decimal(rest as nat) + low@.reverse(),
        decreases rest,
    {
        let ghost before = low@;
        low.push(digit_char(rest % 10));
        assert(low@.reverse() =~= seq![digit((rest % 10) as int)] + before.reverse());
        assert(decimal(rest as nat) == decimal((rest / 10) as nat).push(digit((rest % 10) as int)));
        assert(decimal((rest / 10) as nat).push(digit((rest % 10) as int)) + before.reverse()
            =~= decimal((rest / 10) as nat) + low@.reverse());
        rest = rest / 10;
    }
    let ghost base = out@;
    out.push(digit_char(rest));
    let mut k: usize = low.len();
    while k > 0
        invariant
            k <= low@.len(),
            out@ == base + decimal(rest as nat) + low@.reverse().subrange(0, low@.len() - k),
        decreases k,
    {
        k = k - 1;
        let ghost so_far = out@;
        out.push(low[k]);
        assert(low@.reverse()[low@.len() - 1 - k] == low@[k as int]);
        assert(out@ =~= base + decimal(rest as nat) + low@.reverse().subrange(
            0,
            low@.len() - k,
        ));
    }
    assert(low@.reverse().subrange(0, low@.len() as int) =~= low@.reverse());
    assert(base + decimal(rest as nat) + low@.reverse() =~= base + (decimal(rest as nat)
        + low@.reverse()));
}

/// Appends a coordinate as text.
pub(crate) fn push_coordinate(out: &mut String, v: i64)
    ensures
        final(out)@ == old(out)@ + coordinate_text(v as int),
{
    let ghost base = out@;
    let wide: i128 = v as i128;
    let size: i128 = if wide < 0 {
        -wide
    } else {
        wide
    };
    let h: u64 = ((2 * size + 10_000_000_000) / 20_000_000_000) as u64;
    assert(h == hundredths(v as int));
    if v < 0 {
        out.push('-');
    }
    let ghost signed = out@;
    push_decimal(out, h / 100);
    out.push('.');
    out.push(digit_char((h / 10) % 10));
    out.push(digit_char(h % 10));
    assert(out@ =~= base + coordinate_text(v as int));
}

/// Appends the three coordinates of a point.
pub(crate) fn push_triple(out: &mut String, p: Point)
    ensures
        final(out)@ == old(out)@ + triple_text(p),
{
    let ghost base = out@;
    push_coordinate(out, p.x);
    out.push(' ');
    out.push(',');
    out.push(' ');
    push_coordinate(out, p.y);
    out.push(' ');
    out.push(',');
    out.push(' ');
    push_coordinate(out, p.z);
    assert(out@ =~= base + triple_text(p));
}

} // verus!
