//! Rectangles of columns, as the layout of terrain features uses them.
use vstd::prelude::*;
use std::ops::Range;

verus! {

/// A rectangle of columns: its range along x and its range along y.
pub type Area = (Range<usize>, Range<usize>);

/// `i` lies in the range.
pub open spec fn within(r: Range<usize>, i: int) -> bool {
    r.start <= i < r.end
}

/// Whether two ranges have an index in common.
pub fn overlap1(a: Range<usize>, b: Range<usize>) -> (r: bool)
    ensures
        r <==> exists|i: int| within(a, i) && within(b, i),
{
    let lo = if a.start >= b.start {
        a.start
    } else {
        b.start
    };
    let hi = if a.end <= b.end {
        a.end
    } else {
        b.end
    };
    proof {
        if lo < hi {
            assert(within(a, lo as int) && within(b, lo as int));
        }
    }
    lo < hi
}

/// Whether two areas have a column in common.
pub fn overlap(a: Area, b: Area) -> (r: bool)
    ensures
        r <==> exists|x: int, y: int|
            within(a.0, x) && within(b.0, x) && within(a.1, y) && within(b.1, y),
{
    let (ax, ay) = a;
    let (bx, by) = b;
    let rx = overlap1(ax, bx);
    let ry = overlap1(ay, by);
    proof {
        if rx && ry {
            let x = choose|i: int| within(ax, i) && within(bx, i);
            let y = choose|i: int| within(ay, i) && within(by, i);
            assert(within(a.0, x) && within(b.0, x) && within(a.1, y) && within(b.1, y));
        }
    }
    rx && ry
}

} // verus!
