//! How a quarter turn moves facelets: each facelet of the cube takes the
//! colour of exactly one source facelet.
//!
//! A turn is described by its axis face and its width, the number of layers
//! it carries counted inward from the axis face. The axis face's own grid
//! rotates clockwise; every carried layer cycles four strips of facelets on
//! the neighbouring faces, each strip taking the colours of the next one in
//! the axis face's adjacency table; when every layer is carried, the
//! opposite face's grid rotates counterclockwise.
use vstd::prelude::*;

use crate::facelets::{face_at, face_index, Face};

verus! {

/// A line of `n` facelets on one face, one per layer depth.
///
/// At depth `d` and offset `i` the strip covers the cell whose line index
/// (row when `along_row`, column otherwise) is `d`, or `n - 1 - d` when
/// `far`, and whose offset along that line is `i`, or `n - 1 - i` when
/// `reversed`.
#[derive(Debug, Clone, Copy, PartialEq, Eq, Structural)]
pub struct Strip {
    pub face: Face,
    pub along_row: bool,
    pub far: bool,
    pub reversed: bool,
}

/// A quarter turn: the axis face and the number of layers carried.
#[derive(Debug, Clone, Copy, PartialEq, Eq, Structural)]
pub struct Turn {
    pub axis: Face,
    pub width: usize,
}

pub open spec fn mk_strip(face: Face, along_row: bool, far: bool, reversed: bool) -> Strip {
    Strip { face, along_row, far, reversed }
}

/// The adjacency table: strip `k` (0 to 3) of a turn about `axis`. During a
/// clockwise quarter turn strip `k` takes the colours of strip `k + 1 mod 4`.
pub open spec fn strip(axis: Face, k: int) -> Strip {
    match axis {
        Face::Up => if k == 0 {
            mk_strip(Face::Front, true, false, false)
        } else if k == 1 {
            mk_strip(Face::Right, true, false, false)
        } else if k == 2 {
            mk_strip(Face::Back, true, false, false)
        } else {
            mk_strip(Face::Left, true, false, false)
        },
        Face::Down => if k == 0 {
            mk_strip(Face::Front, true, true, false)
        } else if k == 1 {
            mk_strip(Face::Left, true, true, false)
        } else if k == 2 {
            mk_strip(Face::Back, true, true, false)
        } else {
            mk_strip(Face::Right, true, true, false)
        },
        Face::Left => if k == 0 {
            mk_strip(Face::Up, false, false, false)
        } else if k == 1 {
            mk_strip(Face::Back, false, true, true)
        } else if k == 2 {
            mk_strip(Face::Down, false, false, false)
        } else {
            mk_strip(Face::Front, false, false, false)
        },
        Face::Right => if k == 0 {
            mk_strip(Face::Up, false, true, false)
        } else if k == 1 {
            mk_strip(Face::Front, false, true, false)
        } else if k == 2 {
            mk_strip(Face::Down, false, true, false)
        } else {
            mk_strip(Face::Back, false, false, true)
        },
        Face::Front => if k == 0 {
            mk_strip(Face::Up, true, true, false)
        } else if k == 1 {
            mk_strip(Face::Left, false, true, true)
        } else if k == 2 {
            mk_strip(Face::Down, true, false, true)
        } else {
            mk_strip(Face::Right, false, false, false)
        },
        Face::Back => if k == 0 {
            mk_strip(Face::Up, true, false, false)
        } else if k == 1 {
            mk_strip(Face::Right, false, true, false)
        } else if k == 2 {
            mk_strip(Face::Down, true, true, true)
        } else {
            mk_strip(Face::Left, false, false, true)
        },
    }
}

/// The face across the cube from `f`.
pub open spec fn opposite(f: Face) -> Face {
    match f {
        Face::Up => Face::Down,
        Face::Down => Face::Up,
        Face::Left => Face::Right,
        Face::Right => Face::Left,
        Face::Front => Face::Back,
        Face::Back => Face::Front,
    }
}

/// Which strip of a turn about `axis` lies on face `g` (`g` is neither
/// `axis` nor its opposite).
pub open spec fn strip_slot(axis: Face, g: Face) -> int {
    if strip(axis, 0).face == g {
        0
    } else if strip(axis, 1).face == g {
        1
    } else if strip(axis, 2).face == g {
        2
    } else {
        3
    }
}

/// The (row, column) that strip `s` covers at depth `d` and offset `i`.
pub open spec fn strip_cell(s: Strip, n: int, d: int, i: int) -> (int, int) {
    let line = if s.far { n - 1 - d } else { d };
    let pos = if s.reversed { n - 1 - i } else { i };
    if s.along_row { (line, pos) } else { (pos, line) }
}

/// The (depth, offset) at which strip `s` covers cell (`r`, `c`).
pub open spec fn strip_coords(s: Strip, n: int, r: int, c: int) -> (int, int) {
    let line = if s.along_row { r } else { c };
    let pos = if s.along_row { c } else { r };
    (if s.far { n - 1 - line } else { line }, if s.reversed { n - 1 - pos } else { pos })
}

/// The facelet (face index, row, column) whose colour lands on facelet
/// (`f`, `r`, `c`) when turn `t` is made once on a cube of size `n`.
#[verifier::opaque]
pub open spec fn quarter_source(t: Turn, n: int, f: int, r: int, c: int) -> (int, int, int) {
    let g = face_at(f);
    if g == t.axis {
        (f, n - 1 - c, r)
    } else if g == opposite(t.axis) {
        if t.width == n {
            (f, c, n - 1 - r)
        } else {
            (f, r, c)
        }
    } else {
        let k = strip_slot(t.axis, g);
        let dc = strip_coords(strip(t.axis, k), n, r, c);
        if dc.0 < t.width {
            let s = strip(t.axis, (k + 1) % 4);
            let rc = strip_cell(s, n, dc.0, dc.1);
            (face_index(s.face), rc.0, rc.1)
        } else {
            (f, r, c)
        }
    }
}

/// A facelet position lies on a cube of size `n`.
pub open spec fn in_cube(n: int, p: (int, int, int)) -> bool {
    0 <= p.0 < 6 && 0 <= p.1 < n && 0 <= p.2 < n
}

/// The source of a facelet is again a facelet of the cube.
pub proof fn lemma_source_in_cube(t: Turn, n: int, f: int, r: int, c: int)
    requires
        n >= 1,
        in_cube(n, (f, r, c)),
    ensures
        in_cube(n, quarter_source(t, n, f, r, c)),
{
    reveal(quarter_source);
}

/// The four strips of a turn lie on the four faces beside its axis, one each.
pub proof fn lemma_strip_faces(axis: Face, k: int)
    requires
        0 <= k < 4,
    ensures
        strip(axis, k).face != axis,
        strip(axis, k).face != opposite(axis),
        strip_slot(axis, strip(axis, k).face) == k,
{
}

/// Every face beside the axis carries one of its strips.
pub proof fn lemma_neighbor_slot(axis: Face, g: Face)
    requires
        g != axis,
        g != opposite(axis),
    ensures
        0 <= strip_slot(axis, g) < 4,
        strip(axis, strip_slot(axis, g)).face == g,
{
}

/// `strip_cell` and `strip_coords` undo each other.
pub proof fn lemma_strip_inverse(s: Strip, n: int, d: int, i: int, r: int, c: int)
    ensures
        strip_coords(s, n, strip_cell(s, n, d, i).0, strip_cell(s, n, d, i).1) == (d, i),
        strip_cell(s, n, strip_coords(s, n, r, c).0, strip_coords(s, n, r, c).1) == (r, c),
        0 <= d < n && 0 <= i < n ==> 0 <= strip_cell(s, n, d, i).0 < n && 0 <= strip_cell(s, n, d, i).1 < n,
        0 <= r < n && 0 <= c < n ==> 0 <= strip_coords(s, n, r, c).0 < n && 0 <= strip_coords(s, n, r, c).1 < n,
{
}

/// The facelet at depth `d`, offset `i` of strip `k`.
pub open spec fn strip_point(t: Turn, n: int, k: int, d: int, i: int) -> (int, int, int) {
    let s = strip(t.axis, k % 4);
    let rc = strip_cell(s, n, d, i);
    (face_index(s.face), rc.0, rc.1)
}

/// A carried facelet of strip `k` takes its colour from strip `k + 1`.
pub proof fn lemma_strip_step(t: Turn, n: int, k: int, d: int, i: int)
    requires
        0 <= k,
        0 <= d < t.width,
        t.width <= n,
        0 <= i < n,
    ensures
        ({
            let p = strip_point(t, n, k, d, i);
            quarter_source(t, n, p.0, p.1, p.2) == strip_point(t, n, k + 1, d, i)
        }),
{
    reveal(quarter_source);
    let s = strip(t.axis, k % 4);
    lemma_strip_faces(t.axis, k % 4);
    lemma_strip_inverse(s, n, d, i, 0, 0);
    assert((k % 4 + 1) % 4 == (k + 1) % 4);
    assert(face_at(face_index(s.face)) == s.face);
}

/// What a quarter turn does to the facelets off the carried strips.
pub proof fn lemma_source_off_strips(t: Turn, n: int, f: int, r: int, c: int)
    requires
        0 <= f < 6,
    ensures
        face_at(f) == t.axis ==> quarter_source(t, n, f, r, c) == (f, n - 1 - c, r),
        face_at(f) == opposite(t.axis) && t.width == n ==> quarter_source(t, n, f, r, c) == (
        f,
        c,
        n - 1 - r,
        ),
        face_at(f) == opposite(t.axis) && t.width != n ==> quarter_source(t, n, f, r, c) == (
        f,
        r,
        c,
        ),
        face_at(f) != t.axis && face_at(f) != opposite(t.axis) && strip_coords(
            strip(t.axis, strip_slot(t.axis, face_at(f))),
            n,
            r,
            c,
        ).0 >= t.width ==> quarter_source(t, n, f, r, c) == (f, r, c),
{
    reveal(quarter_source);
}

/// `quarter_source` applied four times.
pub open spec fn source4(t: Turn, n: int, p: (int, int, int)) -> (int, int, int) {
    let p1 = quarter_source(t, n, p.0, p.1, p.2);
    let p2 = quarter_source(t, n, p1.0, p1.1, p1.2);
    let p3 = quarter_source(t, n, p2.0, p2.1, p2.2);
    quarter_source(t, n, p3.0, p3.1, p3.2)
}

/// Four quarter turns bring every facelet back to where it started.
pub proof fn lemma_four_quarters(t: Turn, n: int, p: (int, int, int))
    requires
        n >= 1,
        1 <= t.width <= n,
        in_cube(n, p),
    ensures
        source4(t, n, p) == p,
{
    let g = face_at(p.0);
    if g == t.axis || g == opposite(t.axis) {
        lemma_source_off_strips(t, n, p.0, p.1, p.2);
        lemma_source_off_strips(t, n, p.0, n - 1 - p.2, p.1);
        lemma_source_off_strips(t, n, p.0, n - 1 - p.1, n - 1 - p.2);
        lemma_source_off_strips(t, n, p.0, p.2, n - 1 - p.1);
        lemma_source_off_strips(t, n, p.0, p.2, n - 1 - p.1);
        lemma_source_off_strips(t, n, p.0, n - 1 - p.1, n - 1 - p.2);
        lemma_source_off_strips(t, n, p.0, n - 1 - p.2, p.1);
    } else {
        lemma_neighbor_slot(t.axis, g);
        let k = strip_slot(t.axis, g);
        let s = strip(t.axis, k);
        let dc = strip_coords(s, n, p.1, p.2);
        lemma_strip_inverse(s, n, 0, 0, p.1, p.2);
        assert(face_index(g) == p.0);
        if dc.0 < t.width {
            assert(strip_point(t, n, k, dc.0, dc.1) == p);
            lemma_strip_step(t, n, k, dc.0, dc.1);
            lemma_strip_step(t, n, k + 1, dc.0, dc.1);
            lemma_strip_step(t, n, k + 2, dc.0, dc.1);
            lemma_strip_step(t, n, k + 3, dc.0, dc.1);
            assert(strip_point(t, n, k + 4, dc.0, dc.1) == p);
        } else {
            lemma_source_off_strips(t, n, p.0, p.1, p.2);
        }
    }
}

fn make_strip(face: Face, along_row: bool, far: bool, reversed: bool) -> (s: Strip)
    ensures
        s == mk_strip(face, along_row, far, reversed),
{
    Strip { face, along_row, far, reversed }
}

/// Strip `k` of the adjacency table of `axis`.
pub fn strip_of(axis: Face, k: usize) -> (s: Strip)
    requires
        k < 4,
    ensures
        s == strip(axis, k as int),
{
    match axis {
        Face::Up => if k == 0 {
            make_strip(Face::Front, true, false, false)
        } else if k == 1 {
            make_strip(Face::Right, true, false, false)
        } else if k == 2 {
            make_strip(Face::Back, true, false, false)
        } else {
            make_strip(Face::Left, true, false, false)
        },
        Face::Down => if k == 0 {
            make_strip(Face::Front, true, true, false)
        } else if k == 1 {
            make_strip(Face::Left, true, true, false)
        } else if k == 2 {
            make_strip(Face::Back, true, true, false)
        } else {
            make_strip(Face::Right, true, true, false)
        },
        Face::Left => if k == 0 {
            make_strip(Face::Up, false, false, false)
        } else if k == 1 {
            make_strip(Face::Back, false, true, true)
        } else if k == 2 {
            make_strip(Face::Down, false, false, false)
        } else {
            make_strip(Face::Front, false, false, false)
        },
        Face::Right => if k == 0 {
            make_strip(Face::Up, false, true, false)
        } else if k == 1 {
            make_strip(Face::Front, false, true, false)
        } else if k == 2 {
            make_strip(Face::Down, false, true, false)
        } else {
            make_strip(Face::Back, false, false, true)
        },
        Face::Front => if k == 0 {
            make_strip(Face::Up, true, true, false)
        } else if k == 1 {
            make_strip(Face::Left, false, true, true)
        } else if k == 2 {
            make_strip(Face::Down, true, false, true)
        } else {
            make_strip(Face::Right, false, false, false)
        },
        Face::Back => if k == 0 {
            make_strip(Face::Up, true, false, false)
        } else if k == 1 {
            make_strip(Face::Right, false, true, false)
        } else if k == 2 {
            make_strip(Face::Down, true, true, true)
        } else {
            make_strip(Face::Left, false, false, true)
        },
    }
}

/// The face across the cube from `f`.
pub fn opposite_of(f: Face) -> (g: Face)
    ensures
        g == opposite(f),
{
    match f {
        Face::Up => Face::Down,
        Face::Down => Face::Up,
        Face::Left => Face::Right,
        Face::Right => Face::Left,
        Face::Front => Face::Back,
        Face::Back => Face::Front,
    }
}

/// The facelet whose colour lands on (`f`, `r`, `c`) when `t` is made once.
pub fn source_of(t: Turn, n: usize, f: usize, r: usize, c: usize) -> (p: (usize, usize, usize))
    requires
        n >= 1,
        in_cube(n as int, (f as int, r as int, c as int)),
    ensures
        (p.0 as int, p.1 as int, p.2 as int) == quarter_source(t, n as int, f as int, r as int, c as int),
{
    proof {
        reveal(quarter_source);
    }
    let g = Face::from_index(f);
    if g == t.axis {
        (f, n - 1 - c, r)
    } else if g == opposite_of(t.axis) {
        if t.width == n {
            (f, c, n - 1 - r)
        } else {
            (f, r, c)
        }
    } else {
        let k: usize = if strip_of(t.axis, 0).face == g {
            0
        } else if strip_of(t.axis, 1).face == g {
            1
        } else if strip_of(t.axis, 2).face == g {
            2
        } else {
            3
        };
        let s = strip_of(t.axis, k);
        let line = if s.along_row { r } else { c };
        let pos = if s.along_row { c } else { r };
        let d = if s.far { n - 1 - line } else { line };
        let i = if s.reversed { n - 1 - pos } else { pos };
        if d < t.width {
            let s2 = strip_of(t.axis, (k + 1) % 4);
            let line2 = if s2.far { n - 1 - d } else { d };
            let pos2 = if s2.reversed { n - 1 - i } else { i };
            if s2.along_row {
                (s2.face.index(), line2, pos2)
            } else {
                (s2.face.index(), pos2, line2)
            }
        } else {
            (f, r, c)
        }
    }
}

} // verus!
