//! The cube state: `6·n²` facelets, stored face by face in the fixed face
//! order, each face row-major.
use vstd::arithmetic::div_mod::{lemma_fundamental_div_mod, lemma_fundamental_div_mod_converse};
use vstd::prelude::*;

use crate::difficulty::{digest_meets_target, prefix_value};
use crate::digest::{keccak256, keccak256_of};
use crate::encoding::{canonical_bytes, face_bytes, faces_bytes, u64_le_bytes};
use crate::facelets::{color_byte, face_at, home_color, Color, Face};
use crate::geometry::{in_cube, lemma_source_in_cube, quarter_source, source_of, Turn};
use crate::moves::{apply_moves, move_count, move_facelets, move_turn, Move};

verus! {

/// The facelets of a cube as a function of face index, row and column.
pub type Facelets = Seq<Seq<Seq<Color>>>;

/// Where facelet (`f`, `r`, `c`) of a cube of size `n` is stored.
pub open spec fn cell_index(n: int, f: int, r: int, c: int) -> int {
    (f * n + r) * n + c
}

/// The facelet stored at position `p`.
pub open spec fn cell_of(n: int, p: int) -> (int, int, int) {
    (p / (n * n), (p % (n * n)) / n, (p % (n * n)) % n)
}

/// Storage positions of distinct facelets are distinct and in range.
pub proof fn lemma_cell_index(n: int, f: int, r: int, c: int)
    requires
        n >= 1,
        in_cube(n, (f, r, c)),
    ensures
        0 <= cell_index(n, f, r, c) < 6 * (n * n),
        f * (n * n) <= cell_index(n, f, r, c) < (f + 1) * (n * n),
        cell_of(n, cell_index(n, f, r, c)) == (f, r, c),
        cell_index(n, f, r, c) == f * (n * n) + (r * n + c),
        0 <= r * n + c < n * n,
{
    let nn = n * n;
    let rc = r * n + c;
    assert(0 <= rc < nn) by (nonlinear_arith)
        requires
            0 <= r < n,
            0 <= c < n,
            rc == r * n + c,
            nn == n * n,
    ;
    assert(cell_index(n, f, r, c) == f * nn + rc) by (nonlinear_arith)
        requires
            rc == r * n + c,
            nn == n * n,
    ;
    lemma_fundamental_div_mod_converse(cell_index(n, f, r, c), nn, f, rc);
    lemma_fundamental_div_mod_converse(rc, n, r, c);
    assert(0 <= f * nn && (f + 1) * nn <= 6 * nn && (f + 1) * nn == f * nn + nn) by (nonlinear_arith)
        requires
            0 <= f < 6,
            nn >= 1,
    ;
}

/// Every storage position below `6·n²` holds a facelet of the cube.
pub proof fn lemma_cell_of(n: int, p: int)
    requires
        n >= 1,
        0 <= p < 6 * (n * n),
    ensures
        in_cube(n, cell_of(n, p)),
        cell_index(n, cell_of(n, p).0, cell_of(n, p).1, cell_of(n, p).2) == p,
{
    let nn = n * n;
    assert(nn >= 1) by (nonlinear_arith)
        requires
            n >= 1,
            nn == n * n,
    ;
    lemma_fundamental_div_mod(p, nn);
    let f = p / nn;
    let rem = p % nn;
    lemma_fundamental_div_mod(rem, n);
    let r = rem / n;
    let c = rem % n;
    assert(0 <= f < 6) by (nonlinear_arith)
        requires
            p == nn * f + rem,
            0 <= rem < nn,
            0 <= p < 6 * nn,
    ;
    assert(0 <= r < n) by (nonlinear_arith)
        requires
            rem == n * r + c,
            0 <= c < n,
            0 <= rem < nn,
            nn == n * n,
    ;
    assert((f * n + r) * n + c == p) by (nonlinear_arith)
        requires
            p == nn * f + rem,
            rem == n * r + c,
            nn == n * n,
    ;
}

/// Why a cube could not be made.
#[derive(Debug, Clone, Copy, PartialEq, Eq, Structural)]
pub enum SizeError {
    /// The edge length is below two.
    TooSmall,
    /// The `6·n²` facelets do not fit in memory's address range.
    TooLarge,
}

/// An n×n×n cube.
#[derive(Debug, Clone)]
pub struct Cube {
    size: usize,
    cells: Vec<Color>,
}

/// `v` has six faces of `n` rows of `n` facelets.
pub open spec fn shaped(v: Facelets, n: nat) -> bool {
    &&& v.len() == 6
    &&& forall|f: int| 0 <= f < 6 ==> #[trigger] v[f].len() == n
    &&& forall|f: int, r: int| 0 <= f < 6 && 0 <= r < n ==> #[trigger] v[f][r].len() == n
}

/// Every face of `v` shows a single colour.
pub open spec fn is_monochrome(v: Facelets, n: int) -> bool {
    forall|f: int, r: int, c: int|
        0 <= f < 6 && 0 <= r < n && 0 <= c < n ==> #[trigger] v[f][r][c] == v[f][0][0]
}

/// The solved cube of size `n`: each face in its home colour.
pub open spec fn solved_facelets(n: nat) -> Facelets {
    Seq::new(6, |f: int| Seq::new(n, |r: int| Seq::new(n, |c: int| home_color(face_at(f)))))
}

/// The facelets after turn `t` is made once.
pub open spec fn quarter_facelets(v: Facelets, n: nat, t: Turn) -> Facelets {
    Seq::new(
        6,
        |f: int|
            Seq::new(
                n,
                |r: int|
                    Seq::new(
                        n,
                        |c: int|
                            {
                                let p = quarter_source(t, n as int, f, r, c);
                                v[p.0][p.1][p.2]
                            },
                    ),
            ),
    )
}

/// The facelets after turn `t` is made `k` times.
pub open spec fn turned(v: Facelets, n: nat, t: Turn, k: nat) -> Facelets
    decreases k,
{
    if k == 0 {
        v
    } else {
        quarter_facelets(turned(v, n, t, (k - 1) as nat), n, t)
    }
}

/// The number of facelets a cube of size `n` has.
pub open spec fn facelet_count(n: int) -> int {
    6 * (n * n)
}

impl View for Cube {
    type V = Facelets;

    closed spec fn view(&self) -> Facelets {
        let n = self.size as int;
        Seq::new(
            6,
            |f: int|
                Seq::new(
                    n as nat,
                    |r: int| Seq::new(n as nat, |c: int| self.cells@[cell_index(n, f, r, c)]),
                ),
        )
    }
}

impl Cube {
    /// The edge length.
    pub closed spec fn spec_size(&self) -> nat {
        self.size as nat
    }

    /// The cube holds `6·n²` facelets and `n` is at least two.
    pub closed spec fn wf(&self) -> bool {
        &&& self.size >= 2
        &&& self.cells@.len() == facelet_count(self.size as int)
    }

    /// A well-formed cube's facelets have six faces of `n` by `n`, with `n`
    /// at least two and fitting in a `usize`.
    pub proof fn lemma_view_shaped(&self)
        requires
            self.wf(),
        ensures
            shaped(self@, self.spec_size()),
            2 <= self.spec_size() <= usize::MAX,
    {
    }

    /// A solved cube of edge length `size`.
    pub fn new(size: usize) -> (r: Result<Cube, SizeError>)
        ensures
            size < 2 <==> r == Err::<Cube, SizeError>(SizeError::TooSmall),
            size >= 2 && facelet_count(size as int) > usize::MAX <==> r == Err::<Cube, SizeError>(
                SizeError::TooLarge,
            ),
            r is Ok <==> 2 <= size && facelet_count(size as int) <= usize::MAX,
            r is Ok ==> r->Ok_0.wf() && r->Ok_0.spec_size() == size && r->Ok_0@ == solved_facelets(
                size as nat,
            ),
    {
        if size < 2 {
            return Err(SizeError::TooSmall);
        }
        let area = match size.checked_mul(size) {
            Some(a) => a,
            None => {
                proof {
                    assert(facelet_count(size as int) > usize::MAX) by (nonlinear_arith)
                        requires
                            size * size > usize::MAX,
                    ;
                }
                return Err(SizeError::TooLarge);
            },
        };
        match area.checked_mul(6) {
            Some(_) => {},
            None => {
                return Err(SizeError::TooLarge);
            },
        }
        let n = size;
        let mut cells: Vec<Color> = Vec::new();
        let mut f: usize = 0;
        while f < 6
            invariant
                n >= 2,
                area == n * n,
                6 * area <= usize::MAX,
                f <= 6,
                cells@.len() == f * area,
                forall|q: int|
                    0 <= q < cells@.len() ==> #[trigger] cells@[q] == home_color(face_at(q / (area as int))),
            decreases 6 - f,
        {
            let face = Face::from_index(f);
            let color = Color::default_for_face(face);
            let mut j: usize = 0;
            assert((f + 1) * area <= 6 * area && f * area + area == (f + 1) * area) by (nonlinear_arith)
                requires
                    f < 6,
            ;
            while j < area
                invariant
                    n >= 2,
                    area == n * n,
                    f < 6,
                    (f + 1) * area <= 6 * area <= usize::MAX,
                    j <= area,
                    color == home_color(face_at(f as int)),
                    cells@.len() == f * area + j,
                    forall|q: int|
                        0 <= q < cells@.len() ==> #[trigger] cells@[q] == home_color(
                            face_at(q / (area as int)),
                        ),
                decreases area - j,
            {
                proof {
                    lemma_fundamental_div_mod_converse((f * area + j) as int, area as int, f as int, j as int);
                }
                cells.push(color);
                j += 1;
            }
            f += 1;
        }
        let cube = Cube { size, cells };
        proof {
            assert forall|f: int, r: int, c: int|
                0 <= f < 6 && 0 <= r < n && 0 <= c < n implies #[trigger] cube@[f][r][c] == solved_facelets(
                size as nat,
            )[f][r][c] by {
                lemma_cell_index(n as int, f, r, c);
            }
            assert(cube@ =~~= solved_facelets(size as nat));
        }
        Ok(cube)
    }

    /// The edge length.
    pub fn size(&self) -> (n: usize)
        ensures
            n == self.spec_size(),
    {
        self.size
    }

    /// Whether every face shows a single colour.
    pub fn is_solved(&self) -> (r: bool)
        requires
            self.wf(),
        ensures
            r == is_monochrome(self@, self.spec_size() as int),
    {
        let n = self.size;
        let total = self.cells.len();
        proof {
            assert(n * n <= total && n * n >= 4) by (nonlinear_arith)
                requires
                    n >= 2,
                    6 * (n * n) == total,
            ;
        }
        let area = n * n;
        let mut f: usize = 0;
        while f < 6
            invariant
                self.wf(),
                n == self.size,
                area == n * n,
                6 * area == self.cells@.len(),
                6 * area <= usize::MAX,
                f <= 6,
                forall|g: int, r: int, c: int|
                    0 <= g < f && 0 <= r < n && 0 <= c < n ==> #[trigger] self@[g][r][c]
                        == self@[g][0][0],
            decreases 6 - f,
        {
            let mid = n / 2;
            proof {
                lemma_cell_index(n as int, f as int, mid as int, mid as int);
                assert((f + 1) * area <= 6 * area && f * area + area == (f + 1) * area) by (nonlinear_arith)
                    requires
                        f < 6,
                ;
            }
            let reference = self.cells[f * area + (mid * n + mid)];
            let mut j: usize = 0;
            while j < area
                invariant
                    self.wf(),
                    n == self.size,
                    area == n * n,
                    6 * area == self.cells@.len(),
                    6 * area <= usize::MAX,
                    f < 6,
                    (f + 1) * area <= 6 * area,
                    f * area + area == (f + 1) * area,
                    j <= area,
                    reference == self@[f as int][mid as int][mid as int],
                    mid < n,
                    forall|q: int| 0 <= q < j ==> #[trigger] self.cells@[f * area + q] == reference,
                decreases area - j,
            {
                if self.cells[f * area + j] != reference {
                    proof {
                        lemma_cell_of(n as int, (f * area + j) as int);
                        lemma_fundamental_div_mod_converse((f * area + j) as int, area as int, f as int, j as int);
                        let p = cell_of(n as int, (f * area + j) as int);
                        lemma_cell_index(n as int, f as int, mid as int, mid as int);
                        assert(self@[f as int][p.1][p.2] != self@[f as int][mid as int][mid as int]);
                        if is_monochrome(self@, n as int) {
                            assert(self@[f as int][p.1][p.2] == self@[f as int][0][0]);
                            assert(self@[f as int][mid as int][mid as int] == self@[f as int][0][0]);
                        }
                    }
                    return false;
                }
                j += 1;
            }
            proof {
                assert forall|r: int, c: int| 0 <= r < n && 0 <= c < n implies #[trigger] self@[f as int][r][c]
                    == self@[f as int][0][0] by {
                    lemma_cell_index(n as int, f as int, r, c);
                    lemma_cell_index(n as int, f as int, 0, 0);
                    assert(self.cells@[f * area + (r * n + c)] == reference);
                    assert(self.cells@[f * area + (0 * n + 0)] == reference);
                }
            }
            f += 1;
        }
        true
    }

    /// Makes turn `t` once.
    fn quarter_turn(&mut self, t: Turn)
        requires
            old(self).wf(),
            1 <= t.width <= old(self).spec_size(),
        ensures
            final(self).wf(),
            final(self).spec_size() == old(self).spec_size(),
            final(self)@ == quarter_facelets(old(self)@, old(self).spec_size(), t),
    {
        let n = self.size;
        let total = self.cells.len();
        proof {
            assert(n * n <= total) by (nonlinear_arith)
                requires
                    n >= 2,
                    6 * (n * n) == total,
            ;
        }
        let area = n * n;
        proof {
            assert(total == 6 * area && area >= 1) by (nonlinear_arith)
                requires
                    area == n * n,
                    n >= 2,
                    6 * (n * n) == total,
            ;
        }
        let mut out: Vec<Color> = Vec::new();
        let mut p: usize = 0;
        while p < total
            invariant
                self.wf(),
                n == self.size,
                area == n * n,
                total == self.cells@.len(),
                total == 6 * (n * n),
                1 <= t.width <= n,
                p <= total,
                out@.len() == p,
                forall|q: int|
                    0 <= q < p ==> {
                        let x = cell_of(n as int, q);
                        let s = quarter_source(t, n as int, x.0, x.1, x.2);
                        #[trigger] out@[q] == self.cells@[cell_index(n as int, s.0, s.1, s.2)]
                    },
            decreases total - p,
        {
            proof {
                lemma_cell_of(n as int, p as int);
            }
            let f = p / area;
            let rem = p % area;
            let r = rem / n;
            let c = rem % n;
            let (sf, sr, sc) = source_of(t, n, f, r, c);
            proof {
                lemma_source_in_cube(t, n as int, f as int, r as int, c as int);
                lemma_cell_index(n as int, sf as int, sr as int, sc as int);
                assert(sf * n + sr <= 6 * (n * n)) by (nonlinear_arith)
                    requires
                        sf < 6,
                        sr < n,
                ;
            }
            let v = self.cells[(sf * n + sr) * n + sc];
            out.push(v);
            p += 1;
        }
        let ghost before = self@;
        self.cells = out;
        proof {
            assert forall|f: int, r: int, c: int|
                0 <= f < 6 && 0 <= r < n && 0 <= c < n implies #[trigger] self@[f][r][c]
                == quarter_facelets(before, n as nat, t)[f][r][c] by {
                lemma_cell_index(n as int, f, r, c);
                lemma_source_in_cube(t, n as int, f, r, c);
            }
            assert(self@ =~~= quarter_facelets(before, n as nat, t));
        }
    }

    /// Applies move `m`: its quarter turn, `k mod 4` times.
    pub fn apply_move(&mut self, m: &Move)
        requires
            old(self).wf(),
        ensures
            final(self).wf(),
            final(self).spec_size() == old(self).spec_size(),
            final(self)@ == move_facelets(old(self)@, old(self).spec_size(), *m),
    {
        let n = self.size;
        let t = m.turn(n);
        let q = m.count() % 4;
        let ghost start = self@;
        let mut i: usize = 0;
        while i < q
            invariant
                self.wf(),
                self.size == n,
                t == move_turn(*m, n),
                1 <= t.width <= n,
                q == move_count(*m) % 4,
                i <= q,
                self@ == turned(start, n as nat, t, i as nat),
            decreases q - i,
        {
            self.quarter_turn(t);
            i += 1;
        }
    }

    /// Applies the moves of `moves` in order.
    pub fn apply_moves(&mut self, moves: &[Move])
        requires
            old(self).wf(),
        ensures
            final(self).wf(),
            final(self).spec_size() == old(self).spec_size(),
            final(self)@ == apply_moves(old(self)@, old(self).spec_size(), moves@),
    {
        let ghost start = self@;
        let len = moves.len();
        let mut i: usize = 0;
        while i < len
            invariant
                self.wf(),
                self.spec_size() == old(self).spec_size(),
                start == old(self)@,
                len == moves@.len(),
                i <= len,
                self@ == apply_moves(start, self.spec_size(), moves@.subrange(0, i as int)),
            decreases len - i,
        {
            self.apply_move(&moves[i]);
            proof {
                let next = moves@.subrange(0, i + 1);
                assert(next.drop_last() =~= moves@.subrange(0, i as int));
            }
            i += 1;
        }
        assert(moves@.subrange(0, len as int) =~= moves@);
    }

    /// An independent copy with the same size and facelets.
    pub fn duplicate(&self) -> (c: Cube)
        requires
            self.wf(),
        ensures
            c.wf(),
            c.spec_size() == self.spec_size(),
            c@ == self@,
    {
        let mut cells: Vec<Color> = Vec::new();
        let len = self.cells.len();
        let mut i: usize = 0;
        while i < len
            invariant
                len == self.cells@.len(),
                i <= len,
                cells@ == self.cells@.subrange(0, i as int),
            decreases len - i,
        {
            cells.push(self.cells[i]);
            i += 1;
            assert(cells@ =~= self.cells@.subrange(0, i as int));
        }
        assert(cells@ =~= self.cells@);
        Cube { size: self.size, cells }
    }

    /// Whether `moves`, made on a copy of this cube, leave it solved. The
    /// cube itself is left as it is.
    pub fn verify_solution(&self, moves: &[Move]) -> (r: bool)
        requires
            self.wf(),
        ensures
            r == is_monochrome(
                apply_moves(self@, self.spec_size(), moves@),
                self.spec_size() as int,
            ),
    {
        let mut cube = self.duplicate();
        cube.apply_moves(moves);
        cube.is_solved()
    }

    /// Zero for a solved cube, one for any other: a lower bound on the
    /// number of moves still needed.
    pub fn solve_distance(&self) -> (d: usize)
        requires
            self.wf(),
        ensures
            d == (if is_monochrome(self@, self.spec_size() as int) {
                0usize
            } else {
                1usize
            }),
    {
        if self.is_solved() {
            0
        } else {
            1
        }
    }

    /// The canonical encoding: the size as eight little-endian bytes, then
    /// each face in the order Up, Down, Left, Right, Front, Back as its index
    /// byte followed by its colour bytes row by row.
    pub fn canonical_serialize(&self) -> (b: Vec<u8>)
        requires
            self.wf(),
        ensures
            b@ == canonical_bytes(self.spec_size(), self@),
    {
        let n = self.size;
        let total = self.cells.len();
        proof {
            assert(n * n <= total) by (nonlinear_arith)
                requires
                    n >= 2,
                    6 * (n * n) == total,
            ;
        }
        let area = n * n;
        let mut out = u64_le_bytes(n as u64);
        let ghost head = out@;
        let mut f: usize = 0;
        while f < 6
            invariant
                self.wf(),
                n == self.size,
                area == n * n,
                6 * area == self.cells@.len(),
                6 * area <= usize::MAX,
                f <= 6,
                out@ == head + faces_bytes(self@, n as nat, f as nat),
            decreases 6 - f,
        {
            let ghost before = out@;
            out.push(f as u8);
            proof {
                assert((f + 1) * area <= 6 * area && f * area + area == (f + 1) * area) by (nonlinear_arith)
                    requires
                        f < 6,
                ;
            }
            let mut j: usize = 0;
            while j < area
                invariant
                    self.wf(),
                    n == self.size,
                    area == n * n,
                    6 * area == self.cells@.len(),
                    6 * area <= usize::MAX,
                    f < 6,
                    (f + 1) * area <= 6 * area,
                    f * area + area == (f + 1) * area,
                    j <= area,
                    out@ == before + seq![f as u8] + face_bytes(self@[f as int], n as nat).subrange(0, j as int),
                decreases area - j,
            {
                let p = f * area + j;
                proof {
                    lemma_fundamental_div_mod_converse(p as int, area as int, f as int, j as int);
                    lemma_cell_of(n as int, p as int);
                    let x = cell_of(n as int, p as int);
                    assert(x.0 == f && x.1 == j as int / n as int && x.2 == j as int % n as int);
                    assert(face_bytes(self@[f as int], n as nat)[j as int] == color_byte(self.cells@[p as int]));
                }
                let ghost mid = out@;
                out.push(self.cells[p].to_byte());
                proof {
                    assert(out@ =~= before + seq![f as u8] + face_bytes(self@[f as int], n as nat).subrange(0, j + 1));
                }
                j += 1;
            }
            proof {
                assert(face_bytes(self@[f as int], n as nat).subrange(0, area as int) =~= face_bytes(self@[f as int], n as nat));
                assert(faces_bytes(self@, n as nat, (f + 1) as nat) == faces_bytes(self@, n as nat, f as nat) + seq![f as u8] + face_bytes(self@[f as int], n as nat));
                assert(out@ =~= head + faces_bytes(self@, n as nat, (f + 1) as nat));
            }
            f += 1;
        }
        out
    }

    /// Whether the big-endian four-byte prefix of the Keccak-256 digest of
    /// the canonical encoding is at most `target`. Solved or not, any state
    /// can be checked.
    pub fn meets_difficulty(&self, target: u32) -> (r: bool)
        requires
            self.wf(),
        ensures
            r == (prefix_value(keccak256_of(canonical_bytes(self.spec_size(), self@))) <= target as nat),
            target == 0 ==> (r <==> prefix_value(keccak256_of(canonical_bytes(self.spec_size(), self@)))
                == 0),
            target == u32::MAX ==> r,
    {
        let bytes = self.canonical_serialize();
        let digest = keccak256(bytes.as_slice());
        digest_meets_target(&digest, target)
    }
}

} // verus!
