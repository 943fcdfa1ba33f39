//! Laws of the engine, stated over the facelet model and proved.
use vstd::prelude::*;

use crate::cube::{is_monochrome, quarter_facelets, shaped, solved_facelets, turned, Facelets};
use crate::encoding::canonical_bytes;
use crate::facelets::{face_at, face_index, home_color, lemma_home_color_injective};
use crate::geometry::{
    in_cube, lemma_four_quarters, lemma_source_in_cube, lemma_source_off_strips, lemma_strip_faces,
    lemma_strip_inverse, lemma_strip_step, quarter_source, strip, strip_point, Turn,
};
use crate::moves::{
    apply_moves, inverse_move, inverse_sequence, is_rotation, move_count, move_facelets, move_turn,
    Move,
};
use crate::scramble::{lemma_scramble_run_unique, scramble_generator, scramble_run};

verus! {

proof fn lemma_quarter_shaped(v: Facelets, n: nat, t: Turn)
    ensures
        shaped(quarter_facelets(v, n, t), n),
{
}

proof fn lemma_turned_shaped(v: Facelets, n: nat, t: Turn, k: nat)
    requires
        shaped(v, n),
    ensures
        shaped(turned(v, n, t, k), n),
    decreases k,
{
    if k > 0 {
        lemma_turned_shaped(v, n, t, (k - 1) as nat);
        lemma_quarter_shaped(turned(v, n, t, (k - 1) as nat), n, t);
    }
}

/// Making a turn `a` times and then `b` times is making it `a + b` times.
pub proof fn lemma_turned_add(v: Facelets, n: nat, t: Turn, a: nat, b: nat)
    ensures
        turned(turned(v, n, t, a), n, t, b) == turned(v, n, t, a + b),
    decreases b,
{
    if b > 0 {
        lemma_turned_add(v, n, t, a, (b - 1) as nat);
        assert((a + b - 1) as nat == a + (b - 1) as nat);
    }
}

/// Four quarter turns of the same layers restore every facelet.
pub proof fn lemma_turned_four(v: Facelets, n: nat, t: Turn)
    requires
        shaped(v, n),
        n >= 1,
        1 <= t.width <= n,
    ensures
        turned(v, n, t, 4) == v,
{
    let w1 = turned(v, n, t, 1);
    let w2 = turned(v, n, t, 2);
    let w3 = turned(v, n, t, 3);
    let w4 = turned(v, n, t, 4);
    assert(turned(v, n, t, 0) == v);
    assert(w1 == quarter_facelets(v, n, t));
    assert(w2 == quarter_facelets(w1, n, t));
    assert(w3 == quarter_facelets(w2, n, t));
    assert(w4 == quarter_facelets(w3, n, t));
    assert forall|f: int, r: int, c: int| 0 <= f < 6 && 0 <= r < n && 0 <= c < n implies #[trigger] w4[f][r][c]
        == v[f][r][c] by {
        let p0 = (f, r, c);
        let p1 = quarter_source(t, n as int, f, r, c);
        lemma_source_in_cube(t, n as int, f, r, c);
        let p2 = quarter_source(t, n as int, p1.0, p1.1, p1.2);
        lemma_source_in_cube(t, n as int, p1.0, p1.1, p1.2);
        let p3 = quarter_source(t, n as int, p2.0, p2.1, p2.2);
        lemma_source_in_cube(t, n as int, p2.0, p2.1, p2.2);
        let p4 = quarter_source(t, n as int, p3.0, p3.1, p3.2);
        lemma_four_quarters(t, n as int, p0);
        assert(p4 == p0);
        assert(w4[f][r][c] == w3[p1.0][p1.1][p1.2]);
        assert(w3[p1.0][p1.1][p1.2] == w2[p2.0][p2.1][p2.2]);
        assert(w2[p2.0][p2.1][p2.2] == w1[p3.0][p3.1][p3.2]);
        assert(w1[p3.0][p3.1][p3.2] == v[p4.0][p4.1][p4.2]);
    }
    lemma_turned_shaped(v, n, t, 4);
    assert(w4 =~~= v);
}

/// A move followed by its inverse (same layers, `(4 - k) mod 4` quarter
/// turns) restores every facelet, whatever the multiplicity `k`.
pub proof fn lemma_move_inverse(v: Facelets, n: nat, m: Move)
    requires
        shaped(v, n),
        2 <= n <= usize::MAX,
    ensures
        move_facelets(move_facelets(v, n, m), n, inverse_move(m)) == v,
        canonical_bytes(n, move_facelets(move_facelets(v, n, m), n, inverse_move(m))) == canonical_bytes(n, v),
{
    let t = move_turn(m, n as usize);
    let a = (move_count(m) % 4) as nat;
    let b = (move_count(inverse_move(m)) % 4) as nat;
    assert(move_turn(inverse_move(m), n as usize) == t);
    lemma_turned_add(v, n, t, a, b);
    if a == 0 {
        assert(b == 0);
    } else {
        assert(a + b == 4);
        lemma_turned_four(v, n, t);
    }
}

/// A new cube of any size is solved: every face shows one colour.
pub proof fn lemma_new_is_solved(n: nat)
    ensures
        is_monochrome(solved_facelets(n), n as int),
{
}

proof fn lemma_apply_moves_shaped(v: Facelets, n: nat, ms: Seq<Move>)
    requires
        shaped(v, n),
    ensures
        shaped(apply_moves(v, n, ms), n),
    decreases ms.len(),
{
    if ms.len() > 0 {
        lemma_apply_moves_shaped(v, n, ms.drop_last());
        let m = ms.last();
        lemma_turned_shaped(apply_moves(v, n, ms.drop_last()), n, move_turn(m, n as usize), (move_count(m) % 4) as nat);
    }
}

/// Making the moves of `a` and then those of `b` is making the moves of `a + b`.
pub proof fn lemma_apply_moves_append(v: Facelets, n: nat, a: Seq<Move>, b: Seq<Move>)
    ensures
        apply_moves(apply_moves(v, n, a), n, b) == apply_moves(v, n, a + b),
    decreases b.len(),
{
    if b.len() == 0 {
        assert(a + b =~= a);
    } else {
        lemma_apply_moves_append(v, n, a, b.drop_last());
        assert((a + b).drop_last() =~= a + b.drop_last());
        assert((a + b).last() == b.last());
    }
}

/// The moves of `ms` followed by the inverse sequence (reversed, each move
/// inverted) restore every facelet.
pub proof fn lemma_inverse_sequence_restores(v: Facelets, n: nat, ms: Seq<Move>)
    requires
        shaped(v, n),
        2 <= n <= usize::MAX,
    ensures
        apply_moves(apply_moves(v, n, ms), n, inverse_sequence(ms)) == v,
    decreases ms.len(),
{
    if ms.len() == 0 {
        assert(inverse_sequence(ms) =~= Seq::<Move>::empty());
    } else {
        let p = ms.drop_last();
        let m = ms.last();
        let w = apply_moves(v, n, p);
        lemma_inverse_sequence_restores(v, n, p);
        lemma_apply_moves_shaped(v, n, p);
        assert(inverse_sequence(ms) =~= seq![inverse_move(m)] + inverse_sequence(p));
        lemma_apply_moves_append(apply_moves(v, n, ms), n, seq![inverse_move(m)], inverse_sequence(p));
        let single = seq![inverse_move(m)];
        assert(single.drop_last() =~= Seq::<Move>::empty());
        assert(single.last() == inverse_move(m));
        assert(apply_moves(v, n, ms) == move_facelets(w, n, m));
        assert(apply_moves(apply_moves(v, n, ms), n, single.drop_last()) == apply_moves(v, n, ms));
        assert(apply_moves(apply_moves(v, n, ms), n, seq![inverse_move(m)]) == move_facelets(
            move_facelets(w, n, m),
            n,
            inverse_move(m),
        ));
        lemma_move_inverse(w, n, m);
    }
}

/// Any sequence of moves made on a new cube is undone by its inverse
/// sequence: the cube it leaves accepts that sequence as a solution.
pub proof fn lemma_inverse_solves(n: nat, ms: Seq<Move>)
    requires
        2 <= n <= usize::MAX,
    ensures
        is_monochrome(apply_moves(apply_moves(solved_facelets(n), n, ms), n, inverse_sequence(ms)), n as int),
{
    lemma_inverse_sequence_restores(solved_facelets(n), n, ms);
}

/// Two scrambles for the same nonce and header draw the same moves; made on
/// cubes in the same state they leave the same facelets and the same
/// canonical encoding.
pub proof fn lemma_scramble_deterministic(
    n: nat,
    v: Facelets,
    nonce: u64,
    header: Seq<u8>,
    ms1: Seq<Move>,
    ms2: Seq<Move>,
)
    requires
        scramble_run(scramble_generator(nonce, header), ms1),
        scramble_run(scramble_generator(nonce, header), ms2),
    ensures
        ms1 == ms2,
        apply_moves(v, n, ms1) == apply_moves(v, n, ms2),
        canonical_bytes(n, apply_moves(v, n, ms1)) == canonical_bytes(n, apply_moves(v, n, ms2)),
{
    lemma_scramble_run_unique(scramble_generator(nonce, header), ms1, ms2);
}

/// A cube checked against no moves at all is judged as it stands.
pub proof fn lemma_empty_solution(v: Facelets, n: nat)
    ensures
        is_monochrome(apply_moves(v, n, Seq::<Move>::empty()), n as int) == is_monochrome(v, n as int),
{
}

/// Where the colour of facelet `p` comes from after `k` quarter turns.
pub open spec fn source_iter(t: Turn, n: int, p: (int, int, int), k: nat) -> (int, int, int)
    decreases k,
{
    if k == 0 {
        p
    } else {
        source_iter(t, n, quarter_source(t, n, p.0, p.1, p.2), (k - 1) as nat)
    }
}

/// After `k` quarter turns each facelet shows the colour of its `k`-th source.
pub proof fn lemma_turned_at(v: Facelets, n: nat, t: Turn, k: nat, p: (int, int, int))
    requires
        n >= 1,
        1 <= t.width <= n,
        in_cube(n as int, p),
    ensures
        in_cube(n as int, source_iter(t, n as int, p, k)),
        ({
            let s = source_iter(t, n as int, p, k);
            turned(v, n, t, k)[p.0][p.1][p.2] == v[s.0][s.1][s.2]
        }),
    decreases k,
{
    if k > 0 {
        let q = quarter_source(t, n as int, p.0, p.1, p.2);
        lemma_source_in_cube(t, n as int, p.0, p.1, p.2);
        lemma_turned_at(v, n, t, (k - 1) as nat, q);
    }
}

proof fn lemma_strip_iter(t: Turn, n: int, k: int, d: int, i: int, q: nat)
    requires
        0 <= k,
        0 <= d < t.width,
        t.width <= n,
        0 <= i < n,
    ensures
        source_iter(t, n, strip_point(t, n, k, d, i), q) == strip_point(t, n, k + q, d, i),
    decreases q,
{
    if q > 0 {
        lemma_strip_step(t, n, k, d, i);
        lemma_strip_iter(t, n, k + 1, d, i, (q - 1) as nat);
        assert(k + 1 + (q - 1) == k + q);
    }
}

proof fn lemma_fixed_iter(t: Turn, n: int, p: (int, int, int), q: nat)
    requires
        quarter_source(t, n, p.0, p.1, p.2) == p,
    ensures
        source_iter(t, n, p, q) == p,
    decreases q,
{
    if q > 0 {
        lemma_fixed_iter(t, n, p, (q - 1) as nat);
    }
}

/// One face turn or wide turn, of one to three quarter turns, leaves a new
/// cube unsolved. (A whole-cube rotation carries each face's colours to
/// another whole face, so it is left out.)
pub proof fn lemma_single_move_unsolves(n: nat, m: Move)
    requires
        2 <= n <= usize::MAX,
        !is_rotation(m),
        move_count(m) % 4 != 0,
    ensures
        !is_monochrome(move_facelets(solved_facelets(n), n, m), n as int),
{
    let t = move_turn(m, n as usize);
    let q = (move_count(m) % 4) as nat;
    let ni = n as int;
    assert(1 <= t.width < n);
    let s0 = strip(t.axis, 0);
    let a = strip_point(t, ni, 0, 0, 0);
    let b = strip_point(t, ni, 0, ni - 1, 0);
    lemma_strip_inverse(s0, ni, 0, 0, 0, 0);
    lemma_strip_inverse(s0, ni, ni - 1, 0, 0, 0);
    lemma_strip_faces(t.axis, 0);
    lemma_strip_faces(t.axis, q as int);
    assert(face_at(face_index(s0.face)) == s0.face);
    assert(in_cube(ni, a) && in_cube(ni, b) && a.0 == b.0);
    lemma_strip_iter(t, ni, 0, 0, 0, q);
    lemma_source_off_strips(t, ni, b.0, b.1, b.2);
    lemma_fixed_iter(t, ni, b, q);
    let v = solved_facelets(n);
    let w = move_facelets(v, n, m);
    lemma_turned_at(v, n, t, q, a);
    lemma_turned_at(v, n, t, q, b);
    let sq = strip(t.axis, q as int);
    assert(face_at(face_index(sq.face)) == sq.face);
    assert(w[a.0][a.1][a.2] == home_color(sq.face));
    assert(w[b.0][b.1][b.2] == home_color(s0.face));
    lemma_home_color_injective(sq.face, s0.face);
    if is_monochrome(w, ni) {
        assert(w[a.0][a.1][a.2] == w[a.0][0][0]);
        assert(w[b.0][b.1][b.2] == w[b.0][0][0]);
    }
}

} // verus!
