//! Deterministic scrambles: a move sequence drawn from a seeded generator
//! and applied to the cube as it is drawn.
//!
//! A scramble first draws its length from `20 ..= 30`. Each step then draws
//! a face from the six, drawing again while it equals the previous step's
//! face, and draws a multiplicity from `1 ..= 3`.
use vstd::prelude::*;

use rand::rngs::StdRng;

use crate::cube::Cube;
use crate::digest::{sha3_256, sha3_256_of};
use crate::encoding::{le_bytes, u64_le_bytes};
use crate::facelets::{face_at, face_index, Face};
use crate::generator::{
    draw, generator_from_seed, generator_from_state, generator_from_u64, seeded_generator,
    uniform_draw,
};
use crate::moves::{apply_moves, face_move, move_count, move_face, move_facelets, Move};

verus! {

/// How many times a face may be drawn again before the step gives up
/// drawing and takes the face after the previous one in the face order.
pub const FACE_DRAW_LIMIT: u64 = 0xffff_ffff_ffff_ffff;

/// The state of `g` after `k` face draws.
pub open spec fn after_face_draws(g: StdRng, k: nat) -> StdRng
    decreases k,
{
    if k == 0 {
        g
    } else {
        uniform_draw(after_face_draws(g, (k - 1) as nat), 0, 6).1
    }
}

/// The face that draw number `k` (from 0) of `g` gives.
pub open spec fn drawn_face(g: StdRng, k: nat) -> Face {
    face_at(uniform_draw(after_face_draws(g, k), 0, 6).0 as int)
}

/// The face after `f` in the fixed face order, wrapping round.
pub open spec fn face_after(f: Face) -> Face {
    face_at((face_index(f) + 1) % 6)
}

/// Whether a step may take face `f` after `last`.
pub open spec fn allowed(last: Option<Face>, f: Face) -> bool {
    last != Some(f)
}

/// The first `k` face draws of `g` all repeat `last`.
pub open spec fn all_repeat(g: StdRng, last: Option<Face>, k: nat) -> bool {
    forall|j: nat| j < k ==> !allowed(last, #[trigger] drawn_face(g, j))
}

/// Face draw number `k` of `g` is the first that does not repeat `last`.
pub open spec fn first_allowed(g: StdRng, last: Option<Face>, k: nat) -> bool {
    k < FACE_DRAW_LIMIT && all_repeat(g, last, k) && allowed(last, drawn_face(g, k))
}

/// Starting from `g` after a step that turned `last`, the step's face draws
/// give face `f` and leave the generator at `g2`: the first draw that does
/// not repeat `last`, or, should `FACE_DRAW_LIMIT` draws all repeat it, the
/// face after `last`.
pub open spec fn picks_face(g: StdRng, last: Option<Face>, f: Face, g2: StdRng) -> bool {
    ||| exists|k: nat|
        #[trigger] first_allowed(g, last, k) && f == drawn_face(g, k) && g2 == after_face_draws(g, k + 1)
    ||| all_repeat(g, last, FACE_DRAW_LIMIT as nat) && last is Some && f == face_after(last->Some_0)
        && g2 == after_face_draws(g, FACE_DRAW_LIMIT as nat)
}

/// The face turned by the move before move `i` of `ms`, if any.
pub open spec fn face_before(ms: Seq<Move>, i: int) -> Option<Face> {
    if i == 0 {
        None
    } else {
        Some(move_face(ms[i - 1]))
    }
}

/// `gs` are the generator states between the steps of a scramble that
/// drew the moves `ms`: step `i` starts at `gs[i]` and ends at `gs[i + 1]`.
pub open spec fn step_trace(ms: Seq<Move>, gs: Seq<StdRng>) -> bool {
    &&& gs.len() == ms.len() + 1
    &&& forall|i: int|
        0 <= i < ms.len() ==> #[trigger] step_draws(gs[i], face_before(ms, i), ms[i], gs[i + 1])
}

/// Generator `g` draws the scramble `ms`: its length, then its steps.
pub open spec fn scramble_run(g: StdRng, ms: Seq<Move>) -> bool {
    let first = uniform_draw(g, 20, 31);
    &&& ms.len() == first.0
    &&& exists|gs: Seq<StdRng>| #[trigger] step_trace(ms, gs) && gs[0] == first.1
}

/// The generator a scramble for `nonce` and `header` is drawn from: seeded
/// with the SHA3-256 digest of the nonce's eight little-endian bytes
/// followed by the header.
pub open spec fn scramble_generator(nonce: u64, header: Seq<u8>) -> StdRng {
    seeded_generator(sha3_256_of(le_bytes(nonce as nat, 8) + header))
}

/// At most one face draw is the first that does not repeat `last`.
proof fn lemma_first_allowed_unique(g: StdRng, last: Option<Face>, k1: nat, k2: nat)
    requires
        first_allowed(g, last, k1),
        first_allowed(g, last, k2),
    ensures
        k1 == k2,
{
    if k1 < k2 {
        assert(!allowed(last, drawn_face(g, k1)));
    } else if k2 < k1 {
        assert(!allowed(last, drawn_face(g, k2)));
    }
}

/// The face draws of a step give one face and one next state.
pub proof fn lemma_picks_face_unique(g: StdRng, last: Option<Face>, f1: Face, g1: StdRng, f2: Face, g2: StdRng)
    requires
        picks_face(g, last, f1, g1),
        picks_face(g, last, f2, g2),
    ensures
        f1 == f2,
        g1 == g2,
{
    let a1 = exists|k: nat|
        #[trigger] first_allowed(g, last, k) && f1 == drawn_face(g, k) && g1 == after_face_draws(g, k + 1);
    let a2 = exists|k: nat|
        #[trigger] first_allowed(g, last, k) && f2 == drawn_face(g, k) && g2 == after_face_draws(g, k + 1);
    if a1 {
        let k1 = choose|k: nat|
            #[trigger] first_allowed(g, last, k) && f1 == drawn_face(g, k) && g1 == after_face_draws(g, k + 1);
        if a2 {
            let k2 = choose|k: nat|
                #[trigger] first_allowed(g, last, k) && f2 == drawn_face(g, k) && g2 == after_face_draws(g, k + 1);
            lemma_first_allowed_unique(g, last, k1, k2);
        } else {
            assert(!allowed(last, drawn_face(g, k1)));
        }
    } else if a2 {
        let k2 = choose|k: nat|
            #[trigger] first_allowed(g, last, k) && f2 == drawn_face(g, k) && g2 == after_face_draws(g, k + 1);
        assert(!allowed(last, drawn_face(g, k2)));
    }
}

/// One step of a scramble draws one move and leaves one next state.
pub proof fn lemma_step_unique(g: StdRng, last: Option<Face>, m1: Move, e1: StdRng, m2: Move, e2: StdRng)
    requires
        step_draws(g, last, m1, e1),
        step_draws(g, last, m2, e2),
    ensures
        m1 == m2,
        e1 == e2,
{
    let w1 = choose|f: Face, g_face: StdRng|
        #![trigger picks_face(g, last, f, g_face)]
        picks_face(g, last, f, g_face) && m1 == face_move(f, uniform_draw(g_face, 1, 4).0 as usize)
            && e1 == uniform_draw(g_face, 1, 4).1;
    let w2 = choose|f: Face, g_face: StdRng|
        #![trigger picks_face(g, last, f, g_face)]
        picks_face(g, last, f, g_face) && m2 == face_move(f, uniform_draw(g_face, 1, 4).0 as usize)
            && e2 == uniform_draw(g_face, 1, 4).1;
    lemma_picks_face_unique(g, last, w1.0, w1.1, w2.0, w2.1);
}

/// Two traces from the same state agree on their first `i` steps.
proof fn lemma_trace_prefix(ms1: Seq<Move>, gs1: Seq<StdRng>, ms2: Seq<Move>, gs2: Seq<StdRng>, i: int)
    requires
        step_trace(ms1, gs1),
        step_trace(ms2, gs2),
        gs1[0] == gs2[0],
        ms1.len() == ms2.len(),
        0 <= i <= ms1.len(),
    ensures
        gs1[i] == gs2[i],
        forall|j: int| 0 <= j < i ==> ms1[j] == ms2[j] && gs1[j] == gs2[j],
    decreases i,
{
    if i > 0 {
        let p = i - 1;
        lemma_trace_prefix(ms1, gs1, ms2, gs2, p);
        assert(face_before(ms1, p) == face_before(ms2, p)) by {
            if p > 0 {
                assert(ms1[p - 1] == ms2[p - 1]);
            }
        }
        assert(step_draws(gs1[p], face_before(ms1, p), ms1[p], gs1[p + 1]));
        assert(step_draws(gs2[p], face_before(ms2, p), ms2[p], gs2[p + 1]));
        lemma_step_unique(gs1[p], face_before(ms1, p), ms1[p], gs1[p + 1], ms2[p], gs2[p + 1]);
    }
}

/// Two traces of equally many steps from the same state draw the same moves.
pub proof fn lemma_trace_unique(ms1: Seq<Move>, gs1: Seq<StdRng>, ms2: Seq<Move>, gs2: Seq<StdRng>)
    requires
        step_trace(ms1, gs1),
        step_trace(ms2, gs2),
        gs1[0] == gs2[0],
        ms1.len() == ms2.len(),
    ensures
        ms1 == ms2,
        gs1 == gs2,
{
    lemma_trace_prefix(ms1, gs1, ms2, gs2, ms1.len() as int);
    assert(ms1 =~= ms2);
    assert(gs1 =~= gs2);
}

/// A generator draws at most one scramble.
pub proof fn lemma_scramble_run_unique(g: StdRng, ms1: Seq<Move>, ms2: Seq<Move>)
    requires
        scramble_run(g, ms1),
        scramble_run(g, ms2),
    ensures
        ms1 == ms2,
{
    let first = uniform_draw(g, 20, 31);
    let gs1 = choose|gs: Seq<StdRng>| #[trigger] step_trace(ms1, gs) && gs[0] == first.1;
    let gs2 = choose|gs: Seq<StdRng>| #[trigger] step_trace(ms2, gs) && gs[0] == first.1;
    lemma_trace_unique(ms1, gs1, ms2, gs2);
}

/// Draws one step's face: again and again while it equals `last`.
fn next_face(g: &mut StdRng, last: Option<Face>) -> (f: Face)
    ensures
        picks_face(*old(g), last, f, *final(g)),
        allowed(last, f),
{
    let ghost start = *g;
    let mut tries: u64 = 0;
    loop
        invariant
            start == *old(g),
            tries < FACE_DRAW_LIMIT,
            *g == after_face_draws(start, tries as nat),
            all_repeat(start, last, tries as nat),
        decreases FACE_DRAW_LIMIT - tries,
    {
        let ghost before = *g;
        let v = draw(g, 0, 6);
        proof {
            assert(*g == after_face_draws(start, (tries + 1) as nat));
        }
        let f = Face::from_index(v as usize);
        let fresh = match last {
            Some(l) => l != f,
            None => true,
        };
        if fresh {
            proof {
                assert(f == drawn_face(start, tries as nat));
                assert(allowed(last, f));
                let k = tries as nat;
                assert(*g == after_face_draws(start, k + 1));
                assert(first_allowed(start, last, k));
                assert(picks_face(start, last, f, *g));
            }
            return f;
        }
        if tries == FACE_DRAW_LIMIT - 1 {
            let l = match last {
                Some(l) => l,
                None => f,
            };
            let next = Face::from_index((l.index() + 1) % 6);
            proof {
                assert(!allowed(last, drawn_face(start, tries as nat)));
                assert(all_repeat(start, last, FACE_DRAW_LIMIT as nat)) by {
                    assert forall|j: nat| j < FACE_DRAW_LIMIT implies !allowed(last, #[trigger] drawn_face(start, j)) by {
                        if j < tries {
                        } else {
                            assert(j == tries);
                        }
                    }
                }
                assert(*g == after_face_draws(start, FACE_DRAW_LIMIT as nat));
                assert(picks_face(start, last, next, *g));
            }
            return next;
        }
        tries = tries + 1;
    }
}

/// One step of a scramble: the face and multiplicity drawn by `g` after
/// a step that turned `last`, with the generator's state after them.
pub open spec fn step_draws(g: StdRng, last: Option<Face>, m: Move, g_end: StdRng) -> bool {
    exists|f: Face, g_face: StdRng|
        #![trigger picks_face(g, last, f, g_face)]
        picks_face(g, last, f, g_face) && m == face_move(f, uniform_draw(g_face, 1, 4).0 as usize)
            && g_end == uniform_draw(g_face, 1, 4).1
}

impl Cube {
    /// Draws one step of a scramble and applies it.
    fn scramble_step(&mut self, g: &mut StdRng, last: Option<Face>) -> (m: Move)
        requires
            old(self).wf(),
        ensures
            final(self).wf(),
            final(self).spec_size() == old(self).spec_size(),
            final(self)@ == move_facelets(old(self)@, old(self).spec_size(), m),
            step_draws(*old(g), last, m, *final(g)),
            allowed(last, move_face(m)),
            1 <= move_count(m) <= 3,
    {
        let f = next_face(g, last);
        let ghost g_face = *g;
        let k = draw(g, 1, 4);
        let m = Move::from_face_and_count(f, k as usize);
        self.apply_move(&m);
        m
    }

    /// Scrambles the cube with moves drawn from `g`, applying each as it is
    /// drawn, and returns them.
    pub fn scramble_with(&mut self, g: StdRng) -> (moves: Vec<Move>)
        requires
            old(self).wf(),
        ensures
            final(self).wf(),
            final(self).spec_size() == old(self).spec_size(),
            final(self)@ == apply_moves(old(self)@, old(self).spec_size(), moves@),
            scramble_run(g, moves@),
            20 <= moves@.len() <= 30,
            forall|i: int| 0 <= i < moves@.len() ==> 1 <= #[trigger] move_count(moves@[i]) <= 3,
            forall|i: int|
                0 < i < moves@.len() ==> #[trigger] move_face(moves@[i]) != move_face(moves@[i - 1]),
    {
        let ghost g0 = g;
        let mut g = g;
        let len = draw(&mut g, 20, 31);
        let ghost g1 = g;
        let mut moves: Vec<Move> = Vec::new();
        let mut last: Option<Face> = None;
        let ghost mut gs: Seq<StdRng> = seq![g];
        let mut i: u32 = 0;
        while i < len
            invariant
                self.wf(),
                self.spec_size() == old(self).spec_size(),
                self@ == apply_moves(old(self)@, old(self).spec_size(), moves@),
                (len, g1) == uniform_draw(g0, 20, 31),
                20 <= len < 31,
                i <= len,
                moves@.len() == i,
                last == face_before(moves@, moves@.len() as int),
                step_trace(moves@, gs),
                gs[0] == g1,
                gs.last() == g,
                forall|j: int| 0 <= j < moves@.len() ==> 1 <= #[trigger] move_count(moves@[j]) <= 3,
                forall|j: int|
                    0 < j < moves@.len() ==> #[trigger] move_face(moves@[j]) != move_face(moves@[j - 1]),
            decreases len - i,
        {
            let ghost g_mid = g;
            let ghost before = moves@;
            let m = self.scramble_step(&mut g, last);
            moves.push(m);
            proof {
                assert(moves@.drop_last() =~= before);
                let gs2 = gs.push(g);
                assert forall|j: int| 0 <= j < moves@.len() implies #[trigger] step_draws(
                    gs2[j],
                    face_before(moves@, j),
                    moves@[j],
                    gs2[j + 1],
                ) by {
                    if j < before.len() {
                        assert(moves@[j] == before[j]);
                        assert(face_before(moves@, j) == face_before(before, j));
                        assert(step_draws(gs[j], face_before(before, j), before[j], gs[j + 1]));
                    }
                }
                gs = gs2;
            }
            last = Some(m.face());
            i += 1;
        }
        moves
    }

    /// Scrambles the cube for a block: the moves are drawn from the
    /// generator seeded with the SHA3-256 digest of `nonce`'s eight
    /// little-endian bytes followed by `header`, and applied as they are
    /// drawn. The same size, nonce and header always give the same moves.
    pub fn scramble_deterministic(&mut self, nonce: u64, header: &[u8]) -> (moves: Vec<Move>)
        requires
            old(self).wf(),
        ensures
            final(self).wf(),
            final(self).spec_size() == old(self).spec_size(),
            final(self)@ == apply_moves(old(self)@, old(self).spec_size(), moves@),
            scramble_run(scramble_generator(nonce, header@), moves@),
            20 <= moves@.len() <= 30,
            forall|i: int| 0 <= i < moves@.len() ==> 1 <= #[trigger] move_count(moves@[i]) <= 3,
            forall|i: int|
                0 < i < moves@.len() ==> #[trigger] move_face(moves@[i]) != move_face(moves@[i - 1]),
    {
        let mut data = u64_le_bytes(nonce);
        let len = header.len();
        let mut i: usize = 0;
        while i < len
            invariant
                len == header@.len(),
                i <= len,
                data@ == le_bytes(nonce as nat, 8) + header@.subrange(0, i as int),
            decreases len - i,
        {
            data.push(header[i]);
            i += 1;
            assert(data@ =~= le_bytes(nonce as nat, 8) + header@.subrange(0, i as int));
        }
        assert(header@.subrange(0, len as int) =~= header@);
        let seed = sha3_256(data.as_slice());
        let g = generator_from_seed(seed);
        self.scramble_with(g)
    }

    /// Scrambles the cube with moves drawn from the generator seeded from
    /// `nonce` alone, applying them as they are drawn.
    pub fn scramble(&mut self, nonce: u64) -> (moves: Vec<Move>)
        requires
            old(self).wf(),
        ensures
            final(self).wf(),
            final(self).spec_size() == old(self).spec_size(),
            final(self)@ == apply_moves(old(self)@, old(self).spec_size(), moves@),
            scramble_run(generator_from_u64(nonce), moves@),
            20 <= moves@.len() <= 30,
    {
        let g = generator_from_state(nonce);
        self.scramble_with(g)
    }
}

} // verus!
