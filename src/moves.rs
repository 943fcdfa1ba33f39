//! The move vocabulary: face turns, wide turns and whole-cube rotations,
//! each with a number of clockwise quarter turns.
use vstd::prelude::*;

use crate::cube::{turned, Facelets};
use crate::facelets::Face;
use crate::geometry::Turn;

verus! {

/// A move: which layers turn, and how many clockwise quarter turns they make.
/// Multiplicities are taken modulo four.
#[derive(Debug, Clone, Copy, PartialEq, Eq, Structural)]
pub enum Move {
    /// Up face.
    U(usize),
    /// Down face.
    D(usize),
    /// Left face.
    L(usize),
    /// Right face.
    R(usize),
    /// Front face.
    F(usize),
    /// Back face.
    B(usize),
    /// Up face with the inner layers below it.
    Uw(usize),
    /// Down face with the inner layers above it.
    Dw(usize),
    /// Left face with the inner layers beside it.
    Lw(usize),
    /// Right face with the inner layers beside it.
    Rw(usize),
    /// Front face with the inner layers behind it.
    Fw(usize),
    /// Back face with the inner layers before it.
    Bw(usize),
    /// The whole cube, turning with the Up face.
    X(usize),
    /// The whole cube, turning with the Left face.
    Y(usize),
    /// The whole cube, turning with the Front face.
    Z(usize),
}

/// The multiplicity a move carries, before it is taken modulo four.
pub open spec fn move_count(m: Move) -> usize {
    match m {
        Move::U(k) | Move::D(k) | Move::L(k) | Move::R(k) | Move::F(k) | Move::B(k) => k,
        Move::Uw(k) | Move::Dw(k) | Move::Lw(k) | Move::Rw(k) | Move::Fw(k) | Move::Bw(k) => k,
        Move::X(k) | Move::Y(k) | Move::Z(k) => k,
    }
}

/// The same kind of move with multiplicity `k`.
pub open spec fn with_count(m: Move, k: usize) -> Move {
    match m {
        Move::U(_) => Move::U(k),
        Move::D(_) => Move::D(k),
        Move::L(_) => Move::L(k),
        Move::R(_) => Move::R(k),
        Move::F(_) => Move::F(k),
        Move::B(_) => Move::B(k),
        Move::Uw(_) => Move::Uw(k),
        Move::Dw(_) => Move::Dw(k),
        Move::Lw(_) => Move::Lw(k),
        Move::Rw(_) => Move::Rw(k),
        Move::Fw(_) => Move::Fw(k),
        Move::Bw(_) => Move::Bw(k),
        Move::X(_) => Move::X(k),
        Move::Y(_) => Move::Y(k),
        Move::Z(_) => Move::Z(k),
    }
}

/// The move that undoes `m`: same layers, `(4 - k) mod 4` quarter turns.
pub open spec fn inverse_move(m: Move) -> Move {
    with_count(m, ((4 - move_count(m) % 4) % 4) as usize)
}

/// Whether `m` turns the whole cube.
pub open spec fn is_rotation(m: Move) -> bool {
    m is X || m is Y || m is Z
}

/// The number of layers a wide move carries on a cube of size `n`: the
/// outer layer and the inner layers `1 .. n - 2`, so one layer up to size 3.
pub open spec fn wide_width(n: usize) -> usize {
    if n > 3 {
        (n - 2) as usize
    } else {
        1
    }
}

/// The quarter turn that `m` repeats on a cube of size `n`.
pub open spec fn move_turn(m: Move, n: usize) -> Turn {
    match m {
        Move::U(_) => Turn { axis: Face::Up, width: 1 },
        Move::D(_) => Turn { axis: Face::Down, width: 1 },
        Move::L(_) => Turn { axis: Face::Left, width: 1 },
        Move::R(_) => Turn { axis: Face::Right, width: 1 },
        Move::F(_) => Turn { axis: Face::Front, width: 1 },
        Move::B(_) => Turn { axis: Face::Back, width: 1 },
        Move::Uw(_) => Turn { axis: Face::Up, width: wide_width(n) },
        Move::Dw(_) => Turn { axis: Face::Down, width: wide_width(n) },
        Move::Lw(_) => Turn { axis: Face::Left, width: wide_width(n) },
        Move::Rw(_) => Turn { axis: Face::Right, width: wide_width(n) },
        Move::Fw(_) => Turn { axis: Face::Front, width: wide_width(n) },
        Move::Bw(_) => Turn { axis: Face::Back, width: wide_width(n) },
        Move::X(_) => Turn { axis: Face::Up, width: n },
        Move::Y(_) => Turn { axis: Face::Left, width: n },
        Move::Z(_) => Turn { axis: Face::Front, width: n },
    }
}

/// The facelets after move `m` on a cube of size `n`.
pub open spec fn move_facelets(v: Facelets, n: nat, m: Move) -> Facelets {
    turned(v, n, move_turn(m, n as usize), (move_count(m) % 4) as nat)
}

/// The facelets after the moves of `ms`, in order.
pub open spec fn apply_moves(v: Facelets, n: nat, ms: Seq<Move>) -> Facelets
    decreases ms.len(),
{
    if ms.len() == 0 {
        v
    } else {
        move_facelets(apply_moves(v, n, ms.drop_last()), n, ms.last())
    }
}

/// The face whose layers move `m` turns with, clockwise.
pub open spec fn move_face(m: Move) -> Face {
    match m {
        Move::U(_) | Move::Uw(_) | Move::X(_) => Face::Up,
        Move::D(_) | Move::Dw(_) => Face::Down,
        Move::L(_) | Move::Lw(_) | Move::Y(_) => Face::Left,
        Move::R(_) | Move::Rw(_) => Face::Right,
        Move::F(_) | Move::Fw(_) | Move::Z(_) => Face::Front,
        Move::B(_) | Move::Bw(_) => Face::Back,
    }
}

/// The moves that undo `ms`: reversed, each inverted.
pub open spec fn inverse_sequence(ms: Seq<Move>) -> Seq<Move> {
    Seq::new(ms.len(), |i: int| inverse_move(ms[ms.len() - 1 - i]))
}

impl Move {
    /// The face turn of `face` with multiplicity `count`.
    pub fn from_face_and_count(face: Face, count: usize) -> (m: Move)
        ensures
            m == face_move(face, count),
    {
        match face {
            Face::Up => Move::U(count),
            Face::Down => Move::D(count),
            Face::Left => Move::L(count),
            Face::Right => Move::R(count),
            Face::Front => Move::F(count),
            Face::Back => Move::B(count),
        }
    }

    /// The face whose layers this move turns with, clockwise.
    pub fn face(&self) -> (f: Face)
        ensures
            f == move_face(*self),
    {
        match *self {
            Move::U(_) | Move::Uw(_) | Move::X(_) => Face::Up,
            Move::D(_) | Move::Dw(_) => Face::Down,
            Move::L(_) | Move::Lw(_) | Move::Y(_) => Face::Left,
            Move::R(_) | Move::Rw(_) => Face::Right,
            Move::F(_) | Move::Fw(_) | Move::Z(_) => Face::Front,
            Move::B(_) | Move::Bw(_) => Face::Back,
        }
    }

    /// The multiplicity as given, before it is taken modulo four.
    pub fn count(&self) -> (k: usize)
        ensures
            k == move_count(*self),
    {
        match *self {
            Move::U(k) | Move::D(k) | Move::L(k) | Move::R(k) | Move::F(k) | Move::B(k) => k,
            Move::Uw(k) | Move::Dw(k) | Move::Lw(k) | Move::Rw(k) | Move::Fw(k) | Move::Bw(k) => k,
            Move::X(k) | Move::Y(k) | Move::Z(k) => k,
        }
    }

    /// The same kind of move with multiplicity `k`.
    pub fn with_count(&self, k: usize) -> (m: Move)
        ensures
            m == with_count(*self, k),
    {
        match *self {
            Move::U(_) => Move::U(k),
            Move::D(_) => Move::D(k),
            Move::L(_) => Move::L(k),
            Move::R(_) => Move::R(k),
            Move::F(_) => Move::F(k),
            Move::B(_) => Move::B(k),
            Move::Uw(_) => Move::Uw(k),
            Move::Dw(_) => Move::Dw(k),
            Move::Lw(_) => Move::Lw(k),
            Move::Rw(_) => Move::Rw(k),
            Move::Fw(_) => Move::Fw(k),
            Move::Bw(_) => Move::Bw(k),
            Move::X(_) => Move::X(k),
            Move::Y(_) => Move::Y(k),
            Move::Z(_) => Move::Z(k),
        }
    }

    /// The move that undoes this one: same layers, `(4 - k) mod 4` quarter turns.
    pub fn inverse(&self) -> (m: Move)
        ensures
            m == inverse_move(*self),
    {
        let k = self.count() % 4;
        self.with_count((4 - k) % 4)
    }

    /// The quarter turn this move repeats on a cube of size `n`.
    pub fn turn(&self, n: usize) -> (t: Turn)
        ensures
            t == move_turn(*self, n),
    {
        let wide: usize = if n > 3 {
            n - 2
        } else {
            1
        };
        match *self {
            Move::U(_) => Turn { axis: Face::Up, width: 1 },
            Move::D(_) => Turn { axis: Face::Down, width: 1 },
            Move::L(_) => Turn { axis: Face::Left, width: 1 },
            Move::R(_) => Turn { axis: Face::Right, width: 1 },
            Move::F(_) => Turn { axis: Face::Front, width: 1 },
            Move::B(_) => Turn { axis: Face::Back, width: 1 },
            Move::Uw(_) => Turn { axis: Face::Up, width: wide },
            Move::Dw(_) => Turn { axis: Face::Down, width: wide },
            Move::Lw(_) => Turn { axis: Face::Left, width: wide },
            Move::Rw(_) => Turn { axis: Face::Right, width: wide },
            Move::Fw(_) => Turn { axis: Face::Front, width: wide },
            Move::Bw(_) => Turn { axis: Face::Back, width: wide },
            Move::X(_) => Turn { axis: Face::Up, width: n },
            Move::Y(_) => Turn { axis: Face::Left, width: n },
            Move::Z(_) => Turn { axis: Face::Front, width: n },
        }
    }
}

/// The face turn of `face` with multiplicity `k`.
pub open spec fn face_move(face: Face, k: usize) -> Move {
    match face {
        Face::Up => Move::U(k),
        Face::Down => Move::D(k),
        Face::Left => Move::L(k),
        Face::Right => Move::R(k),
        Face::Front => Move::F(k),
        Face::Back => Move::B(k),
    }
}

/// The moves that undo `moves`: the sequence reversed, each move inverted.
pub fn inverse_moves(moves: &[Move]) -> (r: Vec<Move>)
    ensures
        r@ == inverse_sequence(moves@),
{
    let len = moves.len();
    let mut r: Vec<Move> = Vec::new();
    let mut i: usize = 0;
    while i < len
        invariant
            len == moves@.len(),
            i <= len,
            r@.len() == i,
            forall|j: int| 0 <= j < i ==> #[trigger] r@[j] == inverse_move(moves@[len - 1 - j]),
        decreases len - i,
    {
        r.push(moves[len - 1 - i].inverse());
        i += 1;
    }
    assert(r@ =~= inverse_sequence(moves@));
    r
}

} // verus!
