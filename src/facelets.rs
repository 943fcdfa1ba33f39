//! Faces and colours of the cube.
use vstd::prelude::*;

verus! {

/// One of the six sides of the cube.
#[derive(Debug, Clone, Copy, PartialEq, Eq, Hash, Structural)]
pub enum Face {
    Up,
    Down,
    Left,
    Right,
    Front,
    Back,
}

/// The colour of one facelet.
#[derive(Debug, Clone, Copy, PartialEq, Eq, Hash, Structural)]
pub enum Color {
    White,
    Yellow,
    Red,
    Orange,
    Blue,
    Green,
}

/// Position of a face in the fixed face order Up, Down, Left, Right, Front, Back.
pub open spec fn face_index(f: Face) -> int {
    match f {
        Face::Up => 0,
        Face::Down => 1,
        Face::Left => 2,
        Face::Right => 3,
        Face::Front => 4,
        Face::Back => 5,
    }
}

/// The face at a position of the fixed face order.
pub open spec fn face_at(i: int) -> Face {
    if i == 0 {
        Face::Up
    } else if i == 1 {
        Face::Down
    } else if i == 2 {
        Face::Left
    } else if i == 3 {
        Face::Right
    } else if i == 4 {
        Face::Front
    } else {
        Face::Back
    }
}

/// The colour a face shows on a solved cube.
pub open spec fn home_color(f: Face) -> Color {
    match f {
        Face::Up => Color::White,
        Face::Down => Color::Yellow,
        Face::Front => Color::Red,
        Face::Back => Color::Orange,
        Face::Left => Color::Blue,
        Face::Right => Color::Green,
    }
}

/// The byte that stands for a colour in the canonical encoding.
pub open spec fn color_byte(c: Color) -> u8 {
    match c {
        Color::White => 0,
        Color::Yellow => 1,
        Color::Red => 2,
        Color::Orange => 3,
        Color::Blue => 4,
        Color::Green => 5,
    }
}

/// Distinct faces are painted in distinct colours.
pub proof fn lemma_home_color_injective(f: Face, g: Face)
    ensures
        home_color(f) == home_color(g) <==> f == g,
{
}

impl Face {
    /// The face at `i` in the fixed order Up, Down, Left, Right, Front, Back.
    pub fn from_index(i: usize) -> (f: Face)
        requires
            i < 6,
        ensures
            f == face_at(i as int),
            face_index(f) == i,
    {
        match i {
            0 => Face::Up,
            1 => Face::Down,
            2 => Face::Left,
            3 => Face::Right,
            4 => Face::Front,
            _ => Face::Back,
        }
    }

    /// Position of the face in the fixed face order.
    pub fn index(&self) -> (i: usize)
        ensures
            i == face_index(*self),
            i < 6,
    {
        match self {
            Face::Up => 0,
            Face::Down => 1,
            Face::Left => 2,
            Face::Right => 3,
            Face::Front => 4,
            Face::Back => 5,
        }
    }
}

impl Color {
    /// The colour of `face` on a solved cube: Up white, Down yellow,
    /// Front red, Back orange, Left blue, Right green.
    pub fn default_for_face(face: Face) -> (c: Color)
        ensures
            c == home_color(face),
    {
        match face {
            Face::Up => Color::White,
            Face::Down => Color::Yellow,
            Face::Front => Color::Red,
            Face::Back => Color::Orange,
            Face::Left => Color::Blue,
            Face::Right => Color::Green,
        }
    }

    /// The byte of this colour in the canonical encoding.
    pub fn to_byte(&self) -> (b: u8)
        ensures
            b == color_byte(*self),
    {
        match self {
            Color::White => 0,
            Color::Yellow => 1,
            Color::Red => 2,
            Color::Orange => 3,
            Color::Blue => 4,
            Color::Green => 5,
        }
    }
}

} // verus!
