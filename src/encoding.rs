//! The canonical byte encoding of a cube: its size as eight little-endian
//! bytes, then each face in the fixed face order as its index byte followed
//! by the bytes of its facelet colours, row by row.
use vstd::prelude::*;

use crate::cube::Facelets;
use crate::facelets::{color_byte, Color};

verus! {

/// The `k` low-order bytes of `x`, least significant first.
pub open spec fn le_bytes(x: nat, k: nat) -> Seq<u8>
    decreases k,
{
    if k == 0 {
        Seq::empty()
    } else {
        seq![(x % 256) as u8] + le_bytes(x / 256, (k - 1) as nat)
    }
}

/// The colour bytes of one face of size `n`, row by row.
pub open spec fn face_bytes(face: Seq<Seq<Color>>, n: nat) -> Seq<u8> {
    Seq::new(n * n, |j: int| color_byte(face[j / n as int][j % n as int]))
}

/// The encoding of the first `k` faces: for each, its index byte and its colour bytes.
pub open spec fn faces_bytes(v: Facelets, n: nat, k: nat) -> Seq<u8>
    decreases k,
{
    if k == 0 {
        Seq::empty()
    } else {
        faces_bytes(v, n, (k - 1) as nat) + seq![(k - 1) as u8] + face_bytes(v[k - 1], n)
    }
}

/// The canonical encoding of a cube of size `n` with facelets `v`.
pub open spec fn canonical_bytes(n: nat, v: Facelets) -> Seq<u8> {
    le_bytes(n, 8) + faces_bytes(v, n, 6)
}

/// Eight little-endian bytes of `x`.
pub fn u64_le_bytes(x: u64) -> (r: Vec<u8>)
    ensures
        r@ == le_bytes(x as nat, 8),
{
    let mut r: Vec<u8> = Vec::new();
    let mut rest: u64 = x;
    let mut i: usize = 0;
    while i < 8
        invariant
            i <= 8,
            r@ + le_bytes(rest as nat, (8 - i) as nat) == le_bytes(x as nat, 8),
        decreases 8 - i,
    {
        let ghost before = r@;
        r.push((rest % 256) as u8);
        proof {
            let k = (8 - i) as nat;
            assert(le_bytes(rest as nat, k) == seq![(rest as nat % 256) as u8] + le_bytes(
                rest as nat / 256,
                (k - 1) as nat,
            ));
            assert(r@ + le_bytes((rest / 256) as nat, (k - 1) as nat) =~= before + le_bytes(rest as nat, k));
        }
        rest = rest / 256;
        i += 1;
    }
    assert(r@ + le_bytes(rest as nat, 0) =~= r@);
    r
}

} // verus!
