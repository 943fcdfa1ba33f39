use qbitcoin_core::{
    calculate_difficulty, digest_meets_target, inverse_moves, Color, Cube, Difficulty, Face, Move,
    SizeError,
};
use rand::SeedableRng;
use sha3::Digest;
use tiny_keccak::Hasher;

fn all_kinds(k: usize) -> Vec<Move> {
    vec![
        Move::U(k),
        Move::D(k),
        Move::L(k),
        Move::R(k),
        Move::F(k),
        Move::B(k),
        Move::Uw(k),
        Move::Dw(k),
        Move::Lw(k),
        Move::Rw(k),
        Move::Fw(k),
        Move::Bw(k),
        Move::X(k),
        Move::Y(k),
        Move::Z(k),
    ]
}

fn is_rotation(m: &Move) -> bool {
    matches!(m, Move::X(_) | Move::Y(_) | Move::Z(_))
}

#[test]
fn new_rejects_sizes_below_two() {
    assert_eq!(Cube::new(0).unwrap_err(), SizeError::TooSmall);
    assert_eq!(Cube::new(1).unwrap_err(), SizeError::TooSmall);
    assert_eq!(Cube::new(usize::MAX).unwrap_err(), SizeError::TooLarge);
    assert!(Cube::new(2).is_ok());
}

#[test]
fn new_cubes_are_solved_for_many_sizes() {
    for n in 2..=9 {
        let cube = Cube::new(n).unwrap();
        assert!(cube.is_solved());
        assert_eq!(cube.size(), n);
        assert_eq!(cube.solve_distance(), 0);
    }
}

#[test]
fn canonical_encoding_of_solved_two_cube() {
    let cube = Cube::new(2).unwrap();
    let expected: Vec<u8> = vec![
        2, 0, 0, 0, 0, 0, 0, 0, // size
        0, 0, 0, 0, 0, // Up, white
        1, 1, 1, 1, 1, // Down, yellow
        2, 4, 4, 4, 4, // Left, blue
        3, 5, 5, 5, 5, // Right, green
        4, 2, 2, 2, 2, // Front, red
        5, 3, 3, 3, 3, // Back, orange
    ];
    assert_eq!(cube.canonical_serialize(), expected);
}

#[test]
fn up_turn_moves_the_right_row_to_front() {
    let mut cube = Cube::new(2).unwrap();
    cube.apply_move(&Move::U(1));
    let bytes = cube.canonical_serialize();
    // Front face starts at byte 8 + 4 * 5 = 28; its tag, then row 0, then row 1.
    assert_eq!(bytes[28], 4);
    assert_eq!(&bytes[29..33], &[5, 5, 2, 2]);
    // The Up face only rotates in place.
    assert_eq!(&bytes[9..13], &[0, 0, 0, 0]);
    assert_eq!(cube.solve_distance(), 1);
}

#[test]
fn move_then_inverse_restores_every_kind() {
    for n in 2..=6 {
        let mut cube = Cube::new(n).unwrap();
        cube.scramble_deterministic(7, b"inverse law");
        let before = cube.canonical_serialize();
        for k in 0..9 {
            for m in all_kinds(k) {
                cube.apply_move(&m);
                cube.apply_move(&m.inverse());
                assert_eq!(cube.canonical_serialize(), before, "{:?} on size {}", m, n);
            }
        }
    }
}

#[test]
fn four_quarter_turns_are_the_identity() {
    let mut cube = Cube::new(5).unwrap();
    cube.scramble_deterministic(99, b"four");
    let before = cube.canonical_serialize();
    for m in all_kinds(4) {
        cube.apply_move(&m);
        assert_eq!(cube.canonical_serialize(), before);
    }
    for m in all_kinds(1) {
        for _ in 0..4 {
            cube.apply_move(&m);
        }
        assert_eq!(cube.canonical_serialize(), before);
    }
}

#[test]
fn congruent_multiplicities_act_alike() {
    let mut a = Cube::new(4).unwrap();
    let mut b = Cube::new(4).unwrap();
    a.apply_move(&Move::Rw(1));
    b.apply_move(&Move::Rw(5));
    assert_eq!(a.canonical_serialize(), b.canonical_serialize());
    a.apply_move(&Move::F(3));
    b.apply_move(&Move::F(7));
    assert_eq!(a.canonical_serialize(), b.canonical_serialize());
}

#[test]
fn single_turn_unsolves_a_new_cube() {
    for n in 2..=6 {
        for k in 1..=3 {
            for m in all_kinds(k) {
                let mut cube = Cube::new(n).unwrap();
                cube.apply_move(&m);
                if is_rotation(&m) {
                    assert!(cube.is_solved(), "{:?} on size {}", m, n);
                } else {
                    assert!(!cube.is_solved(), "{:?} on size {}", m, n);
                }
            }
        }
    }
}

#[test]
fn rotations_change_facelet_positions() {
    let mut cube = Cube::new(3).unwrap();
    let before = cube.canonical_serialize();
    cube.apply_move(&Move::X(1));
    assert!(cube.is_solved());
    assert_ne!(cube.canonical_serialize(), before);
}

#[test]
fn wide_turn_on_small_cubes_equals_face_turn() {
    for n in 2..=3 {
        let mut a = Cube::new(n).unwrap();
        let mut b = Cube::new(n).unwrap();
        a.apply_move(&Move::Lw(1));
        b.apply_move(&Move::L(1));
        assert_eq!(a.canonical_serialize(), b.canonical_serialize());
    }
    let mut a = Cube::new(4).unwrap();
    let mut b = Cube::new(4).unwrap();
    a.apply_move(&Move::Lw(1));
    b.apply_move(&Move::L(1));
    assert_ne!(a.canonical_serialize(), b.canonical_serialize());
}

#[test]
fn scramble_shape() {
    let mut cube = Cube::new(3).unwrap();
    let moves = cube.scramble_deterministic(12345, b"mock_block_header");
    assert!(moves.len() >= 20 && moves.len() <= 30);
    for (i, m) in moves.iter().enumerate() {
        assert!(m.count() >= 1 && m.count() <= 3);
        assert!(!is_rotation(m));
        if i > 0 {
            assert_ne!(m.face(), moves[i - 1].face());
        }
    }
}

#[test]
fn scramble_states_agree_across_cubes() {
    for n in [2usize, 3, 4, 7] {
        let mut a = Cube::new(n).unwrap();
        let mut b = Cube::new(n).unwrap();
        let ma = a.scramble_deterministic(42, b"header");
        let mb = b.scramble_deterministic(42, b"header");
        assert_eq!(ma, mb);
        assert_eq!(a.canonical_serialize(), b.canonical_serialize());
    }
}

#[test]
fn scramble_depends_on_nonce_and_header() {
    let mut a = Cube::new(3).unwrap();
    let mut b = Cube::new(3).unwrap();
    let mut c = Cube::new(3).unwrap();
    let ma = a.scramble_deterministic(1, b"header");
    let mb = b.scramble_deterministic(2, b"header");
    let mc = c.scramble_deterministic(1, b"other header");
    assert_ne!(ma, mb);
    assert_ne!(ma, mc);
}

#[test]
fn scramble_seed_is_sha3_of_nonce_and_header() {
    let nonce: u64 = 12345;
    let header = b"mock_block_header";
    let mut data = nonce.to_le_bytes().to_vec();
    data.extend_from_slice(header);
    let seed: [u8; 32] = sha3::Sha3_256::digest(&data).into();
    let mut a = Cube::new(3).unwrap();
    let mut b = Cube::new(3).unwrap();
    let ma = a.scramble_deterministic(nonce, header);
    let mb = b.scramble_with(rand::rngs::StdRng::from_seed(seed));
    assert_eq!(ma, mb);
}

#[test]
fn scramble_from_nonce_alone_is_repeatable() {
    let mut a = Cube::new(3).unwrap();
    let mut b = Cube::new(3).unwrap();
    let ma = a.scramble(2024);
    let mb = b.scramble(2024);
    assert_eq!(ma, mb);
    assert!(ma.len() >= 20 && ma.len() <= 30);
    assert_eq!(a.canonical_serialize(), b.canonical_serialize());
    let mut c = Cube::new(3).unwrap();
    let mc = c.scramble_with(rand::rngs::StdRng::seed_from_u64(2024));
    assert_eq!(ma, mc);
}

#[test]
fn inverse_sequence_solves_scrambles_of_many_sizes() {
    for n in 2..=6 {
        let mut cube = Cube::new(n).unwrap();
        let moves = cube.scramble_deterministic(12345, b"mock_block_header");
        let solution = inverse_moves(&moves);
        assert_eq!(solution.len(), moves.len());
        assert_eq!(solution[0], moves[moves.len() - 1].inverse());
        assert!(cube.verify_solution(&solution));
        assert!(!cube.verify_solution(&moves));
    }
}

#[test]
fn verify_solution_with_no_moves() {
    let solved = Cube::new(3).unwrap();
    assert!(solved.verify_solution(&[]));
    let mut scrambled = Cube::new(3).unwrap();
    scrambled.scramble_deterministic(5, b"x");
    assert!(!scrambled.verify_solution(&[]));
    assert_eq!(scrambled.solve_distance(), 1);
}

#[test]
fn verify_solution_leaves_the_cube_alone() {
    let mut cube = Cube::new(3).unwrap();
    let moves = cube.scramble_deterministic(8, b"y");
    let before = cube.canonical_serialize();
    let _ = cube.verify_solution(&inverse_moves(&moves));
    assert_eq!(cube.canonical_serialize(), before);
}

#[test]
fn inverse_of_each_multiplicity() {
    assert_eq!(Move::U(1).inverse(), Move::U(3));
    assert_eq!(Move::U(2).inverse(), Move::U(2));
    assert_eq!(Move::Fw(3).inverse(), Move::Fw(1));
    assert_eq!(Move::Z(0).inverse(), Move::Z(0));
    assert_eq!(Move::B(6).inverse(), Move::B(2));
    assert_eq!(Move::from_face_and_count(Face::Left, 2), Move::L(2));
}

#[test]
fn default_colours() {
    assert_eq!(Color::default_for_face(Face::Up), Color::White);
    assert_eq!(Color::default_for_face(Face::Down), Color::Yellow);
    assert_eq!(Color::default_for_face(Face::Front), Color::Red);
    assert_eq!(Color::default_for_face(Face::Back), Color::Orange);
    assert_eq!(Color::default_for_face(Face::Left), Color::Blue);
    assert_eq!(Color::default_for_face(Face::Right), Color::Green);
}

#[test]
fn difficulty_estimates_beyond_size_four() {
    let d = calculate_difficulty(5);
    assert_eq!(d.value_u128(), Some(3000));
    assert!(!d.is_exact());
    assert!(calculate_difficulty(3).is_exact());
    assert!(!calculate_difficulty(4).is_exact());
    assert_eq!(calculate_difficulty(0).value_u128(), Some(0));
    assert_eq!(calculate_difficulty(usize::MAX).value_u128(), Some(u128::MAX));
    assert_eq!(calculate_difficulty(4).value_u128(), None);
}

#[test]
fn difficulty_decimal_rendering() {
    assert_eq!(calculate_difficulty(3).to_decimal(), b"43252003274489856000".to_vec());
    let zero = Difficulty { mantissa: 0, exponent: 5, exact: false };
    assert_eq!(zero.to_decimal(), b"0".to_vec());
    assert_eq!(zero.value_u128(), Some(0));
    let big = Difficulty { mantissa: u128::MAX, exponent: 1, exact: false };
    assert_eq!(big.value_u128(), None);
    let small = Difficulty { mantissa: 12, exponent: 3, exact: true };
    assert_eq!(small.value_u128(), Some(12000));
    assert_eq!(small.to_decimal(), b"12000".to_vec());
}

#[test]
fn digest_prefix_against_targets() {
    let mut d = [0u8; 32];
    d[0] = 0x01;
    d[3] = 0x02;
    assert!(digest_meets_target(&d, 0x0100_0002));
    assert!(!digest_meets_target(&d, 0x0100_0001));
    assert!(!digest_meets_target(&d, 0));
    d[4] = 0xFF;
    assert!(digest_meets_target(&d, 0x0100_0002));
}

#[test]
fn meets_difficulty_hashes_the_canonical_encoding() {
    let mut cube = Cube::new(3).unwrap();
    cube.scramble_deterministic(3, b"z");
    let mut hasher = tiny_keccak::Keccak::v256();
    hasher.update(&cube.canonical_serialize());
    let mut digest = [0u8; 32];
    hasher.finalize(&mut digest);
    let prefix = u32::from_be_bytes([digest[0], digest[1], digest[2], digest[3]]);
    assert!(cube.meets_difficulty(prefix));
    if prefix > 0 {
        assert!(!cube.meets_difficulty(prefix - 1));
    }
    assert!(cube.meets_difficulty(u32::MAX));
    assert_eq!(cube.meets_difficulty(0), prefix == 0);
}
