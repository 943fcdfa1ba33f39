use qbitcoin_core::{calculate_difficulty, digest_meets_target, Cube, Move};

#[test]
fn test_cube_creation() {
    let cube = Cube::new(3).unwrap();
    assert!(cube.is_solved());
}

#[test]
fn test_cube_scramble_deterministic() {
    let mut cube1 = Cube::new(3).unwrap();
    let mut cube2 = Cube::new(3).unwrap();
    let block_header = b"mock_block_header";

    let scramble1 = cube1.scramble_deterministic(12345, block_header);
    let scramble2 = cube2.scramble_deterministic(12345, block_header);

    // Two cubes scrambled with the same nonce and block header should be in the same state
    assert_eq!(scramble1, scramble2);
    assert!(!cube1.is_solved());
    assert!(!cube2.is_solved());
}

#[test]
fn test_cube_move() {
    let mut cube = Cube::new(3).unwrap();
    let m = Move::U(1);
    cube.apply_move(&m);
    assert!(!cube.is_solved());
    cube.apply_move(&Move::U(3)); // Reverse the move
    assert!(cube.is_solved());
}

#[test]
fn test_cube_move_normalization() {
    // U5 is equivalent to U1
    let mut cube1 = Cube::new(3).unwrap();
    let mut cube2 = Cube::new(3).unwrap();

    cube1.apply_move(&Move::U(1));
    cube2.apply_move(&Move::U(5));

    assert!(!cube1.is_solved());
    assert!(!cube2.is_solved());
}

#[test]
fn test_solve_verification() {
    let mut cube = Cube::new(3).unwrap();
    let block_header = b"mock_block_header";
    let scramble_moves = cube.scramble_deterministic(12345, block_header);

    // Create the inverse solution
    let mut solution = scramble_moves.clone();
    solution.reverse();
    for move_ref in solution.iter_mut() {
        match *move_ref {
            Move::U(count) => *move_ref = Move::U((4 - count) % 4),
            Move::D(count) => *move_ref = Move::D((4 - count) % 4),
            Move::L(count) => *move_ref = Move::L((4 - count) % 4),
            Move::R(count) => *move_ref = Move::R((4 - count) % 4),
            Move::F(count) => *move_ref = Move::F((4 - count) % 4),
            Move::B(count) => *move_ref = Move::B((4 - count) % 4),
            _ => unreachable!("scrambles use face turns only"),
        }
    }

    assert!(cube.verify_solution(&solution));
    // Checking leaves the cube as it was; making the moves solves it
    cube.apply_moves(&solution);
    assert!(cube.is_solved());
}

#[test]
fn test_difficulty_calculation() {
    assert_eq!(calculate_difficulty(1).value_u128(), Some(1));
    assert_eq!(calculate_difficulty(2).value_u128(), Some(3674160));
    assert_eq!(calculate_difficulty(3).value_u128(), Some(43252003274489856000));
    assert_eq!(
        calculate_difficulty(4).to_decimal(),
        b"740119684156490186987409397449857433600000000".to_vec()
    );
}

#[test]
fn test_meets_difficulty() {
    let cube = Cube::new(2).unwrap();
    // Any state meets the largest target
    assert!(cube.meets_difficulty(u32::MAX));
    // A digest meets a target when its prefix is at most the target
    assert!(digest_meets_target(&[0xFF; 32], u32::MAX));
    assert!(digest_meets_target(&[0x00; 32], 0));
}
