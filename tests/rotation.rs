use chunkgen::chunk::DungeonChunk;
use chunkgen::mask::{polar, rotate_mask, EAST, NORTH, SOUTH, WEST};
use chunkgen::matrix::{copy_matrix, is_square_matrix, rotate_cw};
use chunkgen::select::{select, select_index};
use rand::rngs::StdRng;
use rand::SeedableRng;

fn piece(entries: u8, matrix: Vec<Vec<u16>>, weight: u16) -> DungeonChunk<u32> {
    DungeonChunk { matrix, entries, room: false, weight, spawn: None, id: 0, rotations: 0 }
}

#[test]
fn polar_pairs() {
    assert_eq!(polar(NORTH), SOUTH);
    assert_eq!(polar(EAST), WEST);
    assert_eq!(polar(SOUTH), NORTH);
    assert_eq!(polar(WEST), EAST);
    assert_eq!(polar(3), 0);
}

#[test]
fn mask_rotates_right_cyclically() {
    assert_eq!(rotate_mask(0b0001, 1), 0b1000);
    assert_eq!(rotate_mask(0b0110, 1), 0b0011);
    assert_eq!(rotate_mask(0b0011, 2), 0b1100);
    assert_eq!(rotate_mask(0b1011, 0), 0b1011);
    assert_eq!(rotate_mask(0b1111_0010, 0), 0b0010);
    for m in 0..16u8 {
        assert_eq!(rotate_mask(m, 4), m);
        for r in 0..4u8 {
            let once = rotate_mask(m, r);
            assert_eq!(rotate_mask(rotate_mask(rotate_mask(once, r), r), r), m);
        }
    }
}

#[test]
fn matrix_turns_clockwise() {
    let m = vec![vec![1, 2], vec![3, 4]];
    assert_eq!(rotate_cw(&m), vec![vec![3, 1], vec![4, 2]]);
    let big = vec![vec![1, 2, 3], vec![4, 5, 6], vec![7, 8, 9]];
    assert_eq!(rotate_cw(&big), vec![vec![7, 4, 1], vec![8, 5, 2], vec![9, 6, 3]]);
    assert!(is_square_matrix(&big));
    assert!(!is_square_matrix(&vec![vec![1, 2]]));
    assert_eq!(copy_matrix(&big), big);
}

#[test]
fn rotation_choices_are_cyclic() {
    let p = piece(NORTH, vec![], 1);
    assert_eq!(p.rotation_choices(NORTH), vec![2]);
    assert_eq!(p.rotation_choices(SOUTH), vec![0]);
    assert_eq!(p.rotation_choices(EAST), vec![1]);
    assert_eq!(p.rotation_choices(WEST), vec![3]);
    let q = piece(NORTH | SOUTH, vec![], 1);
    assert_eq!(q.rotation_choices(NORTH), vec![0, 2]);
    assert_eq!(q.rotation_choices(EAST), vec![1, 3]);
    assert_eq!(piece(0, vec![], 1).rotation_choices(EAST), Vec::<u8>::new());
}

#[test]
fn rotate_by_turns_mask_and_square_matrix() {
    let mut p = piece(NORTH | EAST, vec![vec![1, 2], vec![3, 4]], 1);
    p.rotate_by(1);
    assert_eq!(p.entries, 0b1001);
    assert_eq!(p.matrix, vec![vec![3, 1], vec![4, 2]]);
    assert_eq!(p.rotations, 1);
    let mut q = piece(NORTH, vec![vec![1, 2, 3]], 1);
    q.rotate_by(3);
    assert_eq!(q.entries, 0b0010);
    assert_eq!(q.matrix, vec![vec![1, 2, 3]]);
}

#[test]
fn four_turns_restore_template() {
    let start = vec![vec![1, 2, 3], vec![4, 5, 6], vec![7, 8, 9]];
    for r in 0..4u8 {
        let mut p = piece(0b1101, start.clone(), 1);
        for _ in 0..4 {
            p.rotate_by(r);
        }
        assert_eq!(p.entries, 0b1101);
        assert_eq!(p.matrix, start);
    }
}

#[test]
fn rotate_aligns_with_incoming_direction() {
    let mut rng = StdRng::seed_from_u64(5);
    for _ in 0..20 {
        let mut p = piece(NORTH | EAST, vec![vec![1, 2], vec![3, 4]], 1);
        let r = p.rotate(WEST, &mut rng).unwrap();
        assert!(r == 0 || r == 3);
        assert_ne!(p.entries & EAST, 0);
        assert_eq!(p.rotations, r as u16);
    }
    let mut closed = piece(0, vec![vec![1, 2], vec![3, 4]], 1);
    assert_eq!(closed.rotate(NORTH, &mut rng), None);
    assert_eq!(closed.entries, 0);
    assert_eq!(closed.matrix, vec![vec![1, 2], vec![3, 4]]);
}

#[test]
fn selection_by_threshold() {
    let options: Vec<DungeonChunk<u32>> = [1u16, 5, 6, 8, 11].iter().map(|w| piece(1, vec![], *w)).collect();
    assert_eq!(select_index(&options, 0), 0);
    assert_eq!(select_index(&options, 1), 1);
    assert_eq!(select_index(&options, 4), 1);
    assert_eq!(select_index(&options, 5), 2);
    assert_eq!(select_index(&options, 10), 4);
    assert_eq!(select_index(&options, 11), 4);
    assert_eq!(select_index(&options, 500), 4);
    let one = vec![piece(1, vec![], 0)];
    assert_eq!(select_index(&one, 0), 0);
}

#[test]
fn random_selection_stays_in_range() {
    let mut rng = StdRng::seed_from_u64(11);
    let options: Vec<DungeonChunk<u32>> = [2u16, 4].iter().map(|w| piece(1, vec![], *w)).collect();
    let mut seen = [false; 2];
    for _ in 0..200 {
        let i = select(&options, 4, &mut rng);
        assert!(i < 2);
        seen[i] = true;
    }
    assert!(seen[0] && seen[1]);
}

#[test]
fn rotate_at_takes_the_picked_choice() {
    let mut p = piece(NORTH | SOUTH, vec![vec![1, 2], vec![3, 4]], 1);
    assert_eq!(p.rotate_at(EAST, 0), 1);
    assert_eq!(p.entries, EAST | WEST);
    assert_eq!(p.matrix, vec![vec![3, 1], vec![4, 2]]);
    let mut q = piece(NORTH | SOUTH, vec![vec![1, 2], vec![3, 4]], 1);
    assert_eq!(q.rotate_at(EAST, 1), 3);
    assert_eq!(q.rotations, 3);
    assert_eq!(q.matrix, vec![vec![2, 4], vec![1, 3]]);
}
