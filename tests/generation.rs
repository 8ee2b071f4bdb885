use chunkgen::chunk::DungeonChunk;
use chunkgen::dungeon::Dungeon;
use chunkgen::mask::{EAST, NORTH, SOUTH, WEST};
use rand::rngs::StdRng;
use rand::SeedableRng;

fn template(entries: u8, room: bool, weight: u16, id: u16) -> DungeonChunk<String> {
    DungeonChunk {
        matrix: vec![vec![1, 2], vec![3, 4]],
        entries,
        room,
        weight,
        spawn: None,
        id,
        rotations: 0,
    }
}

#[test]
fn single_closed_room_stays_alone() {
    let mut rng = StdRng::seed_from_u64(1);
    let d = Dungeon::new((5, 5), 10, 0, vec![template(0, true, 10, 7)], "start".to_string(), &mut rng);
    for x in 0..5u32 {
        for y in 0..5u32 {
            if (x, y) == (2, 2) {
                let c = d.get_chunk((x, y)).unwrap();
                assert_eq!(c.id, 7);
                assert_eq!(c.spawn, Some("start".to_string()));
            } else {
                assert!(d.get_chunk((x, y)).is_none());
            }
        }
    }
    assert_eq!(d.rooms(), vec![(2, 2)]);
}

#[test]
fn vertical_corridor_reaches_both_edges() {
    for seed in 0..20u64 {
        let mut rng = StdRng::seed_from_u64(seed);
        let d = Dungeon::new((1, 5), 4, 0, vec![template(NORTH | SOUTH, false, 4, 3)], "s".to_string(), &mut rng);
        let expected = [SOUTH, 0, 0, 0, NORTH];
        for y in 0..5u32 {
            let c = d.get_chunk((0, y)).unwrap();
            assert_eq!(c.id, 3);
            assert_eq!(c.entries, expected[y as usize], "row {}", y);
            assert_eq!(c.entries & (EAST | WEST), 0);
        }
        assert!(d.get_chunk((1, 2)).is_none());
        assert!(d.get_chunk((0, 5)).is_none());
    }
}

#[test]
fn out_of_grid_queries_give_none() {
    let mut rng = StdRng::seed_from_u64(3);
    for (w, h) in [(1u32, 1u32), (3, 2), (4, 7)] {
        let d = Dungeon::new((w, h), 5, 0, vec![template(NORTH | EAST | SOUTH | WEST, true, 5, 1)], "s".to_string(), &mut rng);
        assert!(d.get_chunk((w, 0)).is_none());
        assert!(d.get_chunk((0, h)).is_none());
        assert!(d.get_chunk((w + 3, h + 3)).is_none());
        assert!(d.get_chunk((u32::MAX, u32::MAX)).is_none());
        assert!(d.get_chunk((w / 2, h / 2)).is_some());
    }
}

#[test]
fn seed_cell_holds_default_template() {
    let options = vec![template(EAST, false, 2, 10), template(NORTH, true, 5, 11)];
    let d = Dungeon::seeded((4, 3), 5, 1, &options, "spawn".to_string());
    let c = d.get_chunk((2, 1)).unwrap();
    assert_eq!(c.id, 11);
    assert_eq!(c.entries, NORTH);
    assert!(c.room);
    assert_eq!(c.matrix, vec![vec![1, 2], vec![3, 4]]);
    assert_eq!(c.spawn, Some("spawn".to_string()));
    for x in 0..4u32 {
        for y in 0..3u32 {
            if (x, y) != (2, 1) {
                assert!(d.get_chunk((x, y)).is_none());
            }
        }
    }
}

#[test]
fn rooms_lists_only_room_cells_in_column_order() {
    let mut rng = StdRng::seed_from_u64(9);
    let options = vec![template(NORTH | EAST | SOUTH | WEST, true, 3, 1), template(NORTH | SOUTH, false, 6, 2)];
    let d = Dungeon::new((6, 6), 6, 0, options, "s".to_string(), &mut rng);
    let mut expected = Vec::new();
    for x in 0..6u32 {
        for y in 0..6u32 {
            if let Some(c) = d.get_chunk((x, y)) {
                if c.room {
                    expected.push((x, y));
                }
            }
        }
    }
    let rooms = d.rooms();
    assert_eq!(rooms, expected);
}

#[test]
fn first_step_from_seed_always_places() {
    for seed in 0..10u64 {
        let mut rng = StdRng::seed_from_u64(seed);
        let options = vec![template(EAST, false, 2, 1), template(WEST | SOUTH, false, 9, 2)];
        let d = Dungeon::new((3, 3), 9, 0, options, "s".to_string(), &mut rng);
        assert!(d.get_chunk((2, 1)).is_some());
        assert!(d.get_chunk((1, 1)).is_some());
    }
}

#[test]
fn add_location_sets_payload_only_on_placed_cells() {
    let options = vec![template(0, true, 1, 1)];
    let mut d = Dungeon::seeded((3, 3), 1, 0, &options, "a".to_string());
    d.add_location((1, 1), "b".to_string());
    assert_eq!(d.get_chunk((1, 1)).unwrap().spawn, Some("b".to_string()));
    d.add_location((0, 0), "c".to_string());
    assert!(d.get_chunk((0, 0)).is_none());
    d.add_location((7, 7), "d".to_string());
    assert_eq!(d.get_chunk((1, 1)).unwrap().spawn, Some("b".to_string()));
}

#[test]
fn attach_consumes_connector_on_both_sides() {
    let options = vec![template(NORTH | EAST, false, 1, 1)];
    let mut d = Dungeon::seeded((3, 3), 1, 0, &options, "a".to_string());
    let n = d.attach((1, 1), EAST, template(WEST | NORTH, false, 1, 5));
    assert_eq!(n, (2, 1));
    assert_eq!(d.get_chunk((1, 1)).unwrap().entries, NORTH);
    let placed = d.get_chunk((2, 1)).unwrap();
    assert_eq!(placed.entries, NORTH);
    assert_eq!(placed.id, 5);
    let m = d.attach((1, 1), NORTH, template(SOUTH, true, 1, 6));
    assert_eq!(m, (1, 2));
    assert_eq!(d.get_chunk((1, 1)).unwrap().entries, 0);
    assert_eq!(d.get_chunk((1, 2)).unwrap().entries, 0);
}

#[test]
fn seed_cell_can_be_overwritten_by_later_pieces() {
    let mut rng = StdRng::seed_from_u64(2);
    let four_way = template(NORTH | EAST | SOUTH | WEST, false, 1, 9);
    let d = Dungeon::new((3, 3), 1, 0, vec![four_way], "spawn".to_string(), &mut rng);
    let center = d.get_chunk((1, 1)).unwrap();
    assert_eq!(center.spawn, None);
    assert_eq!(center.id, 9);
}

#[test]
fn place_with_uses_drawn_weight_and_pick() {
    let options = vec![template(SOUTH, false, 5, 1), template(NORTH | EAST, true, 10, 2)];
    let mut d = Dungeon::seeded((3, 3), 10, 0, &vec![template(EAST, false, 1, 7)], "s".to_string());
    // weight 7 selects the second template; to face West it turns by 1 or 2
    let n = d.place_with(&options, (1, 1), 7, 1);
    assert_eq!(n, Some((2, 1)));
    assert_eq!(d.get_chunk((1, 1)).unwrap().entries, 0);
    let placed = d.get_chunk((2, 1)).unwrap();
    assert_eq!(placed.id, 2);
    assert_eq!(placed.rotations, 2);
    assert_eq!(placed.entries, SOUTH);
    assert_eq!(placed.matrix, vec![vec![4, 3], vec![2, 1]]);
    assert_eq!(d.place_with(&options, (1, 1), 7, 0), None);
    assert_eq!(d.place_with(&options, (5, 5), 7, 0), None);
}

#[test]
fn place_with_aborts_when_template_cannot_turn() {
    let options = vec![template(0, false, 5, 1)];
    let mut d = Dungeon::seeded((3, 3), 5, 0, &vec![template(EAST, false, 1, 7)], "s".to_string());
    assert_eq!(d.place_with(&options, (1, 1), 2, 0), None);
    assert_eq!(d.get_chunk((1, 1)).unwrap().entries, EAST);
    assert!(d.get_chunk((2, 1)).is_none());
}

#[test]
fn generation_reports_steps_and_finishes() {
    let mut rng = StdRng::seed_from_u64(4);
    let d = Dungeon::new((1, 5), 4, 0, vec![template(NORTH | SOUTH, false, 4, 3)], "s".to_string(), &mut rng);
    assert!(d.is_finished());
    assert!(d.steps() > 0 && d.steps() < 5 * 16);
    let closed = Dungeon::new((5, 5), 4, 0, vec![template(0, true, 4, 3)], "s".to_string(), &mut rng);
    assert!(closed.is_finished());
    assert_eq!(closed.steps(), 1);
}
