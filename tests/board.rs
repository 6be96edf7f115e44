use digsite::digsites::{Cell, DigSite};
use digsite::error::GameError;
use digsite::geometry::{Point, Size};
use rand::rngs::StdRng;
use rand::SeedableRng;

fn board(seed: u64) -> DigSite {
    let mut rng = StdRng::seed_from_u64(seed);
    DigSite::generate(&mut rng, Size { x: 10, y: 10 }, 15, Point { x: 5, y: 5 }, None).unwrap()
}

fn cell(ds: &DigSite, x: i32, y: i32) -> Cell {
    ds.get(Point { x, y }).unwrap()
}

fn bones(ds: &DigSite) -> usize {
    let s = ds.size();
    let mut n = 0;
    for y in 0..s.y as i32 {
        for x in 0..s.x as i32 {
            if cell(ds, x, y) == Cell::Bone {
                n += 1;
            }
        }
    }
    n
}

fn neighbours(ds: &DigSite, x: i32, y: i32) -> u8 {
    let mut n = 0;
    for dy in -1..=1 {
        for dx in -1..=1 {
            if (dx, dy) != (0, 0) && ds.get(Point { x: x + dx, y: y + dy }) == Some(Cell::Bone) {
                n += 1;
            }
        }
    }
    n
}

#[test]
fn ten_by_ten_with_fifteen_hazards() {
    for seed in 0..20 {
        let ds = board(seed);
        let out = ds.output();
        assert_eq!(out.len(), 10);
        assert!(out.iter().all(|row| row.len() == 10));
        assert_ne!(out[5][5], "#");
        assert_eq!(bones(&ds), 15);
        for y in 4..=6 {
            for x in 4..=6 {
                assert_ne!(cell(&ds, x, y), Cell::Bone);
            }
        }
    }
}

#[test]
fn counts_match_the_hazards_around() {
    for seed in 0..20 {
        let ds = board(seed);
        for y in 0..10 {
            for x in 0..10 {
                if let Cell::Empty(n) = cell(&ds, x, y) {
                    assert_eq!(n, neighbours(&ds, x, y));
                }
            }
        }
    }
}

#[test]
fn every_count_of_hazards_up_to_the_eligible_cells() {
    let mut rng = StdRng::seed_from_u64(3);
    for n in [0usize, 1, 45, 90, 91] {
        let ds = DigSite::generate(&mut rng, Size { x: 10, y: 10 }, n, Point { x: 5, y: 5 }, None).unwrap();
        assert_eq!(bones(&ds), n);
    }
}

#[test]
fn too_many_hazards_is_a_configuration_error() {
    let mut rng = StdRng::seed_from_u64(1);
    let r = DigSite::generate(&mut rng, Size { x: 10, y: 10 }, 92, Point { x: 5, y: 5 }, None);
    assert_eq!(r.unwrap_err(), GameError::Configuration);
    let corner = DigSite::generate(&mut rng, Size { x: 3, y: 3 }, 6, Point { x: 0, y: 0 }, None);
    assert_eq!(corner.unwrap_err(), GameError::Configuration);
    let centre = DigSite::generate(&mut rng, Size { x: 3, y: 3 }, 1, Point { x: 1, y: 1 }, None);
    assert_eq!(centre.unwrap_err(), GameError::Configuration);
    let fits = DigSite::generate(&mut rng, Size { x: 3, y: 3 }, 5, Point { x: 0, y: 2 }, None).unwrap();
    assert_eq!(bones(&fits), 5);
}

#[test]
fn spawn_off_the_board_is_out_of_range() {
    let mut rng = StdRng::seed_from_u64(1);
    for p in [Point { x: 10, y: 0 }, Point { x: -1, y: 3 }, Point { x: 2, y: 10 }] {
        let r = DigSite::generate(&mut rng, Size { x: 10, y: 10 }, 5, p, None);
        assert_eq!(r.unwrap_err(), GameError::OutOfRange);
    }
    let empty = DigSite::generate(&mut rng, Size { x: 0, y: 0 }, 0, Point { x: 0, y: 0 }, None);
    assert_eq!(empty.unwrap_err(), GameError::OutOfRange);
}

#[test]
fn reveal_covers_zero_region_and_its_border() {
    for seed in 0..20 {
        let ds = board(seed);
        assert!(ds.is_visible(Point { x: 5, y: 5 }));
        for y in 0..10 {
            for x in 0..10 {
                let p = Point { x, y };
                if ds.is_visible(p) && cell(&ds, x, y) == Cell::Empty(0) {
                    for dy in -1..=1 {
                        for dx in -1..=1 {
                            let q = Point { x: x + dx, y: y + dy };
                            if ds.get(q).is_some() {
                                assert!(ds.is_visible(q));
                            }
                        }
                    }
                }
                if ds.is_visible(p) {
                    assert_ne!(cell(&ds, x, y), Cell::Bone);
                }
            }
        }
    }
}

#[test]
fn reveal_again_changes_nothing() {
    let mut ds = board(9);
    let before = ds.output();
    ds.flood_fill_visibility(Point { x: 5, y: 5 }).unwrap();
    assert_eq!(ds.output(), before);
    assert_eq!(ds.flood_fill_visibility(Point { x: 10, y: 5 }), Err(GameError::OutOfRange));
}

#[test]
fn empty_board_reveals_everything() {
    let mut ds = DigSite::new(Size { x: 4, y: 3 });
    ds.flood_fill_visibility(Point { x: 0, y: 0 }).unwrap();
    let out = ds.output();
    assert_eq!(out, vec![vec![".".to_string(); 4]; 3]);
}

#[test]
fn new_board_is_hidden_and_empty() {
    let ds = DigSite::new(Size { x: 3, y: 2 });
    assert_eq!(ds.output(), vec![vec!["#".to_string(); 3]; 2]);
    assert_eq!(ds.get(Point { x: 2, y: 1 }), Some(Cell::Empty(0)));
    assert_eq!(ds.get(Point { x: 3, y: 1 }), None);
    assert_eq!(ds.spawn(), None);
}

#[test]
fn sampled_bones_go_where_the_picks_say() {
    let mut ds = DigSite::new(Size { x: 3, y: 3 });
    // with the spawn at (0, 0) the eligible cells are 2, 5, 6, 7, 8
    ds.assign_sampled_bones(Point { x: 0, y: 0 }, &vec![0, 4]).unwrap();
    assert_eq!(cell(&ds, 2, 0), Cell::Bone);
    assert_eq!(cell(&ds, 2, 2), Cell::Bone);
    assert_eq!(cell(&ds, 1, 1), Cell::Empty(2));
    assert_eq!(cell(&ds, 1, 0), Cell::Empty(1));
    assert_eq!(cell(&ds, 0, 0), Cell::Empty(0));
    assert_eq!(cell(&ds, 2, 1), Cell::Empty(2));
    let before = ds.output();
    assert_eq!(ds.assign_sampled_bones(Point { x: 0, y: 0 }, &vec![3]), Err(GameError::OutOfRange));
    assert_eq!(ds.output(), before);
}

#[test]
fn assign_bones_adds_to_an_existing_board() {
    let mut rng = StdRng::seed_from_u64(5);
    let mut ds = DigSite::new(Size { x: 5, y: 5 });
    ds.assign_bones(&mut rng, 4, Point { x: 2, y: 2 }).unwrap();
    assert_eq!(bones(&ds), 4);
    ds.assign_bones(&mut rng, 12, Point { x: 2, y: 2 }).unwrap();
    assert_eq!(bones(&ds), 16);
    assert_eq!(ds.assign_bones(&mut rng, 1, Point { x: 2, y: 2 }), Err(GameError::Configuration));
    for y in 1..=3 {
        for x in 1..=3 {
            assert_eq!(cell(&ds, x, y), Cell::Empty(neighbours(&ds, x, y)));
        }
    }
}

#[test]
fn symbols_of_cells() {
    assert_eq!(Cell::Bone.symbol(), "b");
    assert_eq!(Cell::Empty(0).symbol(), ".");
    assert_eq!(Cell::Empty(3).symbol(), "3");
    assert_eq!(Cell::Empty(8).symbol(), "8");
}

#[test]
fn players_join_at_spawn_once() {
    let mut rng = StdRng::seed_from_u64(2);
    let mut ds = DigSite::generate(
        &mut rng,
        Size { x: 10, y: 10 },
        15,
        Point { x: 5, y: 5 },
        Some(vec!["C".to_string(), "D".to_string(), "C".to_string()]),
    )
    .unwrap();
    let ps = ds.player_positions();
    assert_eq!(ps.len(), 2);
    assert!(ps.iter().all(|(_, p)| *p == Point { x: 5, y: 5 }));
    ds.add_player("C".to_string()).unwrap();
    assert_eq!(ds.player_positions().len(), 2);
    ds.add_player("E".to_string()).unwrap();
    assert_eq!(ds.player_positions().len(), 3);
    assert_eq!(ds.output()[5][5], "E");
}

#[test]
fn adding_a_player_without_spawn_fails() {
    let mut ds = DigSite::new(Size { x: 3, y: 3 });
    assert_eq!(ds.add_player("A".to_string()), Err(GameError::NoSpawn));
    assert!(ds.player_positions().is_empty());
}

#[test]
fn moves_stay_on_the_board() {
    let mut rng = StdRng::seed_from_u64(4);
    let mut ds =
        DigSite::generate(&mut rng, Size { x: 3, y: 3 }, 0, Point { x: 0, y: 0 }, Some(vec!["A".to_string()])).unwrap();
    ds.move_player("A".to_string(), Point { x: -1, y: 0 });
    assert_eq!(ds.player_positions()[0].1, Point { x: 0, y: 0 });
    ds.move_player("A".to_string(), Point { x: 0, y: -1 });
    assert_eq!(ds.player_positions()[0].1, Point { x: 0, y: 0 });
    ds.move_player("A".to_string(), Point { x: 1, y: 0 });
    assert_eq!(ds.player_positions()[0].1, Point { x: 1, y: 0 });
    ds.move_player("A".to_string(), Point { x: 0, y: 2 });
    assert_eq!(ds.player_positions()[0].1, Point { x: 1, y: 2 });
    ds.move_player("A".to_string(), Point { x: 0, y: 1 });
    assert_eq!(ds.player_positions()[0].1, Point { x: 1, y: 2 });
    ds.move_player("A".to_string(), Point { x: i32::MAX, y: 0 });
    assert_eq!(ds.player_positions()[0].1, Point { x: 1, y: 2 });
    ds.move_player("Z".to_string(), Point { x: 1, y: 0 });
    assert_eq!(ds.player_positions()[0].1, Point { x: 1, y: 2 });
    let out = ds.output();
    assert_eq!(out[2][1], "A");
    assert_eq!(out[0][0], ".");
}
