use treasure_hunt::draw::{scale_index, scale_offset};
use treasure_hunt::{Draw, GameMap, TileType};

const HALF: u32 = 0x8000_0000;

fn count_obstacles(map: &GameMap) -> usize {
    let mut n = 0;
    for y in 0..map.height() {
        for x in 0..map.width() {
            if map.get_tile(x, y) == TileType::Obstacle {
                n += 1;
            }
        }
    }
    n
}

/// Draws that walk over the interior of a ten by ten map, cell by cell.
fn interior_draws() -> Vec<Draw> {
    let mut draws = Vec::new();
    for y in 0..8u64 {
        for x in 0..8u64 {
            draws.push(((x * 0x2000_0000) as u32, (y * 0x2000_0000) as u32));
        }
    }
    draws
}

#[test]
fn scale_index_is_the_floor_of_the_fraction() {
    assert_eq!(scale_index(0, 8), 0);
    assert_eq!(scale_index(HALF, 8), 4);
    assert_eq!(scale_index(u32::MAX, 8), 7);
    assert_eq!(scale_index(0x2000_0000, 8), 1);
    assert_eq!(scale_index(0x1FFF_FFFF, 8), 0);
    assert_eq!(scale_index(u32::MAX, 0), 0);
    assert_eq!(scale_index(u32::MAX, 1), 0);
}

#[test]
fn scale_offset_rounds_toward_zero_on_both_sides() {
    assert_eq!(scale_offset(HALF, 320), 160);
    assert_eq!(scale_offset(HALF, -320), -160);
    assert_eq!(scale_offset(u32::MAX, 320), 319);
    assert_eq!(scale_offset(u32::MAX, -320), -319);
    assert_eq!(scale_offset(1, 320), 0);
    assert_eq!(scale_offset(1, -320), 0);
    assert_eq!(scale_offset(u32::MAX, 0), 0);
}

#[test]
fn every_border_cell_is_wall() {
    let map = GameMap::new(10, 10, 40, &interior_draws());
    for i in 0..10 {
        assert_eq!(map.get_tile(i, 0), TileType::Wall);
        assert_eq!(map.get_tile(i, 9), TileType::Wall);
        assert_eq!(map.get_tile(0, i), TileType::Wall);
        assert_eq!(map.get_tile(9, i), TileType::Wall);
    }
}

#[test]
fn corner_is_wall_and_centre_is_not() {
    let map = GameMap::new(10, 10, 40, &interior_draws());
    assert_eq!(map.get_tile(0, 0), TileType::Wall);
    assert_ne!(map.get_tile(5, 5), TileType::Wall);
}

#[test]
fn spawn_area_never_gets_an_obstacle() {
    let draws: Vec<Draw> = vec![(0, 0), (0, 0x2000_0000), (0x2000_0000, 0), (0x2000_0000, 0x2000_0000)];
    let map = GameMap::new(10, 10, 40, &draws);
    assert_eq!(map.get_tile(1, 1), TileType::Empty);
    assert_eq!(map.get_tile(1, 2), TileType::Empty);
    assert_eq!(map.get_tile(2, 1), TileType::Empty);
    assert_eq!(map.get_tile(2, 2), TileType::Empty);
    assert_eq!(count_obstacles(&map), 0);
}

#[test]
fn a_draw_places_an_obstacle_on_the_cell_it_picks() {
    let draws: Vec<Draw> = vec![(HALF, HALF), (u32::MAX, 0)];
    let map = GameMap::new(10, 10, 40, &draws);
    assert_eq!(map.get_tile(5, 5), TileType::Obstacle);
    assert_eq!(map.get_tile(8, 1), TileType::Obstacle);
    assert_eq!(count_obstacles(&map), 2);
}

#[test]
fn a_cell_drawn_twice_holds_one_obstacle() {
    let draws: Vec<Draw> = vec![(HALF, HALF), (HALF, HALF), (HALF + 5, HALF + 9)];
    let map = GameMap::new(10, 10, 40, &draws);
    assert_eq!(map.get_tile(5, 5), TileType::Obstacle);
    assert_eq!(count_obstacles(&map), 1);
}

#[test]
fn obstacles_stop_at_a_tenth_of_the_cells() {
    let map = GameMap::new(10, 10, 40, &interior_draws());
    assert_eq!(count_obstacles(&map), 10);
    // The walk is row by row and skips the spawn area: the first row gives
    // six obstacles, the second the remaining four.
    for x in 3..9 {
        assert_eq!(map.get_tile(x, 1), TileType::Obstacle);
    }
    for x in 3..7 {
        assert_eq!(map.get_tile(x, 2), TileType::Obstacle);
    }
    assert_eq!(map.get_tile(7, 2), TileType::Empty);
    assert_eq!(map.get_tile(1, 3), TileType::Empty);
}

#[test]
fn no_draws_leave_the_interior_empty() {
    let map = GameMap::new(10, 10, 40, &Vec::new());
    assert_eq!(count_obstacles(&map), 0);
    assert_eq!(map.get_tile(5, 5), TileType::Empty);
}

#[test]
fn attempts_end_after_a_hundred_per_obstacle() {
    // A five by four map wants two obstacles and allows two hundred attempts.
    let mut draws: Vec<Draw> = vec![(0, 0); 200];
    draws.push((u32::MAX, u32::MAX));
    let late = GameMap::new(5, 4, 40, &draws);
    assert_eq!(count_obstacles(&late), 0);

    let mut draws: Vec<Draw> = vec![(0, 0); 199];
    draws.push((u32::MAX, u32::MAX));
    let in_time = GameMap::new(5, 4, 40, &draws);
    assert_eq!(count_obstacles(&in_time), 1);
    assert_eq!(in_time.get_tile(3, 2), TileType::Obstacle);
}

#[test]
fn a_map_under_ten_cells_wants_no_obstacle() {
    let map = GameMap::new(3, 3, 40, &vec![(0, 0), (HALF, HALF)]);
    assert_eq!(map.get_tile(1, 1), TileType::Empty);
    assert_eq!(count_obstacles(&map), 0);
}

#[test]
fn a_map_without_interior_is_all_wall() {
    let draws: Vec<Draw> = vec![(HALF, HALF); 50];
    let narrow = GameMap::new(2, 20, 40, &draws);
    for y in 0..20 {
        assert_eq!(narrow.get_tile(0, y), TileType::Wall);
        assert_eq!(narrow.get_tile(1, y), TileType::Wall);
    }
    let single = GameMap::new(1, 1, 40, &draws);
    assert_eq!(single.get_tile(0, 0), TileType::Wall);
    let flat = GameMap::new(30, 1, 40, &draws);
    assert_eq!(count_obstacles(&flat), 0);
    assert_eq!(flat.get_tile(15, 0), TileType::Wall);
}

#[test]
fn outside_the_grid_everything_is_wall() {
    let map = GameMap::new(10, 10, 40, &Vec::new());
    assert_eq!(map.get_tile(10, 5), TileType::Wall);
    assert_eq!(map.get_tile(5, 10), TileType::Wall);
    assert_eq!(map.get_tile(usize::MAX, usize::MAX), TileType::Wall);
}

#[test]
fn getters_give_the_measures_back() {
    let map = GameMap::new(7, 5, 32, &Vec::new());
    assert_eq!(map.width(), 7);
    assert_eq!(map.height(), 5);
    assert_eq!(map.tile_size(), 32);
}

#[test]
fn walkable_means_empty_tile() {
    let map = GameMap::new(10, 10, 40, &vec![(HALF, HALF)]);
    assert!(map.is_walkable(60, 60));
    assert!(!map.is_walkable(0, 0));
    assert!(!map.is_walkable(39, 60));
    assert!(map.is_walkable(40, 40));
    assert!(map.is_walkable(359, 359));
    assert!(!map.is_walkable(360, 200));
    assert!(!map.is_walkable(200, 200));
    assert!(!map.is_walkable(239, 239));
    assert!(map.is_walkable(240, 239));
}

#[test]
fn coordinates_are_cut_off_toward_zero() {
    let map = GameMap::new(10, 10, 40, &Vec::new());
    assert!(map.is_walkable(79, 79));
    assert!(map.is_walkable(80, 80));
    assert!(!map.is_walkable(39, 39));
}

#[test]
fn points_off_the_map_are_not_walkable() {
    let map = GameMap::new(10, 10, 40, &Vec::new());
    assert!(!map.is_walkable(-1, 60));
    assert!(!map.is_walkable(60, -1));
    assert!(!map.is_walkable(i64::MIN, i64::MIN));
    assert!(!map.is_walkable(400, 60));
    assert!(!map.is_walkable(60, 400));
    assert!(!map.is_walkable(i64::MAX, i64::MAX));
}
