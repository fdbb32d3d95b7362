use treasure_hunt::game::{SPAWN, TILE_SIZE, TIME_LIMIT, TREASURE_COUNT};
use treasure_hunt::{AudioCommand, Draw, Game, GameState, Music, Sound};

const HALF: u32 = 0x8000_0000;

/// The smallest draw that picks the offset `offset` in a span of 320 units.
fn draw_for(offset: u64) -> u32 {
    ((offset * 0x1_0000_0000 + 319) / 320) as u32
}

/// A draw for a treasure at `(x, y)` in a world of 400 by 400 units.
fn treasure_at(x: u64, y: u64) -> Draw {
    (draw_for(x - 40), draw_for(y - 40))
}

/// A game on an open map of ten by ten tiles with treasures at the points.
fn game_with(points: &[(u64, u64)]) -> Game {
    let draws: Vec<Draw> = points.iter().map(|p| treasure_at(p.0, p.1)).collect();
    Game::new(400, 400, &Vec::new(), &draws)
}

fn far_treasures() -> Game {
    game_with(&[(300, 300), (300, 200)])
}

fn position(game: &Game) -> (i64, i64) {
    (game.player().x(), game.player().y())
}

fn closing(sound: Sound) -> Vec<AudioCommand> {
    vec![AudioCommand::StopMusic, AudioCommand::PlaySound(sound), AudioCommand::StopMusic]
}

#[test]
fn the_rules_have_their_numbers() {
    assert_eq!(TILE_SIZE, 40);
    assert_eq!(SPAWN, 60);
    assert_eq!(TIME_LIMIT, 60_000);
    assert_eq!(TREASURE_COUNT, 5);
    assert_eq!(Sound::Collect.name(), "collect");
    assert_eq!(Sound::Win.name(), "win");
    assert_eq!(Sound::TimeUp.name(), "timeup");
    assert_eq!(Music::Background.name(), "bgm");
}

#[test]
fn a_new_game_waits_at_the_beginning() {
    let game = far_treasures();
    assert!(!game.is_running());
    assert_eq!(game.get_state(), GameState::Playing);
    assert_eq!(game.get_game_time(), 0);
    assert_eq!(game.get_remaining_time(), 60_000);
    assert_eq!(game.get_best_time(), None);
    assert_eq!(game.get_score(), 0);
    assert_eq!(position(&game), (60, 60));
    assert_eq!(game.player().size(), 20);
    assert_eq!(game.get_map_width(), 10);
    assert_eq!(game.get_map_height(), 10);
    assert_eq!(game.get_map_tile_size(), 40);
    assert_eq!(game.get_treasure_count(), 2);
    assert_eq!((game.get_treasure_x(0), game.get_treasure_y(0)), (Some(300), Some(300)));
    assert_eq!((game.get_treasure_x(1), game.get_treasure_y(1)), (Some(300), Some(200)));
    assert_eq!(game.get_treasure_x(2), None);
    assert!(!game.is_treasure_collected(0));
    assert!(game.is_treasure_collected(2));
}

#[test]
fn the_map_has_whole_tiles_only() {
    let game = Game::new(439, 95, &Vec::new(), &Vec::new());
    assert_eq!(game.get_map_width(), 10);
    assert_eq!(game.get_map_height(), 2);
    let smallest = Game::new(40, 40, &Vec::new(), &Vec::new());
    assert_eq!(smallest.get_map_width(), 1);
    assert_eq!(smallest.get_map_tile(0, 0), 1);
}

#[test]
fn tiles_are_told_by_number() {
    let game = Game::new(400, 400, &vec![(HALF, HALF)], &Vec::new());
    assert_eq!(game.get_map_tile(1, 1), 0);
    assert_eq!(game.get_map_tile(0, 0), 1);
    assert_eq!(game.get_map_tile(9, 4), 1);
    assert_eq!(game.get_map_tile(5, 5), 2);
    assert_eq!(game.get_map_tile(10, 5), 1);
    assert_eq!(game.get_map_tile(5, 1000), 1);
}

#[test]
fn a_new_game_places_at_most_five_treasures() {
    let mut draws: Vec<Draw> = Vec::new();
    for i in 0..8 {
        draws.push(treasure_at(100 + 20 * i, 300));
    }
    let game = Game::new(400, 400, &Vec::new(), &draws);
    assert_eq!(game.get_treasure_count(), 5);
    assert_eq!(game.get_treasure_x(4), Some(180));
    let none = Game::new(400, 400, &Vec::new(), &Vec::new());
    assert_eq!(none.get_treasure_count(), 0);
}

#[test]
fn treasures_are_drawn_over_the_whole_world_not_the_whole_tiles() {
    // A world of 430 units has ten tiles a side and a span of 350 for treasures.
    let game = Game::new(430, 430, &Vec::new(), &vec![(HALF, HALF)]);
    assert_eq!((game.get_treasure_x(0), game.get_treasure_y(0)), (Some(215), Some(215)));
}

#[test]
fn start_runs_the_clock_from_zero_and_asks_for_music() {
    let mut game = far_treasures();
    let commands = game.start();
    assert_eq!(commands, vec![AudioCommand::PlayMusic(Music::Background)]);
    assert!(game.is_running());
    assert_eq!(game.get_game_time(), 0);
    assert_eq!(game.get_state(), GameState::Playing);
}

#[test]
fn stop_is_idempotent() {
    let mut game = far_treasures();
    assert_eq!(game.stop(), vec![AudioCommand::StopMusic]);
    assert!(!game.is_running());
    game.start();
    assert_eq!(game.stop(), vec![AudioCommand::StopMusic]);
    assert_eq!(game.stop(), vec![AudioCommand::StopMusic]);
    assert!(!game.is_running());
    assert_eq!(game.get_state(), GameState::Playing);
}

#[test]
fn a_game_that_is_not_running_ignores_ticks() {
    let mut game = far_treasures();
    game.handle_key_down("ArrowRight".to_string());
    assert!(game.update(Some(0)).is_empty());
    assert!(game.update(Some(100_000)).is_empty());
    assert_eq!(game.get_game_time(), 0);
    assert_eq!(position(&game), (60, 60));
    assert_eq!(game.get_state(), GameState::Playing);
}

#[test]
fn the_first_tick_only_sets_the_clock() {
    let mut game = far_treasures();
    game.start();
    game.handle_key_down("ArrowRight".to_string());
    assert!(game.update(Some(5000)).is_empty());
    assert_eq!(game.get_game_time(), 0);
    assert_eq!(position(&game), (60, 60));
    assert!(game.update(Some(5016)).is_empty());
    assert_eq!(game.get_game_time(), 16);
    assert_eq!(position(&game), (65, 60));
}

#[test]
fn a_first_tick_at_zero_sets_the_clock_too() {
    let mut game = far_treasures();
    game.start();
    game.update(Some(0));
    game.handle_key_down("ArrowRight".to_string());
    game.update(Some(16));
    assert_eq!(position(&game), (65, 60));
    assert_eq!(game.get_game_time(), 16);
    assert_eq!(game.get_remaining_time(), 59_984);
}

#[test]
fn each_arrow_moves_five_units() {
    let mut game = far_treasures();
    game.start();
    game.update(Some(0));
    game.handle_key_down("ArrowDown".to_string());
    game.update(Some(16));
    assert_eq!(position(&game), (60, 65));
    game.handle_key_up("ArrowDown".to_string());
    game.handle_key_down("ArrowLeft".to_string());
    game.update(Some(32));
    assert_eq!(position(&game), (55, 65));
    game.handle_key_up("ArrowLeft".to_string());
    game.handle_key_down("ArrowUp".to_string());
    game.update(Some(48));
    assert_eq!(position(&game), (55, 60));
    game.handle_key_up("ArrowUp".to_string());
    game.update(Some(64));
    assert_eq!(position(&game), (55, 60));
}

#[test]
fn two_arrows_move_diagonally_at_full_speed() {
    let mut game = far_treasures();
    game.start();
    game.update(Some(0));
    game.handle_key_down("ArrowRight".to_string());
    game.handle_key_down("ArrowDown".to_string());
    game.update(Some(16));
    assert_eq!(position(&game), (65, 65));
}

#[test]
fn opposite_arrows_cancel() {
    let mut game = far_treasures();
    game.start();
    game.update(Some(0));
    game.handle_key_down("ArrowRight".to_string());
    game.handle_key_down("ArrowLeft".to_string());
    game.handle_key_down("ArrowUp".to_string());
    game.update(Some(16));
    assert_eq!(position(&game), (60, 55));
}

#[test]
fn other_keys_move_nothing() {
    let mut game = far_treasures();
    game.start();
    game.update(Some(0));
    game.handle_key_down("a".to_string());
    game.handle_key_down("arrowright".to_string());
    game.handle_key_down("".to_string());
    game.update(Some(16));
    assert_eq!(position(&game), (60, 60));
}

#[test]
fn pressing_twice_is_pressing_once() {
    let mut game = far_treasures();
    game.start();
    game.update(Some(0));
    game.handle_key_down("ArrowRight".to_string());
    game.handle_key_down("ArrowRight".to_string());
    game.update(Some(16));
    assert_eq!(position(&game), (65, 60));
    game.handle_key_up("ArrowRight".to_string());
    game.update(Some(32));
    assert_eq!(position(&game), (65, 60));
}

#[test]
fn releasing_a_key_that_is_not_held_changes_nothing() {
    let mut game = far_treasures();
    game.start();
    game.update(Some(0));
    game.handle_key_up("ArrowRight".to_string());
    game.handle_key_down("ArrowDown".to_string());
    game.handle_key_up("ArrowUp".to_string());
    game.update(Some(16));
    assert_eq!(position(&game), (60, 65));
}

#[test]
fn a_wall_stops_the_whole_move() {
    let mut game = far_treasures();
    game.start();
    game.update(Some(0));
    game.handle_key_down("ArrowLeft".to_string());
    for frame in 1..=4 {
        game.update(Some(16 * frame));
    }
    assert_eq!(position(&game), (40, 60));
    game.update(Some(80));
    assert_eq!(position(&game), (40, 60));
    // With a second key the move is still refused as a whole: no sliding.
    game.handle_key_down("ArrowDown".to_string());
    game.update(Some(96));
    assert_eq!(position(&game), (40, 60));
    game.handle_key_up("ArrowLeft".to_string());
    game.update(Some(112));
    assert_eq!(position(&game), (40, 65));
    assert_eq!(game.get_game_time(), 112);
}

#[test]
fn the_far_corners_count_as_well() {
    // An obstacle on tile (3, 1): the box may reach up to 119 on the x axis.
    let obstacle: Draw = (0x4000_0000, 0);
    let mut game = Game::new(400, 400, &vec![obstacle], &vec![treasure_at(300, 300)]);
    assert_eq!(game.get_map_tile(3, 1), 2);
    game.start();
    game.update(Some(0));
    game.handle_key_down("ArrowRight".to_string());
    for frame in 1..=7 {
        game.update(Some(16 * frame));
    }
    assert_eq!(position(&game), (95, 60));
    game.update(Some(200));
    assert_eq!(position(&game), (95, 60));
}

#[test]
fn a_tick_without_a_timestamp_forgets_the_last_frame() {
    let mut game = far_treasures();
    game.start();
    game.handle_key_down("ArrowRight".to_string());
    game.update(Some(0));
    game.update(Some(1000));
    assert_eq!(game.get_game_time(), 1000);
    assert_eq!(position(&game), (65, 60));
    assert!(game.update(None).is_empty());
    assert_eq!(game.get_game_time(), 1000);
    assert_eq!(position(&game), (65, 60));
    assert!(game.is_running());
    game.update(Some(50_000));
    assert_eq!(game.get_game_time(), 1000);
    assert_eq!(position(&game), (65, 60));
    game.update(Some(50_016));
    assert_eq!(game.get_game_time(), 1016);
    assert_eq!(position(&game), (70, 60));
}

#[test]
fn the_round_is_lost_when_the_time_reaches_the_limit() {
    let mut game = far_treasures();
    game.start();
    game.handle_key_down("ArrowRight".to_string());
    game.update(Some(0));
    assert!(game.update(Some(59_999)).is_empty());
    assert_eq!(game.get_state(), GameState::Playing);
    assert_eq!(game.get_remaining_time(), 1);
    assert_eq!(position(&game), (65, 60));
    let commands = game.update(Some(60_000));
    assert_eq!(commands, closing(Sound::TimeUp));
    assert_eq!(game.get_state(), GameState::TimeUp);
    assert!(!game.is_running());
    assert_eq!(game.get_game_time(), 60_000);
    assert_eq!(game.get_remaining_time(), 0);
    assert_eq!(position(&game), (65, 60));
    assert_eq!(game.get_best_time(), None);
    assert!(game.update(Some(60_016)).is_empty());
    assert_eq!(game.get_game_time(), 60_000);
    assert_eq!(position(&game), (65, 60));
}

#[test]
fn nothing_is_collected_on_the_tick_that_runs_out() {
    // The treasure lies where the next step would take the player.
    let mut game = game_with(&[(95, 70), (300, 300)]);
    game.start();
    game.handle_key_down("ArrowRight".to_string());
    game.update(Some(0));
    let commands = game.update(Some(70_000));
    assert_eq!(commands, closing(Sound::TimeUp));
    assert_eq!(game.get_game_time(), 70_000);
    assert_eq!(game.get_remaining_time(), 0);
    assert_eq!(game.get_score(), 0);
    assert!(!game.is_treasure_collected(0));
    assert_eq!(position(&game), (60, 60));
}

#[test]
fn time_adds_up_over_the_frames() {
    let mut game = far_treasures();
    game.start();
    game.update(Some(1_000));
    let mut now = 1_000;
    for _ in 0..599 {
        now += 100;
        assert!(game.update(Some(now)).is_empty());
    }
    assert_eq!(game.get_game_time(), 59_900);
    assert_eq!(game.get_state(), GameState::Playing);
    assert_eq!(game.update(Some(now + 100)), closing(Sound::TimeUp));
    assert_eq!(game.get_game_time(), 60_000);
    assert_eq!(game.get_state(), GameState::TimeUp);
}

#[test]
fn a_timestamp_from_the_past_takes_time_back() {
    let mut game = far_treasures();
    game.start();
    game.update(Some(1_000));
    game.update(Some(3_000));
    assert_eq!(game.get_game_time(), 2_000);
    game.update(Some(500));
    assert_eq!(game.get_game_time(), -500);
    assert_eq!(game.get_remaining_time(), 60_500);
    game.update(Some(1_500));
    assert_eq!(game.get_game_time(), 500);
}

#[test]
fn the_clock_stops_at_the_ends_of_its_range() {
    let mut game = far_treasures();
    game.start();
    game.update(Some(i64::MIN));
    assert_eq!(game.update(Some(i64::MAX)), closing(Sound::TimeUp));
    assert_eq!(game.get_game_time(), i64::MAX);
    assert_eq!(game.get_remaining_time(), 0);

    let mut game = far_treasures();
    game.start();
    game.update(Some(i64::MAX));
    assert!(game.update(Some(i64::MIN)).is_empty());
    assert_eq!(game.get_game_time(), i64::MIN);
    assert_eq!(game.get_remaining_time(), i64::MAX);
    assert!(game.is_running());
}

#[test]
fn a_treasure_in_reach_is_collected_with_a_sound() {
    let mut game = game_with(&[(95, 70), (300, 300)]);
    game.start();
    game.handle_key_down("ArrowRight".to_string());
    game.update(Some(0));
    // Centre at (75, 70): 20 away, which is not close enough.
    assert!(game.update(Some(16)).is_empty());
    assert_eq!(game.get_score(), 0);
    // Centre at (80, 70): 15 away.
    let commands = game.update(Some(32));
    assert_eq!(commands, vec![AudioCommand::PlaySound(Sound::Collect)]);
    assert_eq!(game.get_score(), 10);
    assert!(game.is_treasure_collected(0));
    assert!(!game.is_treasure_collected(1));
    assert_eq!(game.get_state(), GameState::Playing);
    assert!(game.is_running());
    assert!(game.update(Some(48)).is_empty());
    assert_eq!(game.get_score(), 10);
    assert!(game.is_treasure_collected(0));
}

#[test]
fn collection_is_checked_where_a_refused_move_leaves_the_player() {
    let mut game = game_with(&[(50, 70), (300, 300)]);
    game.start();
    game.handle_key_down("ArrowLeft".to_string());
    game.update(Some(0));
    for frame in 1..=4 {
        game.update(Some(16 * frame));
    }
    assert_eq!(position(&game), (40, 60));
    assert_eq!(game.get_score(), 10);
}

#[test]
fn the_last_treasure_wins_the_round_on_the_same_tick() {
    let mut game = game_with(&[(70, 70)]);
    game.start();
    assert!(game.update(Some(100)).is_empty());
    assert_eq!(game.get_state(), GameState::Playing);
    let commands = game.update(Some(116));
    let mut expected = vec![AudioCommand::PlaySound(Sound::Collect)];
    expected.extend(closing(Sound::Win));
    assert_eq!(commands, expected);
    assert_eq!(game.get_state(), GameState::Won);
    assert!(!game.is_running());
    assert_eq!(game.get_score(), 10);
    assert_eq!(game.get_game_time(), 16);
    assert_eq!(game.get_best_time(), Some(16));
    assert!(game.update(Some(132)).is_empty());
    assert_eq!(game.get_game_time(), 16);
}

#[test]
fn a_round_without_treasures_is_won_at_once() {
    let mut game = Game::new(400, 400, &Vec::new(), &Vec::new());
    game.start();
    assert!(game.update(Some(0)).is_empty());
    assert_eq!(game.update(Some(16)), closing(Sound::Win));
    assert_eq!(game.get_state(), GameState::Won);
    assert_eq!(game.get_best_time(), Some(16));
    assert_eq!(game.get_score(), 0);
}

#[test]
fn the_best_time_is_the_shortest_win() {
    let one: Vec<Draw> = vec![treasure_at(70, 70)];
    let mut game = Game::new(400, 400, &Vec::new(), &one);
    game.start();
    game.update(Some(0));
    game.update(Some(500));
    assert_eq!(game.get_best_time(), Some(500));

    game.reset(&one);
    assert_eq!(game.get_best_time(), Some(500));
    game.start();
    game.update(Some(1_000));
    game.update(Some(1_900));
    assert_eq!(game.get_state(), GameState::Won);
    assert_eq!(game.get_game_time(), 900);
    assert_eq!(game.get_best_time(), Some(500));

    game.reset(&one);
    game.start();
    game.update(Some(5_000));
    game.update(Some(5_499));
    assert_eq!(game.get_best_time(), Some(499));

    game.reset(&one);
    game.start();
    game.update(Some(9_000));
    game.update(Some(9_499));
    assert_eq!(game.get_best_time(), Some(499));
}

#[test]
fn reset_begins_a_new_round_on_the_same_map() {
    let map_draws: Vec<Draw> = vec![(HALF, HALF), (u32::MAX, 0)];
    let mut game = Game::new(400, 400, &map_draws, &vec![treasure_at(95, 70), treasure_at(300, 300)]);
    game.start();
    game.handle_key_down("ArrowRight".to_string());
    game.update(Some(0));
    game.update(Some(16));
    game.update(Some(32));
    assert_eq!(game.get_score(), 10);
    game.set_first_timestamp(7);

    game.reset(&vec![treasure_at(100, 300), treasure_at(200, 300), treasure_at(300, 100)]);
    assert!(!game.is_running());
    assert_eq!(game.get_state(), GameState::Playing);
    assert_eq!(game.get_game_time(), 0);
    assert_eq!(game.get_score(), 0);
    assert_eq!(position(&game), (60, 60));
    assert_eq!(game.get_treasure_count(), 3);
    assert_eq!((game.get_treasure_x(0), game.get_treasure_y(0)), (Some(100), Some(300)));
    assert!(!game.is_treasure_collected(0));
    assert_eq!(game.get_map_tile(5, 5), 2);
    assert_eq!(game.get_map_tile(8, 1), 2);
    assert_eq!(game.get_map_tile(4, 4), 0);

    // No key is held any more.
    game.start();
    game.update(Some(0));
    game.update(Some(16));
    assert_eq!(position(&game), (60, 60));
}

#[test]
fn reset_after_a_lost_round_plays_again() {
    let mut game = far_treasures();
    game.start();
    game.update(Some(0));
    game.update(Some(60_000));
    assert_eq!(game.get_state(), GameState::TimeUp);
    game.reset(&vec![treasure_at(70, 70)]);
    assert_eq!(game.get_state(), GameState::Playing);
    assert_eq!(game.get_remaining_time(), 60_000);
    game.start();
    game.update(Some(70_000));
    game.update(Some(70_016));
    assert_eq!(game.get_state(), GameState::Won);
    assert_eq!(game.get_best_time(), Some(16));
}

#[test]
fn reset_rejects_points_on_obstacles_of_the_kept_map() {
    let mut game = Game::new(400, 400, &vec![(HALF, HALF)], &Vec::new());
    game.reset(&vec![treasure_at(200, 200), treasure_at(239, 239), treasure_at(240, 239)]);
    assert_eq!(game.get_treasure_count(), 1);
    assert_eq!((game.get_treasure_x(0), game.get_treasure_y(0)), (Some(240), Some(239)));
}

#[test]
fn start_begins_the_clock_anew() {
    let mut game = far_treasures();
    game.start();
    game.update(Some(0));
    game.update(Some(30_000));
    game.stop();
    assert!(game.update(Some(40_000)).is_empty());
    assert_eq!(game.get_game_time(), 30_000);
    game.start();
    assert_eq!(game.get_game_time(), 0);
    assert!(game.update(Some(90_000)).is_empty());
    assert_eq!(game.get_game_time(), 0);
    game.update(Some(90_100));
    assert_eq!(game.get_game_time(), 100);
    assert_eq!(game.get_state(), GameState::Playing);
}

#[test]
fn update_player_moves_and_collects_whether_or_not_the_game_runs() {
    let mut game = game_with(&[(95, 70), (300, 300)]);
    game.handle_key_down("ArrowRight".to_string());
    assert!(game.update_player().is_empty());
    assert_eq!(position(&game), (65, 60));
    assert_eq!(game.update_player(), vec![AudioCommand::PlaySound(Sound::Collect)]);
    assert_eq!(position(&game), (70, 60));
    assert_eq!(game.get_score(), 10);
    assert_eq!(game.get_game_time(), 0);
    assert_eq!(game.get_state(), GameState::Playing);
}

#[test]
fn the_scenario_of_a_short_game() {
    let mut map_draws: Vec<Draw> = Vec::new();
    let mut r: u32 = 2024;
    for _ in 0..1000 {
        r = r.wrapping_mul(1664525).wrapping_add(1013904223);
        let a = r;
        r = r.wrapping_mul(1664525).wrapping_add(1013904223);
        map_draws.push((a, r));
    }
    let treasure_draws: Vec<Draw> = map_draws.iter().map(|d| (d.1, d.0)).collect();
    let mut game = Game::new(400, 400, &map_draws, &treasure_draws);
    assert_eq!(game.get_map_tile(0, 0), 1);
    assert_ne!(game.get_map_tile(5, 5), 1);
    let mut obstacles = 0;
    for y in 0..10 {
        for x in 0..10 {
            let code = game.get_map_tile(x, y);
            if x == 0 || y == 0 || x == 9 || y == 9 {
                assert_eq!(code, 1);
            } else {
                assert_ne!(code, 1);
            }
            if code == 2 {
                obstacles += 1;
            }
        }
    }
    assert_eq!(obstacles, 10);
    assert_eq!(game.get_treasure_count(), 5);
    for i in 0..5 {
        let x = game.get_treasure_x(i).unwrap();
        let y = game.get_treasure_y(i).unwrap();
        assert_eq!(game.get_map_tile((x / 40) as usize, (y / 40) as usize), 0);
    }

    game.start();
    game.update(Some(0));
    assert_eq!(position(&game), (60, 60));
    game.handle_key_down("ArrowRight".to_string());
    game.update(Some(16));
    // The box at (65, 60) lies within the spawn area, which is always free.
    assert_eq!(position(&game), (65, 60));
    game.handle_key_up("ArrowRight".to_string());
    let before = game.get_score();
    let mut now = 16;
    while game.is_running() {
        now += 1_000;
        game.update(Some(now));
    }
    assert_eq!(game.get_score(), before);
    assert_eq!(game.get_state(), GameState::TimeUp);
    assert_eq!(game.get_game_time(), 60_016);
    assert_eq!(position(&game), (65, 60));
}
