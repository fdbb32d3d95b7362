//! The game: one player on one map, treasures to collect, a clock that runs
//! out. A tick is a function from the state and a timestamp to the next
//! state and the audio commands it gives rise to.

use vstd::prelude::*;
use crate::audio::{AudioCommand, Music, Sound};
use crate::draw::Draw;
use crate::map::{generated_tiles, well_shaped, GameMap, TileType};
use crate::player::{Player, PLAYER_SIZE, PLAYER_SPEED};
use crate::treasure::{
    all_collected,
    collect_all,
    collected_count,
    freshly_placed,
    lemma_collect_all_count,
    lemma_newly_collected_bound,
    newly_collected,
    placed_treasures,
    TreasureManager,
    TreasureModel,
    SCORE_PER_TREASURE,
};

verus! {

/// The side length of a tile, in world units.
pub const TILE_SIZE: i64 = 40;

/// Where the player starts on both axes: one and a half tiles in.
pub const SPAWN: i64 = 60;

/// The time a round may take, in milliseconds.
pub const TIME_LIMIT: i64 = 60_000;

/// How many treasures a round aims to place.
pub const TREASURE_COUNT: u32 = 5;

/// How a round stands.
#[derive(Clone, Copy, PartialEq, Eq, Structural, Debug)]
pub enum GameState {
    Playing,
    Won,
    TimeUp,
}

/// The game as a mathematical value.
#[verifier::ext_equal]
pub struct GameModel {
    /// The extent of the world, in world units.
    pub width: int,
    pub height: int,
    pub running: bool,
    /// The timestamp of the last frame, if one was seen since the start.
    pub anchor: Option<int>,
    pub player_x: int,
    pub player_y: int,
    pub map: GameMap,
    /// The names of the keys that are held down.
    pub held_keys: Set<Seq<char>>,
    pub treasures: Seq<TreasureModel>,
    pub score: int,
    pub state: GameState,
    /// The time played in this round, in milliseconds.
    pub elapsed: int,
    pub time_limit: int,
    /// The shortest time in which a round was won.
    pub best_time: Option<int>,
    pub first_timestamp: Option<int>,
}

/// The whole number as an optional mathematical integer.
pub open spec fn as_int(value: Option<i64>) -> Option<int> {
    match value {
        Some(v) => Some(v as int),
        None => None,
    }
}

/// A time cut off at the ends of what the clock can hold.
pub open spec fn clamp_time(t: int) -> int {
    if t < i64::MIN {
        i64::MIN as int
    } else if t > i64::MAX {
        i64::MAX as int
    } else {
        t
    }
}

/// How far the held keys move the player along one axis: a step forward for
/// the one key, a step back for the other, both if both are held.
pub open spec fn key_offset(held: Set<Seq<char>>, forward: Seq<char>, backward: Seq<char>) -> int {
    (if held.contains(forward) {
        PLAYER_SPEED as int
    } else {
        0
    }) - (if held.contains(backward) {
        PLAYER_SPEED as int
    } else {
        0
    })
}

/// Where the held keys would take the player. The axes add up, so two keys
/// move the player diagonally by a full step on each axis.
pub open spec fn candidate(g: GameModel) -> (int, int) {
    (
        g.player_x + key_offset(g.held_keys, "ArrowRight"@, "ArrowLeft"@),
        g.player_y + key_offset(g.held_keys, "ArrowDown"@, "ArrowUp"@),
    )
}

/// All four corners of the player's box, with its upper left corner at
/// `(x, y)`, lie on walkable points.
pub open spec fn box_is_free(map: GameMap, x: int, y: int) -> bool {
    &&& map.walkable_at(x, y)
    &&& map.walkable_at(x + PLAYER_SIZE, y)
    &&& map.walkable_at(x, y + PLAYER_SIZE)
    &&& map.walkable_at(x + PLAYER_SIZE, y + PLAYER_SIZE)
}

/// Where the player stands after the move: at the candidate if its box is
/// free, else where it stood.
pub open spec fn moved(g: GameModel) -> (int, int) {
    let (x, y) = candidate(g);
    if box_is_free(g.map, x, y) {
        (x, y)
    } else {
        (g.player_x, g.player_y)
    }
}

/// The player's part of a tick: the move, then the collection at the place
/// reached, with a sound if anything was collected.
pub open spec fn step_player(g: GameModel) -> (GameModel, Seq<AudioCommand>) {
    let (x, y) = moved(g);
    let picked = newly_collected(g.treasures, x, y, PLAYER_SIZE as int);
    (
        GameModel {
            player_x: x,
            player_y: y,
            treasures: collect_all(g.treasures, x, y, PLAYER_SIZE as int),
            score: g.score + SCORE_PER_TREASURE * picked,
            ..g
        },
        if picked > 0 {
            seq![AudioCommand::PlaySound(Sound::Collect)]
        } else {
            Seq::empty()
        },
    )
}

/// The commands that end a round with the given sound: the music stops, the
/// sound plays, and stopping the game stops the music once more.
pub open spec fn closing_commands(sound: Sound) -> Seq<AudioCommand> {
    seq![AudioCommand::StopMusic, AudioCommand::PlaySound(sound), AudioCommand::StopMusic]
}

/// The shorter of the best time so far, if there is one, and `elapsed`.
pub open spec fn improved_best(best: Option<int>, elapsed: int) -> int {
    match best {
        Some(b) => if elapsed < b {
            elapsed
        } else {
            b
        },
        None => elapsed,
    }
}

/// The time played after a frame at `timestamp` that follows one at `anchor`.
pub open spec fn advanced(elapsed: int, anchor: int, timestamp: int) -> int {
    clamp_time(elapsed + (timestamp - anchor))
}

/// One tick. A game that is not running ignores it. A tick without a valid
/// timestamp forgets the last frame; the first valid one after that only
/// records its timestamp. Every later one adds the time since the last frame
/// to the time played. If the limit is then reached the round is lost and the
/// game stops, and nothing moves. Otherwise the player moves and collects, and
/// if no treasure is left the round is won and the game stops.
pub open spec fn tick(g: GameModel, timestamp: Option<i64>) -> (GameModel, Seq<AudioCommand>) {
    if !g.running {
        (g, Seq::empty())
    } else if timestamp is None {
        (GameModel { anchor: None, ..g }, Seq::empty())
    } else if g.anchor is None {
        (GameModel { anchor: Some(timestamp->0 as int), ..g }, Seq::empty())
    } else {
        let elapsed = advanced(g.elapsed, g.anchor->0, timestamp->0 as int);
        let timed = GameModel { anchor: Some(timestamp->0 as int), elapsed, ..g };
        if elapsed >= g.time_limit {
            (
                GameModel { state: GameState::TimeUp, running: false, ..timed },
                closing_commands(Sound::TimeUp),
            )
        } else {
            let (played, sounds) = step_player(timed);
            if all_collected(played.treasures) {
                (
                    GameModel {
                        state: GameState::Won,
                        best_time: Some(improved_best(g.best_time, elapsed)),
                        running: false,
                        ..played
                    },
                    sounds + closing_commands(Sound::Win),
                )
            } else {
                (played, sounds)
            }
        }
    }
}

/// The time that is left on the clock, never below zero.
pub open spec fn remaining_time(g: GameModel) -> int {
    if g.time_limit - g.elapsed < 0 {
        0
    } else {
        clamp_time(g.time_limit - g.elapsed)
    }
}

/// The number that stands for a tile towards a renderer.
pub open spec fn tile_code(tile: TileType) -> int {
    match tile {
        TileType::Empty => 0,
        TileType::Wall => 1,
        TileType::Obstacle => 2,
    }
}

/// The names of the keys in `keys`.
pub open spec fn key_names(keys: Seq<String>) -> Set<Seq<char>> {
    Set::new(|name: Seq<char>| exists|i: int| 0 <= i < keys.len() && (#[trigger] keys[i])@ == name)
}

/// A move is all or nothing: where a corner of the candidate box is not
/// walkable, the player's part of a tick leaves the player where it was.
pub proof fn lemma_blocked_move_keeps_position(g: GameModel)
    requires
        !box_is_free(g.map, candidate(g).0, candidate(g).1),
    ensures
        step_player(g).0.player_x == g.player_x,
        step_player(g).0.player_y == g.player_y,
{
}

/// A tick never moves the player anywhere but to the candidate, and there
/// only if the candidate box is free.
pub proof fn lemma_tick_position(g: GameModel, timestamp: Option<i64>)
    ensures
        ({
            let after = tick(g, timestamp).0;
            ||| (after.player_x == g.player_x && after.player_y == g.player_y)
            ||| (box_is_free(g.map, candidate(g).0, candidate(g).1) && (
            after.player_x,
            after.player_y,
        ) == candidate(g))
        }),
{
}

/// The tick on which the time played reaches the limit ends the round as
/// lost and stops the game; on that tick the player does not move and nothing
/// is collected or scored.
pub proof fn lemma_tick_time_up(g: GameModel, timestamp: i64)
    requires
        g.running,
        g.anchor is Some,
        advanced(g.elapsed, g.anchor->0, timestamp as int) >= g.time_limit,
    ensures
        ({
            let (after, commands) = tick(g, Some(timestamp));
            &&& after.state == GameState::TimeUp
            &&& !after.running
            &&& after.elapsed == advanced(g.elapsed, g.anchor->0, timestamp as int)
            &&& after.player_x == g.player_x
            &&& after.player_y == g.player_y
            &&& after.treasures == g.treasures
            &&& after.score == g.score
            &&& after.best_time == g.best_time
            &&& commands == closing_commands(Sound::TimeUp)
        }),
{
}

/// The tick that collects the last treasure within the time limit ends the
/// round as won and stops the game, and the best time becomes the shorter of
/// the time played and the best time before, if there was one.
pub proof fn lemma_tick_won(g: GameModel, timestamp: i64)
    requires
        g.running,
        g.anchor is Some,
        advanced(g.elapsed, g.anchor->0, timestamp as int) < g.time_limit,
        all_collected(
            collect_all(
                g.treasures,
                moved(g).0,
                moved(g).1,
                PLAYER_SIZE as int,
            ),
        ),
    ensures
        ({
            let after = tick(g, Some(timestamp)).0;
            let elapsed = advanced(g.elapsed, g.anchor->0, timestamp as int);
            &&& after.state == GameState::Won
            &&& !after.running
            &&& after.elapsed == elapsed
            &&& after.best_time == Some(improved_best(g.best_time, elapsed))
            &&& after.best_time->0 <= elapsed
            &&& g.best_time is Some ==> after.best_time->0 <= g.best_time->0
        }),
{
    let elapsed = advanced(g.elapsed, g.anchor->0, timestamp as int);
    let timed = GameModel { anchor: Some(timestamp as int), elapsed, ..g };
    assert(candidate(timed) == candidate(g));
    assert(moved(timed) == moved(g));
}

/// A tick changes how the round stands only by ending it: the round is then
/// won or lost and the game no longer runs. A game that is not running is
/// left as it is.
pub proof fn lemma_tick_state(g: GameModel, timestamp: Option<i64>)
    ensures
        ({
            let after = tick(g, timestamp).0;
            &&& !g.running ==> after == g
            &&& after.state != g.state ==> g.running && !after.running && (after.state
                == GameState::Won || after.state == GameState::TimeUp)
            &&& after.running ==> g.running && after.state == g.state && after.best_time
                == g.best_time
            &&& after.map == g.map
            &&& after.held_keys == g.held_keys
        }),
{
}

/// A tick never takes a treasure back and never lowers the score; the score
/// grows by ten for each treasure that the tick collects.
pub proof fn lemma_tick_collection_monotonic(g: GameModel, timestamp: Option<i64>)
    ensures
        ({
            let after = tick(g, timestamp).0;
            &&& after.treasures.len() == g.treasures.len()
            &&& forall|i: int|
                0 <= i < g.treasures.len() && g.treasures[i].collected ==> (
                #[trigger] after.treasures[i]).collected
            &&& after.score >= g.score
            &&& after.score - g.score == SCORE_PER_TREASURE * (collected_count(after.treasures)
                - collected_count(g.treasures))
        }),
{
    let elapsed = advanced(g.elapsed, g.anchor->0, timestamp->0 as int);
    let timed = GameModel { anchor: Some(timestamp->0 as int), elapsed, ..g };
    let (x, y) = moved(timed);
    lemma_collect_all_count(g.treasures, x, y, PLAYER_SIZE as int);
}

/// One game.
pub struct Game {
    width: u32,
    height: u32,
    is_running: bool,
    last_frame_time: Option<i64>,
    player: Player,
    map: GameMap,
    keys_pressed: Vec<String>,
    treasure_manager: TreasureManager,
    state: GameState,
    game_time: i64,
    time_limit: i64,
    best_time: Option<i64>,
    first_timestamp: Option<i64>,
}

impl View for Game {
    type V = GameModel;

    closed spec fn view(&self) -> GameModel {
        GameModel {
            width: self.width as int,
            height: self.height as int,
            running: self.is_running,
            anchor: as_int(self.last_frame_time),
            player_x: self.player.position().x as int,
            player_y: self.player.position().y as int,
            map: self.map,
            held_keys: key_names(self.keys_pressed@),
            treasures: self.treasure_manager.treasures(),
            score: self.treasure_manager.spec_score() as int,
            state: self.state,
            elapsed: self.game_time as int,
            time_limit: self.time_limit as int,
            best_time: as_int(self.best_time),
            first_timestamp: as_int(self.first_timestamp),
        }
    }
}

/// What holds of every game: the clock's limit, the map's shape and its
/// measure against the world's, the player within the world, and a score that
/// the collected treasures account for.
pub open spec fn well_formed(g: GameModel) -> bool {
    &&& g.time_limit == TIME_LIMIT
    &&& well_shaped(g.map.tiles(), g.map.spec_width() as int, g.map.spec_height() as int)
    &&& 0 <= g.width <= u32::MAX
    &&& 0 <= g.height <= u32::MAX
    &&& g.map.spec_tile_size() == TILE_SIZE
    &&& g.map.spec_width() == g.width / (TILE_SIZE as int)
    &&& g.map.spec_height() == g.height / (TILE_SIZE as int)
    &&& 0 <= g.player_x <= u32::MAX
    &&& 0 <= g.player_y <= u32::MAX
    &&& g.treasures.len() <= TREASURE_COUNT
    &&& 0 <= g.score <= SCORE_PER_TREASURE * collected_count(g.treasures)
}

/// No name occurs twice among the keys.
spec fn distinct_keys(keys: Seq<String>) -> bool {
    forall|i: int, j: int| 0 <= i < j < keys.len() ==> (#[trigger] keys[i])@ != (#[trigger] keys[j])@
}

/// A box that is free lies within the world.
proof fn lemma_free_box_in_world(g: GameModel, x: int, y: int)
    requires
        well_formed(g),
        box_is_free(g.map, x, y),
    ensures
        0 <= x <= u32::MAX,
        0 <= y <= u32::MAX,
{
    let ts = TILE_SIZE as int;
    assert(x / ts < g.width / ts);
    assert(y / ts < g.height / ts);
}

/// The score that a check can add stays within what the treasures allow.
proof fn lemma_score_bound(g: GameModel, x: int, y: int)
    requires
        well_formed(g),
    ensures
        g.score + SCORE_PER_TREASURE * newly_collected(g.treasures, x, y, PLAYER_SIZE as int)
            <= SCORE_PER_TREASURE * collected_count(
            collect_all(g.treasures, x, y, PLAYER_SIZE as int),
        ),
        collected_count(collect_all(g.treasures, x, y, PLAYER_SIZE as int)) <= TREASURE_COUNT,
{
    let after = collect_all(g.treasures, x, y, PLAYER_SIZE as int);
    lemma_collect_all_count(g.treasures, x, y, PLAYER_SIZE as int);
    lemma_newly_collected_bound(g.treasures, x, y, PLAYER_SIZE as int);
}

/// Freshly placed treasures count none as collected.
proof fn lemma_fresh_none_collected(treasures: Seq<TreasureModel>, count: int, map: GameMap)
    requires
        freshly_placed(treasures, count, map),
    ensures
        collected_count(treasures) == 0,
    decreases treasures.len(),
{
    if treasures.len() > 0 {
        let shorter = treasures.drop_last();
        assert forall|i: int| 0 <= i < shorter.len() implies {
            let t = #[trigger] shorter[i];
            map.walkable_at(t.x, t.y) && t.x <= i64::MAX && t.y <= i64::MAX && t.size
                == crate::treasure::TREASURE_SIZE && !t.collected
        } by {
            assert(shorter[i] == treasures[i]);
        }
        lemma_fresh_none_collected(shorter, count, map);
        assert(!treasures[treasures.len() - 1].collected);
    }
}

impl Game {
    #[verifier::type_invariant]
    spec fn inv(self) -> bool {
        &&& well_formed(self@)
        &&& distinct_keys(self.keys_pressed@)
    }

    /// A new game on a world of `width` by `height` units: a fresh map of
    /// whole tiles, the player at the spawn point, up to five treasures, the
    /// clock at zero and not running.
    pub fn new(width: u32, height: u32, map_draws: &Vec<Draw>, treasure_draws: &Vec<Draw>) -> (game:
        Game)
        requires
            width >= TILE_SIZE,
            height >= TILE_SIZE,
            (width / (TILE_SIZE as u32)) * (height / (TILE_SIZE as u32)) <= usize::MAX,
        ensures
            well_formed(game@),
            game@.width == width,
            game@.height == height,
            !game@.running,
            game@.anchor is None,
            game@.player_x == SPAWN,
            game@.player_y == SPAWN,
            game@.map.tiles() == generated_tiles(
                width as int / (TILE_SIZE as int),
                height as int / (TILE_SIZE as int),
                map_draws@,
            ),
            game@.held_keys == Set::<Seq<char>>::empty(),
            game@.treasures == placed_treasures(
                TREASURE_COUNT as int,
                game@.map,
                width as int,
                height as int,
                TILE_SIZE as int,
                treasure_draws@,
            ),
            freshly_placed(game@.treasures, TREASURE_COUNT as int, game@.map),
            game@.score == 0,
            game@.state == GameState::Playing,
            game@.elapsed == 0,
            game@.best_time is None,
            game@.first_timestamp is None,
    {
        let map_width: usize = (width / (TILE_SIZE as u32)) as usize;
        let map_height: usize = (height / (TILE_SIZE as u32)) as usize;
        let map = GameMap::new(map_width, map_height, TILE_SIZE, map_draws);
        let player = Player::new(SPAWN, SPAWN);
        let mut treasure_manager = TreasureManager::new();
        treasure_manager.generate_treasures(
            TREASURE_COUNT,
            width as i64,
            height as i64,
            TILE_SIZE,
            &map,
            treasure_draws,
        );
        let keys_pressed: Vec<String> = Vec::new();
        proof {
            lemma_fresh_none_collected(
                treasure_manager.treasures(),
                TREASURE_COUNT as int,
                map,
            );
            assert(key_names(keys_pressed@) =~= Set::<Seq<char>>::empty());
        }
        Game {
            width,
            height,
            is_running: false,
            last_frame_time: None,
            player,
            map,
            keys_pressed,
            treasure_manager,
            state: GameState::Playing,
            game_time: 0,
            time_limit: TIME_LIMIT,
            best_time: None,
            first_timestamp: None,
        }
    }

    /// Starts the clock from zero and asks for the background music. The
    /// first tick after this only records its timestamp.
    pub fn start(&mut self) -> (commands: Vec<AudioCommand>)
        ensures
            final(self)@ == (GameModel {
                running: true,
                anchor: None,
                elapsed: 0,
                time_limit: TIME_LIMIT as int,
                ..old(self)@
            }),
            commands@ == seq![AudioCommand::PlayMusic(Music::Background)],
    {
        proof {
            use_type_invariant(&*self);
        }
        self.is_running = true;
        self.last_frame_time = None;
        self.game_time = 0;
        self.time_limit = TIME_LIMIT;
        let mut commands: Vec<AudioCommand> = Vec::new();
        commands.push(AudioCommand::PlayMusic(Music::Background));
        assert(self@ =~= (GameModel {
            running: true,
            anchor: None,
            elapsed: 0,
            time_limit: TIME_LIMIT as int,
            ..old(self)@
        }));
        commands
    }

    /// Stops the game and asks for the music to stop. Stopping a stopped
    /// game changes nothing and asks the same.
    pub fn stop(&mut self) -> (commands: Vec<AudioCommand>)
        ensures
            final(self)@ == (GameModel { running: false, ..old(self)@ }),
            commands@ == seq![AudioCommand::StopMusic],
    {
        proof {
            use_type_invariant(&*self);
        }
        self.is_running = false;
        let mut commands: Vec<AudioCommand> = Vec::new();
        commands.push(AudioCommand::StopMusic);
        assert(self@ =~= (GameModel { running: false, ..old(self)@ }));
        commands
    }

    /// One tick at `timestamp`, in milliseconds; `None` stands for a
    /// timestamp that is no number. Returns the audio commands of the tick,
    /// in order.
    pub fn update(&mut self, timestamp: Option<i64>) -> (commands: Vec<AudioCommand>)
        ensures
            final(self)@ == tick(old(self)@, timestamp).0,
            commands@ == tick(old(self)@, timestamp).1,
            well_formed(final(self)@),
            !old(self)@.running ==> final(self)@ == old(self)@ && commands@.len() == 0,
            // A move is all or nothing.
            !box_is_free(old(self)@.map, candidate(old(self)@).0, candidate(old(self)@).1) ==> {
                &&& final(self)@.player_x == old(self)@.player_x
                &&& final(self)@.player_y == old(self)@.player_y
            },
            // Nothing is taken back, and the score only grows, by ten a treasure.
            final(self)@.treasures.len() == old(self)@.treasures.len(),
            forall|i: int|
                0 <= i < old(self)@.treasures.len() && old(self)@.treasures[i].collected ==> (
                #[trigger] final(self)@.treasures[i]).collected,
            final(self)@.score - old(self)@.score == SCORE_PER_TREASURE * (collected_count(
                final(self)@.treasures,
            ) - collected_count(old(self)@.treasures)),
            final(self)@.score >= old(self)@.score,
            // The tick that reaches the limit loses the round and moves nothing.
            old(self)@.running && timestamp is Some && old(self)@.anchor is Some && advanced(
                old(self)@.elapsed,
                old(self)@.anchor->0,
                timestamp->0 as int,
            ) >= TIME_LIMIT ==> {
                &&& final(self)@.state == GameState::TimeUp
                &&& !final(self)@.running
                &&& final(self)@.player_x == old(self)@.player_x
                &&& final(self)@.player_y == old(self)@.player_y
                &&& final(self)@.treasures == old(self)@.treasures
                &&& final(self)@.score == old(self)@.score
                &&& commands@ == closing_commands(Sound::TimeUp)
            },
            // The tick that leaves no treasure in time wins the round.
            old(self)@.running && timestamp is Some && old(self)@.anchor is Some && advanced(
                old(self)@.elapsed,
                old(self)@.anchor->0,
                timestamp->0 as int,
            ) < TIME_LIMIT && all_collected(final(self)@.treasures) ==> {
                &&& final(self)@.state == GameState::Won
                &&& !final(self)@.running
                &&& final(self)@.best_time == Some(
                    improved_best(old(self)@.best_time, final(self)@.elapsed),
                )
            },
    {
        proof {
            use_type_invariant(&*self);
            lemma_tick_collection_monotonic(old(self)@, timestamp);
        }
        let mut commands: Vec<AudioCommand> = Vec::new();
        if !self.is_running {
            return commands;
        }
        let now: i64 = match timestamp {
            Some(t) => t,
            None => {
                self.last_frame_time = None;
                assert(self@ =~= tick(old(self)@, timestamp).0);
                return commands;
            },
        };
        let anchor: i64 = match self.last_frame_time {
            Some(a) => a,
            None => {
                self.last_frame_time = Some(now);
                assert(self@ =~= tick(old(self)@, timestamp).0);
                return commands;
            },
        };
        self.last_frame_time = Some(now);
        let sum: i128 = (self.game_time as i128) + ((now as i128) - (anchor as i128));
        self.game_time = if sum < i64::MIN as i128 {
            i64::MIN
        } else if sum > i64::MAX as i128 {
            i64::MAX
        } else {
            sum as i64
        };
        let ghost timed = self@;
        proof {
            let elapsed = advanced(old(self)@.elapsed, old(self)@.anchor->0, now as int);
            assert(timed =~= (GameModel { anchor: Some(now as int), elapsed, ..old(self)@ }));
            assert(candidate(timed) == candidate(old(self)@));
        }
        if self.game_time >= self.time_limit {
            self.state = GameState::TimeUp;
            commands.push(AudioCommand::StopMusic);
            commands.push(AudioCommand::PlaySound(Sound::TimeUp));
            let mut stopping = self.stop();
            commands.append(&mut stopping);
            proof {
                assert(commands@ =~= closing_commands(Sound::TimeUp));
                assert(self@ =~= tick(old(self)@, timestamp).0);
            }
            return commands;
        }
        let mut sounds = self.update_player();
        commands.append(&mut sounds);
        proof {
            use_type_invariant(&*self);
            assert(commands@ =~= step_player(timed).1);
        }
        if self.treasure_manager.all_treasures_collected() {
            self.state = GameState::Won;
            let best: i64 = match self.best_time {
                Some(b) => if self.game_time < b {
                    self.game_time
                } else {
                    b
                },
                None => self.game_time,
            };
            self.best_time = Some(best);
            commands.push(AudioCommand::StopMusic);
            commands.push(AudioCommand::PlaySound(Sound::Win));
            let mut stopping = self.stop();
            commands.append(&mut stopping);
            proof {
                assert(commands@ =~= step_player(timed).1 + closing_commands(Sound::Win));
                assert(self@ =~= tick(old(self)@, timestamp).0);
            }
        }
        commands
    }

    /// Puts the game back to the beginning of a round, on the same map: the
    /// clock at zero and not running, the player at the spawn point, no key
    /// held, no score, and treasures placed anew from the draws.
    pub fn reset(&mut self, draws: &Vec<Draw>)
        ensures
            final(self)@ == (GameModel {
                elapsed: 0,
                state: GameState::Playing,
                running: false,
                player_x: SPAWN as int,
                player_y: SPAWN as int,
                held_keys: Set::empty(),
                score: 0,
                first_timestamp: None,
                treasures: placed_treasures(
                    TREASURE_COUNT as int,
                    old(self)@.map,
                    old(self)@.width,
                    old(self)@.height,
                    TILE_SIZE as int,
                    draws@,
                ),
                ..old(self)@
            }),
            freshly_placed(final(self)@.treasures, TREASURE_COUNT as int, final(self)@.map),
            well_formed(final(self)@),
    {
        proof {
            use_type_invariant(&*self);
        }
        self.game_time = 0;
        self.state = GameState::Playing;
        self.is_running = false;
        self.player = Player::new(SPAWN, SPAWN);
        self.keys_pressed = Vec::new();
        self.first_timestamp = None;
        let mut treasures = self.take_treasures();
        treasures.reset_score();
        treasures.generate_treasures(
            TREASURE_COUNT,
            self.width as i64,
            self.height as i64,
            TILE_SIZE,
            &self.map,
            draws,
        );
        proof {
            lemma_fresh_none_collected(treasures.treasures(), TREASURE_COUNT as int, self.map);
        }
        self.treasure_manager = treasures;
        proof {
            assert(key_names(self.keys_pressed@) =~= Set::<Seq<char>>::empty());
            assert(self@ =~= (GameModel {
                elapsed: 0,
                state: GameState::Playing,
                running: false,
                player_x: SPAWN as int,
                player_y: SPAWN as int,
                held_keys: Set::empty(),
                score: 0,
                first_timestamp: None,
                treasures: placed_treasures(
                    TREASURE_COUNT as int,
                    old(self)@.map,
                    old(self)@.width,
                    old(self)@.height,
                    TILE_SIZE as int,
                    draws@,
                ),
                ..old(self)@
            }));
        }
    }

    pub fn get_state(&self) -> (state: GameState)
        ensures
            state == self@.state,
    {
        self.state
    }

    /// The time played in this round, in milliseconds.
    pub fn get_game_time(&self) -> (elapsed: i64)
        ensures
            elapsed == self@.elapsed,
    {
        self.game_time
    }

    /// The time left on the clock, in milliseconds; zero once the limit is
    /// passed.
    pub fn get_remaining_time(&self) -> (remaining: i64)
        ensures
            remaining == remaining_time(self@),
            remaining >= 0,
    {
        let remaining: i128 = (self.time_limit as i128) - (self.game_time as i128);
        if remaining < 0 {
            0
        } else if remaining > i64::MAX as i128 {
            i64::MAX
        } else {
            remaining as i64
        }
    }

    /// The shortest time in which a round was won, in milliseconds.
    pub fn get_best_time(&self) -> (best: Option<i64>)
        ensures
            as_int(best) == self@.best_time,
    {
        self.best_time
    }

    /// Records the first timestamp, unless one is recorded already.
    pub fn set_first_timestamp(&mut self, timestamp: i64)
        ensures
            final(self)@ == (GameModel {
                first_timestamp: if old(self)@.first_timestamp is None {
                    Some(timestamp as int)
                } else {
                    old(self)@.first_timestamp
                },
                ..old(self)@
            }),
    {
        proof {
            use_type_invariant(&*self);
        }
        if self.first_timestamp.is_none() {
            self.first_timestamp = Some(timestamp);
        }
        assert(self@ =~= (GameModel {
            first_timestamp: if old(self)@.first_timestamp is None {
                Some(timestamp as int)
            } else {
                old(self)@.first_timestamp
            },
            ..old(self)@
        }));
    }

    /// Hands out the treasures and leaves none behind, so that they can be
    /// worked on while the game itself stays valid at every step.
    fn take_treasures(&mut self) -> (treasures: TreasureManager)
        ensures
            treasures == old(self).treasure_manager,
            final(self).treasure_manager.treasures() == Seq::<TreasureModel>::empty(),
            final(self).treasure_manager.spec_score() == 0,
            final(self).width == old(self).width,
            final(self).height == old(self).height,
            final(self).is_running == old(self).is_running,
            final(self).last_frame_time == old(self).last_frame_time,
            final(self).player == old(self).player,
            final(self).map == old(self).map,
            final(self).keys_pressed == old(self).keys_pressed,
            final(self).state == old(self).state,
            final(self).game_time == old(self).game_time,
            final(self).time_limit == old(self).time_limit,
            final(self).best_time == old(self).best_time,
            final(self).first_timestamp == old(self).first_timestamp,
    {
        proof {
            use_type_invariant(&*self);
        }
        let mut treasures = TreasureManager::new();
        core::mem::swap(&mut self.treasure_manager, &mut treasures);
        treasures
    }

    /// Hands out the held keys and leaves none behind.
    fn take_keys(&mut self) -> (keys: Vec<String>)
        ensures
            keys == old(self).keys_pressed,
            final(self).keys_pressed@ == Seq::<String>::empty(),
            final(self).treasure_manager == old(self).treasure_manager,
            final(self).width == old(self).width,
            final(self).height == old(self).height,
            final(self).is_running == old(self).is_running,
            final(self).last_frame_time == old(self).last_frame_time,
            final(self).player == old(self).player,
            final(self).map == old(self).map,
            final(self).state == old(self).state,
            final(self).game_time == old(self).game_time,
            final(self).time_limit == old(self).time_limit,
            final(self).best_time == old(self).best_time,
            final(self).first_timestamp == old(self).first_timestamp,
    {
        proof {
            use_type_invariant(&*self);
        }
        let mut keys: Vec<String> = Vec::new();
        core::mem::swap(&mut self.keys_pressed, &mut keys);
        keys
    }

    /// Whether a key of this name is held.
    fn holds(&self, key: &String) -> (held: bool)
        ensures
            held == self@.held_keys.contains(key@),
    {
        let mut i: usize = 0;
        while i < self.keys_pressed.len()
            invariant
                i <= self.keys_pressed@.len(),
                forall|j: int| 0 <= j < i ==> (#[trigger] self.keys_pressed@[j])@ != key@,
            decreases self.keys_pressed@.len() - i,
        {
            if self.keys_pressed[i].eq(key) {
                assert(self.keys_pressed@[i as int]@ == key@);
                return true;
            }
            i = i + 1;
        }
        false
    }

    /// The key is held from now on. Pressing a held key changes nothing.
    pub fn handle_key_down(&mut self, key: String)
        ensures
            final(self)@ == (GameModel {
                held_keys: old(self)@.held_keys.insert(key@),
                ..old(self)@
            }),
    {
        proof {
            use_type_invariant(&*self);
        }
        let ghost name = key@;
        let ghost before = self.keys_pressed@;
        if !self.holds(&key) {
            let mut keys = self.take_keys();
            keys.push(key);
            proof {
                let after = keys@;
                assert(after[before.len() as int]@ == name);
                assert forall|k: Seq<char>| key_names(after).contains(k) implies key_names(
                    before,
                ).insert(name).contains(k) by {
                    let i = choose|i: int| 0 <= i < after.len() && (#[trigger] after[i])@ == k;
                    if i < before.len() {
                        assert(before[i]@ == k);
                    }
                }
                assert forall|k: Seq<char>| key_names(before).insert(name).contains(
                    k,
                ) implies key_names(after).contains(k) by {
                    if k != name {
                        let i = choose|i: int| 0 <= i < before.len() && (#[trigger] before[i])@ == k;
                        assert(after[i]@ == k);
                    }
                }
                assert(key_names(after) =~= key_names(before).insert(name));
            }
            self.keys_pressed = keys;
        }
        assert(key_names(self.keys_pressed@) =~= key_names(before).insert(name));
        assert(self@ =~= (GameModel {
            held_keys: old(self)@.held_keys.insert(key@),
            ..old(self)@
        }));
    }

    /// The key is no longer held. Releasing a key that is not held changes
    /// nothing.
    pub fn handle_key_up(&mut self, key: String)
        ensures
            final(self)@ == (GameModel {
                held_keys: old(self)@.held_keys.remove(key@),
                ..old(self)@
            }),
    {
        proof {
            use_type_invariant(&*self);
        }
        let ghost name = key@;
        let ghost before = self.keys_pressed@;
        let mut i: usize = 0;
        while i < self.keys_pressed.len()
            invariant
                i <= self.keys_pressed@.len(),
                self.keys_pressed@ == before,
                *self == *old(self),
                name == key@,
                distinct_keys(before),
                forall|j: int| 0 <= j < i ==> (#[trigger] before[j])@ != name,
            decreases self.keys_pressed@.len() - i,
        {
            if self.keys_pressed[i].eq(&key) {
                proof {
                    use_type_invariant(&*self);
                }
                let mut keys = self.take_keys();
                let _ = keys.remove(i);
                proof {
                    let after = keys@;
                    assert forall|k: Seq<char>| key_names(after).contains(k) implies key_names(
                        before,
                    ).remove(name).contains(k) by {
                        let j = choose|j: int| 0 <= j < after.len() && (#[trigger] after[j])@ == k;
                        if j < i {
                            assert(before[j]@ == k);
                        } else {
                            assert(before[j + 1]@ == k);
                        }
                    }
                    assert forall|k: Seq<char>| key_names(before).remove(name).contains(
                        k,
                    ) implies key_names(after).contains(k) by {
                        let j = choose|j: int|
                            0 <= j < before.len() && (#[trigger] before[j])@ == k;
                        if j < i {
                            assert(after[j]@ == k);
                        } else {
                            assert(after[j - 1]@ == k);
                        }
                    }
                    assert(key_names(after) =~= key_names(before).remove(name));
                    assert forall|a: int, b: int| 0 <= a < b < after.len() implies (
                    #[trigger] after[a])@ != (#[trigger] after[b])@ by {
                        let a0 = if a < i { a } else { a + 1 };
                        let b0 = if b < i { b } else { b + 1 };
                        assert(after[a] == before[a0]);
                        assert(after[b] == before[b0]);
                    }
                }
                self.keys_pressed = keys;
                proof {
                    assert(self@ =~= (GameModel {
                        held_keys: old(self)@.held_keys.remove(key@),
                        ..old(self)@
                    }));
                }
                return ;
            }
            i = i + 1;
        }
        proof {
            assert(key_names(before) =~= key_names(before).remove(name));
            assert(self@ =~= (GameModel {
                held_keys: old(self)@.held_keys.remove(key@),
                ..old(self)@
            }));
        }
    }

    pub fn is_running(&self) -> (running: bool)
        ensures
            running == self@.running,
    {
        self.is_running
    }

    /// The player as it stands.
    pub fn player(&self) -> (player: Player)
        ensures
            player.position().x == self@.player_x,
            player.position().y == self@.player_y,
    {
        self.player
    }

    /// The player's part of a tick: the held keys give a candidate position,
    /// which is taken if all four corners of the player's box are walkable
    /// there; then the treasures in reach are collected. Returns the sound of
    /// a collection, if there was one.
    pub fn update_player(&mut self) -> (commands: Vec<AudioCommand>)
        ensures
            final(self)@ == step_player(old(self)@).0,
            commands@ == step_player(old(self)@).1,
            well_formed(final(self)@),
            !box_is_free(old(self)@.map, candidate(old(self)@).0, candidate(old(self)@).1) ==> {
                &&& final(self)@.player_x == old(self)@.player_x
                &&& final(self)@.player_y == old(self)@.player_y
            },
    {
        proof {
            use_type_invariant(&*self);
        }
        let up: bool = self.holds(&String::from_str("ArrowUp"));
        let down: bool = self.holds(&String::from_str("ArrowDown"));
        let left: bool = self.holds(&String::from_str("ArrowLeft"));
        let right: bool = self.holds(&String::from_str("ArrowRight"));
        let mut new_x: i64 = self.player.x();
        let mut new_y: i64 = self.player.y();
        if up {
            new_y = new_y - PLAYER_SPEED;
        }
        if down {
            new_y = new_y + PLAYER_SPEED;
        }
        if left {
            new_x = new_x - PLAYER_SPEED;
        }
        if right {
            new_x = new_x + PLAYER_SPEED;
        }
        assert((new_x as int, new_y as int) == candidate(old(self)@));
        let size: i64 = self.player.size();
        if self.map.is_walkable(new_x, new_y) && self.map.is_walkable(new_x + size, new_y)
            && self.map.is_walkable(new_x, new_y + size) && self.map.is_walkable(
            new_x + size,
            new_y + size,
        ) {
            proof {
                lemma_free_box_in_world(old(self)@, new_x as int, new_y as int);
            }
            self.player = Player::new(new_x, new_y);
        }
        proof {
            lemma_score_bound(old(self)@, self.player.position().x as int, self.player.position().y as int);
        }
        let mut treasures = self.take_treasures();
        let collected: bool = treasures.check_collection(
            self.player.x(),
            self.player.y(),
            self.player.size(),
        );
        self.treasure_manager = treasures;
        let mut commands: Vec<AudioCommand> = Vec::new();
        if collected {
            commands.push(AudioCommand::PlaySound(Sound::Collect));
        }
        proof {
            assert(self@ =~= step_player(old(self)@).0);
            assert(commands@ =~= step_player(old(self)@).1);
        }
        commands
    }

    /// The number of columns of the map.
    pub fn get_map_width(&self) -> (width: usize)
        ensures
            width == self@.map.spec_width(),
    {
        self.map.width()
    }

    /// The number of rows of the map.
    pub fn get_map_height(&self) -> (height: usize)
        ensures
            height == self@.map.spec_height(),
    {
        self.map.height()
    }

    /// The side length of a tile.
    pub fn get_map_tile_size(&self) -> (size: i64)
        ensures
            size == self@.map.spec_tile_size(),
            size == TILE_SIZE,
    {
        proof {
            use_type_invariant(self);
        }
        self.map.tile_size()
    }

    /// The tile of a cell as a number: 0 for empty, 1 for wall, 2 for an
    /// obstacle. A cell outside the map is wall.
    pub fn get_map_tile(&self, x: usize, y: usize) -> (code: i32)
        ensures
            code == tile_code(self@.map.tile_at(x as int, y as int)),
    {
        match self.map.get_tile(x, y) {
            TileType::Empty => 0,
            TileType::Wall => 1,
            TileType::Obstacle => 2,
        }
    }

    pub fn get_score(&self) -> (score: u32)
        ensures
            score == self@.score,
    {
        self.treasure_manager.get_score()
    }

    pub fn get_treasure_count(&self) -> (count: usize)
        ensures
            count == self@.treasures.len(),
    {
        self.treasure_manager.get_treasure_count()
    }

    /// The x coordinate of the treasure at `index`, if there is one.
    pub fn get_treasure_x(&self, index: usize) -> (x: Option<i64>)
        ensures
            match x {
                Some(v) => index < self@.treasures.len() && v == self@.treasures[index as int].x,
                None => index >= self@.treasures.len(),
            },
    {
        self.treasure_manager.get_treasure_x(index)
    }

    /// The y coordinate of the treasure at `index`, if there is one.
    pub fn get_treasure_y(&self, index: usize) -> (y: Option<i64>)
        ensures
            match y {
                Some(v) => index < self@.treasures.len() && v == self@.treasures[index as int].y,
                None => index >= self@.treasures.len(),
            },
    {
        self.treasure_manager.get_treasure_y(index)
    }

    /// Whether the treasure at `index` is collected; yes where there is none.
    pub fn is_treasure_collected(&self, index: usize) -> (collected: bool)
        ensures
            collected == (index < self@.treasures.len() ==> self@.treasures[index as int].collected),
    {
        self.treasure_manager.is_treasure_collected(index)
    }
}

} // verus!
