//! Treasures: where they are placed, when they are collected, what they score.

use vstd::prelude::*;
use crate::draw::{scale, scale_offset, Draw};
use crate::map::GameMap;

verus! {

/// The side length of every treasure, in world units.
pub const TREASURE_SIZE: i64 = 20;

/// What one collected treasure adds to the score.
pub const SCORE_PER_TREASURE: u32 = 10;

/// Candidate points tried for each treasure that is wanted.
pub const ATTEMPTS_PER_TREASURE: u32 = 100;

/// A treasure as a mathematical value.
pub struct TreasureModel {
    pub x: int,
    pub y: int,
    pub size: int,
    pub collected: bool,
}

/// A collectible at a fixed point of the world.
#[derive(Clone, Copy, Debug)]
pub struct Treasure {
    x: i64,
    y: i64,
    size: i64,
    collected: bool,
}

impl View for Treasure {
    type V = TreasureModel;

    closed spec fn view(&self) -> TreasureModel {
        TreasureModel {
            x: self.x as int,
            y: self.y as int,
            size: self.size as int,
            collected: self.collected,
        }
    }
}

/// A treasure that has just been placed at `(x, y)`.
pub open spec fn fresh_treasure(x: int, y: int) -> TreasureModel {
    TreasureModel { x, y, size: TREASURE_SIZE as int, collected: false }
}

/// The treasure's circle and the circle around the centre of the player's
/// box overlap: the centres are closer than half the sum of the two sizes.
/// Stated without fractions, over twice the distance on each axis.
pub open spec fn overlaps(t: TreasureModel, player_x: int, player_y: int, player_size: int) -> bool {
    let reach = player_size + t.size;
    let dx = 2 * t.x - 2 * player_x - player_size;
    let dy = 2 * t.y - 2 * player_y - player_size;
    reach > 0 && dx * dx + dy * dy < reach * reach
}

/// The treasure is picked up by a player at this place: it was not collected
/// before and it overlaps.
pub open spec fn picked_up(t: TreasureModel, player_x: int, player_y: int, player_size: int) -> bool {
    !t.collected && overlaps(t, player_x, player_y, player_size)
}

/// The treasure after a check against a player at this place.
pub open spec fn collect_one(
    t: TreasureModel,
    player_x: int,
    player_y: int,
    player_size: int,
) -> TreasureModel {
    if picked_up(t, player_x, player_y, player_size) {
        TreasureModel { collected: true, ..t }
    } else {
        t
    }
}

/// Every treasure after a check against a player at this place.
pub open spec fn collect_all(
    treasures: Seq<TreasureModel>,
    player_x: int,
    player_y: int,
    player_size: int,
) -> Seq<TreasureModel> {
    Seq::new(
        treasures.len(),
        |i: int| collect_one(treasures[i], player_x, player_y, player_size),
    )
}

/// How many of the treasures a player at this place picks up.
pub open spec fn newly_collected(
    treasures: Seq<TreasureModel>,
    player_x: int,
    player_y: int,
    player_size: int,
) -> nat
    decreases treasures.len(),
{
    if treasures.len() == 0 {
        0
    } else {
        newly_collected(treasures.drop_last(), player_x, player_y, player_size) + if picked_up(
            treasures.last(),
            player_x,
            player_y,
            player_size,
        ) {
            1nat
        } else {
            0nat
        }
    }
}

/// How many of the treasures are collected.
pub open spec fn collected_count(treasures: Seq<TreasureModel>) -> nat
    decreases treasures.len(),
{
    if treasures.len() == 0 {
        0
    } else {
        collected_count(treasures.drop_last()) + if treasures.last().collected {
            1nat
        } else {
            0nat
        }
    }
}

/// Every treasure is collected; true of no treasures at all.
pub open spec fn all_collected(treasures: Seq<TreasureModel>) -> bool {
    forall|i: int| 0 <= i < treasures.len() ==> (#[trigger] treasures[i]).collected
}

/// The point that a draw picks in the rectangle that lies one tile inside
/// the edges of a world of `map_width` by `map_height` units.
pub open spec fn inset_point(draw: Draw, map_width: int, map_height: int, tile_size: int) -> (
    int,
    int,
) {
    (
        tile_size + scale(draw.0, map_width - 2 * tile_size),
        tile_size + scale(draw.1, map_height - 2 * tile_size),
    )
}

/// A treasure can be put at the point: the point is walkable and its
/// coordinates can be stored.
pub open spec fn placeable(map: GameMap, x: int, y: int) -> bool {
    x <= i64::MAX && y <= i64::MAX && map.walkable_at(x, y)
}

/// One attempt: a treasure is put at the drawn point if treasures are still
/// wanted and the point is placeable.
pub open spec fn place_step(
    placed: Seq<TreasureModel>,
    count: int,
    map: GameMap,
    map_width: int,
    map_height: int,
    tile_size: int,
    draw: Draw,
) -> Seq<TreasureModel> {
    let (x, y) = inset_point(draw, map_width, map_height, tile_size);
    if placed.len() < count && placeable(map, x, y) {
        placed.push(fresh_treasure(x, y))
    } else {
        placed
    }
}

/// The treasures after one attempt for each of `draws`, in order.
pub open spec fn place_all(
    count: int,
    map: GameMap,
    map_width: int,
    map_height: int,
    tile_size: int,
    draws: Seq<Draw>,
) -> Seq<TreasureModel>
    decreases draws.len(),
{
    if draws.len() == 0 {
        Seq::empty()
    } else {
        place_step(
            place_all(count, map, map_width, map_height, tile_size, draws.drop_last()),
            count,
            map,
            map_width,
            map_height,
            tile_size,
            draws.last(),
        )
    }
}

/// The draws that placement consumes at most.
pub open spec fn usable_draws(count: int, draws: Seq<Draw>) -> Seq<Draw> {
    if draws.len() <= count * (ATTEMPTS_PER_TREASURE as int) {
        draws
    } else {
        draws.take(count * (ATTEMPTS_PER_TREASURE as int))
    }
}

/// The treasures that generation places.
pub open spec fn placed_treasures(
    count: int,
    map: GameMap,
    map_width: int,
    map_height: int,
    tile_size: int,
    draws: Seq<Draw>,
) -> Seq<TreasureModel> {
    place_all(count, map, map_width, map_height, tile_size, usable_draws(count, draws))
}

/// What holds of treasures that were just placed on `map`: there are at most
/// `count`, each lies on a walkable point, has the standard size and is not
/// collected.
pub open spec fn freshly_placed(treasures: Seq<TreasureModel>, count: int, map: GameMap) -> bool {
    &&& treasures.len() <= count
    &&& forall|i: int|
        0 <= i < treasures.len() ==> {
            let t = #[trigger] treasures[i];
            map.walkable_at(t.x, t.y) && t.x <= i64::MAX && t.y <= i64::MAX && t.size
                == TREASURE_SIZE && !t.collected
        }
}

/// Every treasure that placement yields lies on a walkable point of the map.
pub proof fn lemma_placed_on_walkable(
    count: int,
    map: GameMap,
    map_width: int,
    map_height: int,
    tile_size: int,
    draws: Seq<Draw>,
)
    requires
        count >= 0,
    ensures
        freshly_placed(place_all(count, map, map_width, map_height, tile_size, draws), count, map),
    decreases draws.len(),
{
    if draws.len() > 0 {
        lemma_placed_on_walkable(count, map, map_width, map_height, tile_size, draws.drop_last());
    }
}

/// Once enough treasures are placed, further attempts change nothing.
pub proof fn lemma_place_saturated(
    count: int,
    map: GameMap,
    map_width: int,
    map_height: int,
    tile_size: int,
    draws: Seq<Draw>,
    used: int,
)
    requires
        0 <= used <= draws.len(),
        place_all(count, map, map_width, map_height, tile_size, draws.take(used)).len() >= count,
    ensures
        place_all(count, map, map_width, map_height, tile_size, draws) == place_all(
            count,
            map,
            map_width,
            map_height,
            tile_size,
            draws.take(used),
        ),
    decreases draws.len() - used,
{
    if used == draws.len() {
        assert(draws.take(used) =~= draws);
    } else {
        let shorter = draws.drop_last();
        assert(shorter.take(used) =~= draws.take(used));
        lemma_place_saturated(count, map, map_width, map_height, tile_size, shorter, used);
    }
}

/// A check picks up no more treasures among the first `n` than among all.
pub proof fn lemma_newly_collected_prefix(
    treasures: Seq<TreasureModel>,
    n: int,
    player_x: int,
    player_y: int,
    player_size: int,
)
    requires
        0 <= n <= treasures.len(),
    ensures
        newly_collected(treasures.take(n), player_x, player_y, player_size) <= newly_collected(
            treasures,
            player_x,
            player_y,
            player_size,
        ),
    decreases treasures.len() - n,
{
    if n == treasures.len() {
        assert(treasures.take(n) =~= treasures);
    } else {
        let shorter = treasures.drop_last();
        assert(shorter.take(n) =~= treasures.take(n));
        lemma_newly_collected_prefix(shorter, n, player_x, player_y, player_size);
    }
}

/// A check collects exactly the treasures it picks up: the number of
/// collected treasures grows by the number newly collected.
pub proof fn lemma_collect_all_count(
    treasures: Seq<TreasureModel>,
    player_x: int,
    player_y: int,
    player_size: int,
)
    ensures
        collected_count(collect_all(treasures, player_x, player_y, player_size)) == collected_count(
            treasures,
        ) + newly_collected(treasures, player_x, player_y, player_size),
    decreases treasures.len(),
{
    let after = collect_all(treasures, player_x, player_y, player_size);
    if treasures.len() > 0 {
        lemma_collect_all_count(treasures.drop_last(), player_x, player_y, player_size);
        assert(after.drop_last() =~= collect_all(
            treasures.drop_last(),
            player_x,
            player_y,
            player_size,
        ));
    }
}

/// A check can pick up only treasures that are not yet collected: what it
/// picks up and what was collected before never exceed the treasures there are.
pub proof fn lemma_newly_collected_bound(
    treasures: Seq<TreasureModel>,
    player_x: int,
    player_y: int,
    player_size: int,
)
    ensures
        collected_count(treasures) + newly_collected(treasures, player_x, player_y, player_size)
            <= treasures.len(),
{
    lemma_collect_all_count(treasures, player_x, player_y, player_size);
    lemma_all_collected_count(collect_all(treasures, player_x, player_y, player_size));
}

/// A collected treasure stays collected through any check, and no check moves
/// or resizes a treasure.
pub proof fn lemma_collection_monotonic(
    treasures: Seq<TreasureModel>,
    player_x: int,
    player_y: int,
    player_size: int,
)
    ensures
        collect_all(treasures, player_x, player_y, player_size).len() == treasures.len(),
        forall|i: int|
            0 <= i < treasures.len() ==> {
                let before = treasures[i];
                let after = #[trigger] collect_all(treasures, player_x, player_y, player_size)[i];
                &&& before.collected ==> after.collected
                &&& after.x == before.x
                &&& after.y == before.y
                &&& after.size == before.size
            },
{
}

/// No more treasures are collected than there are, and all are collected
/// exactly when as many are collected as there are.
pub proof fn lemma_all_collected_count(treasures: Seq<TreasureModel>)
    ensures
        collected_count(treasures) <= treasures.len(),
        all_collected(treasures) <==> collected_count(treasures) == treasures.len(),
    decreases treasures.len(),
{
    if treasures.len() > 0 {
        let shorter = treasures.drop_last();
        lemma_all_collected_count(shorter);
        if all_collected(treasures) {
            assert forall|i: int| 0 <= i < shorter.len() implies (#[trigger] shorter[i]).collected by {
                assert(treasures[i].collected);
            }
            assert(treasures.last().collected);
        }
        if collected_count(treasures) == treasures.len() {
            assert forall|i: int| 0 <= i < treasures.len() implies (
            #[trigger] treasures[i]).collected by {
                if i < shorter.len() {
                    assert(shorter[i].collected);
                }
            }
        }
    }
}

impl Treasure {
    /// A treasure of the standard size at `(x, y)`, not yet collected.
    pub fn new(x: i64, y: i64) -> (t: Treasure)
        ensures
            t@ == fresh_treasure(x as int, y as int),
    {
        Treasure { x, y, size: TREASURE_SIZE, collected: false }
    }

    pub fn x(&self) -> (x: i64)
        ensures
            x == self@.x,
    {
        self.x
    }

    pub fn y(&self) -> (y: i64)
        ensures
            y == self@.y,
    {
        self.y
    }

    pub fn size(&self) -> (size: i64)
        ensures
            size == self@.size,
    {
        self.size
    }

    pub fn is_collected(&self) -> (collected: bool)
        ensures
            collected == self@.collected,
    {
        self.collected
    }

    /// Marks the treasure as collected; nothing else about it changes.
    pub fn collect(&mut self)
        ensures
            final(self)@ == (TreasureModel { collected: true, ..old(self)@ }),
    {
        self.collected = true;
    }

    /// Whether the treasure overlaps a player whose box has its corner at
    /// `(player_x, player_y)` and the side `player_size`.
    pub fn is_within_reach(&self, player_x: i64, player_y: i64, player_size: i64) -> (hit: bool)
        ensures
            hit == overlaps(self@, player_x as int, player_y as int, player_size as int),
    {
        let reach: i128 = (player_size as i128) + (self.size as i128);
        if reach <= 0 {
            return false;
        }
        let dx: i128 = 2 * (self.x as i128) - 2 * (player_x as i128) - (player_size as i128);
        let dy: i128 = 2 * (self.y as i128) - 2 * (player_y as i128) - (player_size as i128);
        let ax: u128 = if dx < 0 { (-dx) as u128 } else { dx as u128 };
        let ay: u128 = if dy < 0 { (-dy) as u128 } else { dy as u128 };
        let r: u128 = reach as u128;
        proof {
            assert(ax * ax == dx * dx) by (nonlinear_arith)
                requires
                    ax == dx || ax == -dx,
            ;
            assert(ay * ay == dy * dy) by (nonlinear_arith)
                requires
                    ay == dy || ay == -dy,
            ;
            assert(r * r == reach * reach);
        }
        if ax >= r || ay >= r {
            proof {
                assert(ax >= r ==> ax * ax >= r * r) by (nonlinear_arith)
                    requires
                        r > 0,
                ;
                assert(ay >= r ==> ay * ay >= r * r) by (nonlinear_arith)
                    requires
                        r > 0,
                ;
                assert(ax * ax >= 0 && ay * ay >= 0) by (nonlinear_arith);
            }
            return false;
        }
        proof {
            assert(r * r <= 0xFFFF_FFFF_FFFF_FFFF * 0xFFFF_FFFF_FFFF_FFFF) by (nonlinear_arith)
                requires
                    0 <= r <= 0xFFFF_FFFF_FFFF_FFFF,
            ;
            assert(ax * ax < r * r) by (nonlinear_arith)
                requires
                    0 <= ax < r,
            ;
            assert(ay * ay < r * r) by (nonlinear_arith)
                requires
                    0 <= ay < r,
            ;
        }
        let r2: u128 = r * r;
        let x2: u128 = ax * ax;
        let y2: u128 = ay * ay;
        x2 < r2 - y2
    }
}

/// The treasures of one game and the score they have earned.
pub struct TreasureManager {
    treasures: Vec<Treasure>,
    score: u32,
}

impl TreasureManager {
    /// The treasures, in the order in which they were placed.
    pub closed spec fn treasures(&self) -> Seq<TreasureModel> {
        Seq::new(self.treasures@.len(), |i: int| self.treasures@[i]@)
    }

    /// The score.
    pub closed spec fn spec_score(&self) -> u32 {
        self.score
    }

    /// No treasures, no score.
    pub fn new() -> (manager: TreasureManager)
        ensures
            manager.treasures() == Seq::<TreasureModel>::empty(),
            manager.spec_score() == 0,
    {
        let manager = TreasureManager { treasures: Vec::new(), score: 0 };
        assert(manager.treasures() =~= Seq::<TreasureModel>::empty());
        manager
    }

    /// Replaces the treasures by up to `count` new ones. Each draw picks a
    /// point one tile inside the edges of the world; the point gets a
    /// treasure if the map is walkable there. Placement ends when `count`
    /// treasures are placed, after a hundred attempts for each treasure
    /// wanted, or when the draws run out. The score stays.
    pub fn generate_treasures(
        &mut self,
        count: u32,
        map_width: i64,
        map_height: i64,
        tile_size: i64,
        game_map: &GameMap,
        draws: &Vec<Draw>,
    )
        ensures
            final(self).treasures() == placed_treasures(
                count as int,
                *game_map,
                map_width as int,
                map_height as int,
                tile_size as int,
                draws@,
            ),
            freshly_placed(final(self).treasures(), count as int, *game_map),
            final(self).spec_score() == old(self).spec_score(),
    {
        let ghost cnt = count as int;
        let ghost mw = map_width as int;
        let ghost mh = map_height as int;
        let ghost ts = tile_size as int;
        self.treasures.clear();
        let span_x: i128 = (map_width as i128) - 2 * (tile_size as i128);
        let span_y: i128 = (map_height as i128) - 2 * (tile_size as i128);
        let limit: u64 = (count as u64) * (ATTEMPTS_PER_TREASURE as u64);
        let mut attempts: usize = 0;
        assert(self.treasures() =~= place_all(cnt, *game_map, mw, mh, ts, draws@.take(0)));
        while self.treasures.len() < count as usize && (attempts as u64) < limit && attempts
            < draws.len()
            invariant
                cnt == count,
                mw == map_width,
                mh == map_height,
                ts == tile_size,
                span_x == mw - 2 * ts,
                span_y == mh - 2 * ts,
                limit == cnt * (ATTEMPTS_PER_TREASURE as int),
                attempts <= draws@.len(),
                attempts <= limit,
                self.score == old(self).score,
                self.treasures() == place_all(
                    cnt,
                    *game_map,
                    mw,
                    mh,
                    ts,
                    draws@.take(attempts as int),
                ),
                self.treasures@.len() <= count,
            decreases draws@.len() - attempts,
        {
            let draw: Draw = draws[attempts];
            let x: i128 = (tile_size as i128) + scale_offset(draw.0, span_x);
            let y: i128 = (tile_size as i128) + scale_offset(draw.1, span_y);
            let ghost before = self.treasures();
            if 0 <= x && x <= i64::MAX as i128 && 0 <= y && y <= i64::MAX as i128 {
                if game_map.is_walkable(x as i64, y as i64) {
                    self.treasures.push(Treasure::new(x as i64, y as i64));
                    assert(self.treasures() =~= before.push(fresh_treasure(x as int, y as int)));
                }
            }
            attempts = attempts + 1;
            proof {
                let taken = draws@.take(attempts as int);
                assert(taken.drop_last() =~= draws@.take(attempts - 1));
                assert(taken.last() == draw);
            }
        }
        proof {
            let usable = usable_draws(cnt, draws@);
            assert(attempts <= usable.len());
            assert(usable.take(attempts as int) =~= draws@.take(attempts as int));
            if self.treasures@.len() >= count {
                lemma_place_saturated(cnt, *game_map, mw, mh, ts, usable, attempts as int);
            } else {
                assert(usable.take(attempts as int) =~= usable);
            }
            lemma_placed_on_walkable(cnt, *game_map, mw, mh, ts, usable);
        }
    }

    /// Collects every treasure, not collected before, that overlaps the
    /// player, and adds ten to the score for each. Says whether any was
    /// collected. A collected treasure stays collected, and no treasure moves.
    pub fn check_collection(&mut self, player_x: i64, player_y: i64, player_size: i64) -> (collected:
        bool)
        requires
            old(self).spec_score() + SCORE_PER_TREASURE * newly_collected(
                old(self).treasures(),
                player_x as int,
                player_y as int,
                player_size as int,
            ) <= u32::MAX,
        ensures
            final(self).treasures() == collect_all(
                old(self).treasures(),
                player_x as int,
                player_y as int,
                player_size as int,
            ),
            final(self).spec_score() == old(self).spec_score() + SCORE_PER_TREASURE
                * newly_collected(
                old(self).treasures(),
                player_x as int,
                player_y as int,
                player_size as int,
            ),
            collected == (newly_collected(
                old(self).treasures(),
                player_x as int,
                player_y as int,
                player_size as int,
            ) > 0),
            final(self).treasures().len() == old(self).treasures().len(),
            forall|i: int|
                0 <= i < old(self).treasures().len() && old(self).treasures()[i].collected ==> (
                #[trigger] final(self).treasures()[i]).collected,
            final(self).spec_score() >= old(self).spec_score(),
    {
        let ghost before = self.treasures();
        let ghost px = player_x as int;
        let ghost py = player_y as int;
        let ghost ps = player_size as int;
        let mut collected = false;
        let mut i: usize = 0;
        assert(before.take(0) =~= Seq::<TreasureModel>::empty());
        while i < self.treasures.len()
            invariant
                px == player_x,
                py == player_y,
                ps == player_size,
                before == old(self).treasures(),
                i <= self.treasures@.len(),
                self.treasures@.len() == before.len(),
                forall|j: int| 0 <= j < i ==> self.treasures@[j]@ == collect_one(before[j], px, py, ps),
                forall|j: int| i <= j < before.len() ==> self.treasures@[j]@ == before[j],
                self.score == old(self).score + SCORE_PER_TREASURE * newly_collected(
                    before.take(i as int),
                    px,
                    py,
                    ps,
                ),
                collected == (newly_collected(before.take(i as int), px, py, ps) > 0),
                old(self).score + SCORE_PER_TREASURE * newly_collected(before, px, py, ps)
                    <= u32::MAX,
            decreases self.treasures@.len() - i,
        {
            let mut treasure: Treasure = self.treasures[i];
            proof {
                let taken = before.take(i + 1);
                assert(taken.drop_last() =~= before.take(i as int));
                assert(taken.last() == before[i as int]);
                lemma_newly_collected_prefix(before, i + 1, px, py, ps);
            }
            if !treasure.is_collected() && treasure.is_within_reach(
                player_x,
                player_y,
                player_size,
            ) {
                treasure.collect();
                self.treasures.set(i, treasure);
                self.score = self.score + SCORE_PER_TREASURE;
                collected = true;
            }
            i = i + 1;
        }
        proof {
            assert(before.take(i as int) =~= before);
            assert(self.treasures() =~= collect_all(before, px, py, ps));
        }
        collected
    }

    /// Whether every treasure is collected; true when there is none.
    pub fn all_treasures_collected(&self) -> (all: bool)
        ensures
            all == all_collected(self.treasures()),
    {
        let mut i: usize = 0;
        while i < self.treasures.len()
            invariant
                i <= self.treasures@.len(),
                forall|j: int| 0 <= j < i ==> (#[trigger] self.treasures()[j]).collected,
            decreases self.treasures@.len() - i,
        {
            if !self.treasures[i].is_collected() {
                assert(!self.treasures()[i as int].collected);
                return false;
            }
            i = i + 1;
        }
        true
    }

    #[verifier::when_used_as_spec(spec_score)]
    pub fn get_score(&self) -> (score: u32)
        ensures
            score == self.spec_score(),
    {
        self.score
    }

    pub fn get_treasure_count(&self) -> (count: usize)
        ensures
            count == self.treasures().len(),
    {
        self.treasures.len()
    }

    /// The x coordinate of the treasure at `index`, if there is one.
    pub fn get_treasure_x(&self, index: usize) -> (x: Option<i64>)
        ensures
            match x {
                Some(v) => index < self.treasures().len() && v == self.treasures()[index as int].x,
                None => index >= self.treasures().len(),
            },
    {
        if index < self.treasures.len() {
            Some(self.treasures[index].x())
        } else {
            None
        }
    }

    /// The y coordinate of the treasure at `index`, if there is one.
    pub fn get_treasure_y(&self, index: usize) -> (y: Option<i64>)
        ensures
            match y {
                Some(v) => index < self.treasures().len() && v == self.treasures()[index as int].y,
                None => index >= self.treasures().len(),
            },
    {
        if index < self.treasures.len() {
            Some(self.treasures[index].y())
        } else {
            None
        }
    }

    /// Whether the treasure at `index` is collected. Where there is no such
    /// treasure the answer is yes: there is nothing left to collect.
    pub fn is_treasure_collected(&self, index: usize) -> (collected: bool)
        ensures
            collected == (index < self.treasures().len() ==> self.treasures()[index as int].collected),
    {
        if index < self.treasures.len() {
            self.treasures[index].is_collected()
        } else {
            true
        }
    }

    /// Sets the score to zero. The treasures stay as they are.
    pub fn reset_score(&mut self)
        ensures
            final(self).spec_score() == 0,
            final(self).treasures() == old(self).treasures(),
    {
        self.score = 0;
    }
}

} // verus!
