//! Randomized map generation: a deterministic pseudorandom stream drawn
//! from a 64-bit seed chooses the dimensions, the spawn points, and the
//! scattered food and wall tiles.
use vstd::prelude::*;

use crate::game::{
    count_changed, count_matching, food_pred, lemma_count_changed_refl,
    lemma_count_changed_update, lemma_count_equiv, lemma_count_exactly_two,
    lemma_count_le_changed, lemma_count_none, spawn_pred, wall_pred, GameMap, PlayerID, Tile,
};
use crate::util;
use crate::util::GridIndex;

verus! {

#[verifier::external_type_specification]
#[verifier::external_body]
pub struct ExStdRng(rand::rngs::StdRng);

/// Relies on rand's `SeedableRng::seed_from_u64` for `StdRng`: a
/// pseudorandom generator whose stream is a function of the seed alone.
/// Nothing about the stream is assumed here; every draw is specified only
/// by its range.
#[verifier::external_body]
fn rng_from_seed(seed: u64) -> rand::rngs::StdRng {
    <rand::rngs::StdRng as rand::SeedableRng>::seed_from_u64(seed)
}

/// Relies on rand's `Rng::gen_range`: a value drawn from `[low, high)`.
/// The call panics only on an empty range, which the precondition excludes.
#[verifier::external_body]
fn rng_range(rng: &mut rand::rngs::StdRng, low: usize, high: usize) -> (r: usize)
    requires
        low < high,
    ensures
        low <= r < high,
{
    rand::Rng::gen_range(rng, low..high)
}

impl GameMap {
    /// Draws up to `max` random coordinates and converts each drawn cell to
    /// `fill` only if it is still empty; collisions are skipped, never
    /// retried, so at most `max` cells change.
    fn generate_tiles(&mut self, max: usize, fill: Tile, rng: &mut rand::rngs::StdRng)
        requires
            old(self).wf(),
            old(self).spec_width() >= 1,
            old(self).spec_height() >= 1,
        ensures
            final(self).wf(),
            final(self).tiles.spec_shape() == old(self).tiles.spec_shape(),
            final(self).tiles@.len() == old(self).tiles@.len(),
            forall|o: int|
                0 <= o < final(self).tiles@.len() ==> (#[trigger] final(self).tiles@[o] == old(
                    self,
                ).tiles@[o] || (old(self).tiles@[o] is Empty && final(self).tiles@[o] == fill)),
            count_changed(old(self).tiles@, final(self).tiles@) <= max,
    {
        proof {
            lemma_count_changed_refl(old(self).tiles@);
        }
        let mut n: usize = 0;
        while n < max
            invariant
                n <= max,
                self.wf(),
                self.spec_width() >= 1,
                self.spec_height() >= 1,
                self.tiles.spec_shape() == old(self).tiles.spec_shape(),
                self.tiles@.len() == old(self).tiles@.len(),
                forall|o: int|
                    0 <= o < self.tiles@.len() ==> (#[trigger] self.tiles@[o] == old(
                        self,
                    ).tiles@[o] || (old(self).tiles@[o] is Empty && self.tiles@[o] == fill)),
                count_changed(old(self).tiles@, self.tiles@) <= n,
            decreases max - n,
        {
            let x = rng_range(rng, 0, self.width());
            let y = rng_range(rng, 0, self.height());
            let cell = *self.tiles.get((x, y));
            match cell {
                Tile::Empty => {
                    let ghost before = self.tiles@;
                    let ghost t = self.tiles.spec_shape().spec_to_offset((x, y));
                    proof {
                        self.tiles.spec_shape().lemma_to_offset_in_range((x, y));
                    }
                    self.tiles.set((x, y), fill);
                    proof {
                        lemma_count_changed_update(old(self).tiles@, before, t, fill);
                    }
                },
                _ => {},
            }
            n = n + 1;
        }
    }

    /// A randomized two-player map: dimensions drawn independently from
    /// `[10, 15)`, one spawn placed uniformly in the top-left third of the
    /// board and the other at its point reflection through the board
    /// center, then food and wall tiles scattered over still-empty cells,
    /// fewer than a tenth and a quarter of the board respectively. The
    /// same seed always yields the same map.
    pub fn generate_2p(seed: u64) -> (r: GameMap)
        ensures
            r.wf(),
            10 <= r.spec_width() < 15,
            10 <= r.spec_height() < 15,
            r.tiles@.len() == r.spec_width() * r.spec_height(),
            r.spec_n_players() == 2,
            exists|s0: (usize, usize)|
                #![trigger r.tiles.spec_shape().spec_to_offset(s0)]
                {
                    let shape = r.tiles.spec_shape();
                    let s1 = (((r.spec_width() - 1 - s0.0) as usize), ((r.spec_height() - 1
                        - s0.1) as usize));
                    &&& (s0.0 as int) < r.spec_width() / 3
                    &&& (s0.1 as int) < r.spec_height() / 3
                    &&& r.tiles@[shape.spec_to_offset(s0)] == Tile::Spawn(PlayerID(0))
                    &&& r.tiles@[shape.spec_to_offset(s1)] == Tile::Spawn(PlayerID(1))
                    &&& forall|o: int|
                        0 <= o < r.tiles@.len() && o != shape.spec_to_offset(s0) && o
                            != shape.spec_to_offset(s1) ==> !(#[trigger] r.tiles@[o] is Spawn)
                },
            forall|o: int|
                0 <= o < r.tiles@.len() ==> (#[trigger] r.tiles@[o] is Empty
                    || r.tiles@[o] is Spawn || r.tiles@[o] is Wall || r.tiles@[o] == (Tile::Food {
                    max_workers: 4,
                })),
            count_matching(r.tiles@, food_pred()) < r.tiles@.len() / 10,
            count_matching(r.tiles@, wall_pred()) < r.tiles@.len() / 4,
    {
        let mut rng = rng_from_seed(seed);
        let width = rng_range(&mut rng, 10, 15);
        let height = rng_range(&mut rng, 10, 15);
        proof {
            assert(100 <= (width as int) * (height as int) <= 196) by (nonlinear_arith)
                requires
                    10 <= width < 15,
                    10 <= height < 15,
            ;
        }
        let mut map = GameMap { tiles: util::Grid::new((width, height), &Tile::Empty) };
        let sx = rng_range(&mut rng, 0, width / 3);
        let sy = rng_range(&mut rng, 0, height / 3);
        let s1x = width - 1 - sx;
        let s1y = height - 1 - sy;
        proof {
            assert(3 * (width / 3) <= width && 3 * (height / 3) <= height);
            assert(sx < s1x && sy < s1y);
        }
        map.tiles.set((sx, sy), Tile::Spawn(PlayerID(0)));
        map.tiles.set((s1x, s1y), Tile::Spawn(PlayerID(1)));
        let ghost shape = map.tiles.spec_shape();
        let ghost o0 = shape.spec_to_offset((sx, sy));
        let ghost o1 = shape.spec_to_offset((s1x, s1y));
        proof {
            shape.lemma_to_offset_in_range((sx, sy));
            shape.lemma_to_offset_in_range((s1x, s1y));
            shape.lemma_from_to((sx, sy));
            shape.lemma_from_to((s1x, s1y));
            assert(o0 < o1) by (nonlinear_arith)
                requires
                    o0 == sx + sy * width,
                    o1 == s1x + s1y * width,
                    sx < width,
                    s1x < width,
                    sy < s1y,
                    width >= 1,
            ;
            assert forall|o: int| 0 <= o < map.tiles@.len() implies !(food_pred()(
                #[trigger] map.tiles@[o],
            )) && !(wall_pred()(map.tiles@[o])) by {}
            lemma_count_none(map.tiles@, food_pred());
            lemma_count_none(map.tiles@, wall_pred());
        }
        let ghost base = map.tiles@;
        let len = map.tiles.len();
        let food_lo = len / 20;
        let food_hi = len / 10;
        let wall_hi = len / 4;
        let food_max = rng_range(&mut rng, food_lo, food_hi);
        map.generate_tiles(food_max, Tile::Food { max_workers: 4 }, &mut rng);
        let ghost after_food = map.tiles@;
        proof {
            lemma_count_le_changed(base, after_food, food_pred());
            assert forall|o: int| 0 <= o < base.len() implies wall_pred()(#[trigger] base[o])
                == wall_pred()(after_food[o]) by {}
            lemma_count_equiv(base, after_food, wall_pred());
            assert(count_matching(after_food, food_pred()) <= food_max);
            assert(count_matching(after_food, wall_pred()) == 0);
        }
        let wall_max = rng_range(&mut rng, food_hi, wall_hi);
        map.generate_tiles(wall_max, Tile::Wall, &mut rng);
        proof {
            lemma_count_le_changed(after_food, map.tiles@, wall_pred());
            assert forall|o: int| 0 <= o < after_food.len() implies food_pred()(
                #[trigger] after_food[o],
            ) == food_pred()(map.tiles@[o]) by {}
            lemma_count_equiv(after_food, map.tiles@, food_pred());
            assert(count_matching(map.tiles@, food_pred()) < len / 10);
            assert(count_matching(map.tiles@, wall_pred()) < len / 4);
        }
        proof {
            assert(map.tiles@[o0] == Tile::Spawn(PlayerID(0)));
            assert(map.tiles@[o1] == Tile::Spawn(PlayerID(1)));
            assert forall|o: int| 0 <= o < map.tiles@.len() && o != o0 && o != o1 implies !(
            #[trigger] map.tiles@[o] is Spawn) by {}
            lemma_count_exactly_two(map.tiles@, spawn_pred(), o0, o1);
            assert(count_matching(map.tiles@, spawn_pred()) == 2);
        }
        map
    }
}

} // verus!
