//! Core game state: tiles, maps, units, and the per-player command table.
use vstd::prelude::*;
use vstd::string::StringExecFns;

use crate::util;
use crate::util::GridIndex;

verus! {

/// A continuous-space position, stored in half-tile units so that tile
/// centers (`coordinate + 0.5` on each axis) are exact integers: a field
/// value `h` stands for the coordinate `h / 2`.
#[derive(Debug, Copy, Clone, PartialEq, Eq, Structural)]
pub struct Point {
    pub half_x: usize,
    pub half_y: usize,
}

#[derive(Debug, Copy, Clone, PartialEq, Eq, Structural)]
pub struct UnitID(pub u32);

#[derive(Debug, Copy, Clone, PartialEq, Eq, Structural)]
pub struct PlayerID(pub u16);

#[derive(Debug, Copy, Clone, PartialEq, Eq, Structural)]
pub struct GroupID(pub u8);

/// A structure-of-arrays entity store: index `i` across the four columns
/// describes one unit. Units are only ever appended; death is a flag, not
/// removal, so an index names the same unit forever.
pub struct Units {
    pub position: Vec<Point>,
    pub alive: Vec<bool>,
    pub owner: Vec<PlayerID>,
    pub group: Vec<GroupID>,
}

impl Units {
    /// All four columns always have the same length.
    pub open spec fn wf(self) -> bool {
        &&& self.alive@.len() == self.position@.len()
        &&& self.owner@.len() == self.position@.len()
        &&& self.group@.len() == self.position@.len()
    }
}

#[derive(Debug, Copy, Clone, PartialEq, Eq, Structural)]
pub enum Tile {
    Empty,
    Wall,
    Food { max_workers: u8 },
    Spawn(PlayerID),
}

type Coordinate = (usize, usize);

/// The class of spawn tiles, as a predicate value usable with
/// `count_matching`.
pub open spec fn spawn_pred() -> spec_fn(Tile) -> bool {
    |t: Tile| t is Spawn
}

/// The class of food tiles.
pub open spec fn food_pred() -> spec_fn(Tile) -> bool {
    |t: Tile| t is Food
}

/// The class of wall tiles.
pub open spec fn wall_pred() -> spec_fn(Tile) -> bool {
    |t: Tile| t is Wall
}

/// How many tiles of `s` satisfy `p`.
pub open spec fn count_matching(s: Seq<Tile>, p: spec_fn(Tile) -> bool) -> int
    decreases s.len(),
{
    if s.len() == 0 {
        0
    } else {
        count_matching(s.drop_last(), p) + if p(s.last()) {
            1int
        } else {
            0int
        }
    }
}

/// Counting over a one-longer prefix adds the last tile's contribution.
pub proof fn lemma_count_take_step(s: Seq<Tile>, p: spec_fn(Tile) -> bool, i: int)
    requires
        0 <= i < s.len(),
    ensures
        count_matching(s.take(i + 1), p) == count_matching(s.take(i), p) + if p(s[i]) {
            1int
        } else {
            0int
        },
{
    assert(s.take(i + 1).drop_last() =~= s.take(i));
    assert(s.take(i + 1).last() == s[i]);
}

/// Replacing one tile changes the count by the difference of the two
/// tiles' contributions.
pub proof fn lemma_count_update(s: Seq<Tile>, p: spec_fn(Tile) -> bool, i: int, v: Tile)
    requires
        0 <= i < s.len(),
    ensures
        count_matching(s.update(i, v), p) == count_matching(s, p) - (if p(s[i]) {
            1int
        } else {
            0int
        }) + (if p(v) {
            1int
        } else {
            0int
        }),
    decreases s.len(),
{
    if i == s.len() - 1 {
        assert(s.update(i, v).drop_last() =~= s.drop_last());
        assert(s.update(i, v).last() == v);
    } else {
        lemma_count_update(s.drop_last(), p, i, v);
        assert(s.update(i, v).drop_last() =~= s.drop_last().update(i, v));
        assert(s.update(i, v).last() == s.last());
    }
}

/// A sequence none of whose tiles satisfies `p` counts zero.
pub proof fn lemma_count_none(s: Seq<Tile>, p: spec_fn(Tile) -> bool)
    requires
        forall|i: int| 0 <= i < s.len() ==> !p(s[i]),
    ensures
        count_matching(s, p) == 0,
    decreases s.len(),
{
    if s.len() > 0 {
        lemma_count_none(s.drop_last(), p);
    }
}

/// A sequence whose tiles satisfy `p` exactly at the two positions `i` and
/// `j` counts two.
pub proof fn lemma_count_exactly_two(s: Seq<Tile>, p: spec_fn(Tile) -> bool, i: int, j: int)
    requires
        0 <= i < j < s.len(),
        p(s[i]),
        p(s[j]),
        forall|k: int| 0 <= k < s.len() && k != i && k != j ==> !p(s[k]),
    ensures
        count_matching(s, p) == 2,
    decreases s.len(),
{
    if j == s.len() - 1 {
        assert forall|k: int| 0 <= k < s.drop_last().len() && k != i implies !p(
            s.drop_last()[k],
        ) by {
            assert(s.drop_last()[k] == s[k]);
        }
        lemma_count_one(s.drop_last(), p, i);
    } else {
        lemma_count_exactly_two(s.drop_last(), p, i, j);
    }
}

/// A sequence whose tiles satisfy `p` exactly at position `i` counts one.
pub proof fn lemma_count_one(s: Seq<Tile>, p: spec_fn(Tile) -> bool, i: int)
    requires
        0 <= i < s.len(),
        p(s[i]),
        forall|k: int| 0 <= k < s.len() && k != i ==> !p(s[k]),
    ensures
        count_matching(s, p) == 1,
    decreases s.len(),
{
    if i == s.len() - 1 {
        lemma_count_none(s.drop_last(), p);
    } else {
        lemma_count_one(s.drop_last(), p, i);
    }
}


/// How many positions of two same-length sequences hold different tiles.
pub open spec fn count_changed(a: Seq<Tile>, b: Seq<Tile>) -> int
    recommends
        a.len() == b.len(),
    decreases a.len(),
{
    if a.len() == 0 || a.len() != b.len() {
        0
    } else {
        count_changed(a.drop_last(), b.drop_last()) + if a.last() == b.last() {
            0int
        } else {
            1int
        }
    }
}

/// A sequence differs from itself nowhere.
pub proof fn lemma_count_changed_refl(a: Seq<Tile>)
    ensures
        count_changed(a, a) == 0,
    decreases a.len(),
{
    if a.len() > 0 {
        lemma_count_changed_refl(a.drop_last());
    }
}

/// Updating one position moves the diff count by the difference of that
/// position's old and new disagreement with `a`.
pub proof fn lemma_count_changed_update(a: Seq<Tile>, b: Seq<Tile>, i: int, v: Tile)
    requires
        a.len() == b.len(),
        0 <= i < a.len(),
    ensures
        count_changed(a, b.update(i, v)) == count_changed(a, b) - (if a[i] == b[i] {
            0int
        } else {
            1int
        }) + (if a[i] == v {
            0int
        } else {
            1int
        }),
    decreases a.len(),
{
    if i == a.len() - 1 {
        assert(b.update(i, v).drop_last() =~= b.drop_last());
        assert(b.update(i, v).last() == v);
    } else {
        lemma_count_changed_update(a.drop_last(), b.drop_last(), i, v);
        assert(b.update(i, v).drop_last() =~= b.drop_last().update(i, v));
        assert(b.update(i, v).last() == b.last());
        assert(a.drop_last()[i] == a[i]);
        assert(b.drop_last()[i] == b[i]);
    }
}

/// The count of `p` can grow from `a` to `b` by at most the number of
/// changed positions.
pub proof fn lemma_count_le_changed(a: Seq<Tile>, b: Seq<Tile>, p: spec_fn(Tile) -> bool)
    requires
        a.len() == b.len(),
    ensures
        count_matching(b, p) <= count_matching(a, p) + count_changed(a, b),
    decreases a.len(),
{
    if a.len() > 0 {
        lemma_count_le_changed(a.drop_last(), b.drop_last(), p);
    }
}

/// Sequences pointwise equivalent under `p` count the same.
pub proof fn lemma_count_equiv(a: Seq<Tile>, b: Seq<Tile>, p: spec_fn(Tile) -> bool)
    requires
        a.len() == b.len(),
        forall|i: int| 0 <= i < a.len() ==> p(a[i]) == p(b[i]),
    ensures
        count_matching(a, p) == count_matching(b, p),
    decreases a.len(),
{
    if a.len() > 0 {
        assert forall|i: int| 0 <= i < a.drop_last().len() implies p(a.drop_last()[i]) == p(
            b.drop_last()[i],
        ) by {
            assert(a.drop_last()[i] == a[i]);
            assert(b.drop_last()[i] == b[i]);
        }
        lemma_count_equiv(a.drop_last(), b.drop_last(), p);
        assert(p(a.last()) == p(b.last()));
    }
}

/// The tile `empty_2p` places at flat offset `o` of a `size x size` board:
/// one spawn per player in opposite corners, everything else empty. (For the
/// degenerate 1x1 board the second spawn overwrites the first.)
pub open spec fn empty_2p_tile_at(size: int, o: int) -> Tile {
    if o == size * size - 1 {
        Tile::Spawn(PlayerID(1))
    } else if o == 0 {
        Tile::Spawn(PlayerID(0))
    } else {
        Tile::Empty
    }
}

/// Whether coordinate `(x, y)` lies on one of the four choke wall arms of a
/// `size x size` board, counting only the first `k` cells of each arm.
pub open spec fn choke_wall_upto(size: int, k: int, x: int, y: int) -> bool {
    ||| (x == size / 2 && (y < k || size - k <= y))
    ||| (y == size / 2 && (x < k || size - k <= x))
}

/// The tile `choke_2p` places at coordinate `(x, y)` of a `size x size`
/// board (`size` odd and at least 3): the `empty_2p` spawns, a food tile in
/// each of the two free corners, and four wall arms of `size / 2 - 1` cells
/// each, running along the center row and column from the edges and
/// converging on — but leaving open — the center.
pub open spec fn choke_tile(size: int, x: int, y: int) -> Tile {
    if x == 0 && y == size - 1 {
        Tile::Food { max_workers: 4 }
    } else if x == size - 1 && y == 0 {
        Tile::Food { max_workers: 4 }
    } else if choke_wall_upto(size, size / 2 - 1, x, y) {
        Tile::Wall
    } else {
        empty_2p_tile_at(size, x + y * size)
    }
}

/// The center of tile `(x, y)`: the point `(x + 0.5, y + 0.5)`, in
/// half-tile units.
pub open spec fn spec_center(c: Coordinate) -> Point {
    Point { half_x: (2 * c.0 + 1) as usize, half_y: (2 * c.1 + 1) as usize }
}

/// The two-character rendering of one tile in `dump`.
pub open spec fn tile_chars(t: Tile) -> Seq<char> {
    match t {
        Tile::Empty => seq![' ', ' '],
        Tile::Wall => seq!['#', '#'],
        Tile::Food { max_workers: _ } => seq![':', ':'],
        Tile::Spawn(_) => seq!['(', ')'],
    }
}

/// `n` dashes.
pub open spec fn dashes(n: int) -> Seq<char>
    decreases n,
{
    if n <= 0 {
        Seq::empty()
    } else {
        dashes(n - 1).push('-')
    }
}

/// A tile grid with derived queries. The number of players of a map is the
/// number of its spawn tiles.
#[derive(Clone)]
pub struct GameMap {
    pub tiles: util::Grid<Coordinate, Tile>,
}

impl GameMap {
    pub open spec fn wf(self) -> bool {
        self.tiles.wf()
    }

    pub open spec fn spec_width(self) -> int {
        self.tiles.spec_shape().0 as int
    }

    pub open spec fn spec_height(self) -> int {
        self.tiles.spec_shape().1 as int
    }

    pub open spec fn spec_n_players(self) -> int {
        count_matching(self.tiles@, spawn_pred())
    }

    /// Whether some cell of the map holds this player's spawn tile.
    pub open spec fn spec_has_spawn(self, player: PlayerID) -> bool {
        exists|o: int|
            0 <= o < self.tiles@.len() && self.tiles@[o] == Tile::Spawn(player)
    }

    /// The first flat offset holding this player's spawn tile.
    pub open spec fn spec_spawn_offset(self, player: PlayerID) -> int {
        choose|o: int|
            {
                &&& 0 <= o < self.tiles@.len()
                &&& self.tiles@[o] == Tile::Spawn(player)
                &&& forall|j: int|
                    0 <= j < o ==> self.tiles@[j] != Tile::Spawn(player)
            }
    }

    /// The point at the center of this player's first spawn tile.
    pub open spec fn spec_find_spawn(self, player: PlayerID) -> Point {
        spec_center(
            self.tiles.spec_shape().spec_from_offset(self.spec_spawn_offset(player)),
        )
    }

    /// A `size x size` all-empty board with `Spawn(0)` at `(0, 0)` and
    /// `Spawn(1)` at `(size - 1, size - 1)`.
    pub fn empty_2p(size: usize) -> (r: Self)
        requires
            2 <= size,
            size * size <= usize::MAX,
        ensures
            r.wf(),
            r.spec_width() == size,
            r.spec_height() == size,
            r.tiles@.len() == size * size,
            forall|o: int|
                0 <= o < size * size ==> #[trigger] r.tiles@[o] == empty_2p_tile_at(
                    size as int,
                    o,
                ),
            r.spec_n_players() == 2,
    {
        let mut grid = util::Grid::new((size, size), &Tile::Empty);
        grid.set((0, 0), Tile::Spawn(PlayerID(0)));
        grid.set((size - 1, size - 1), Tile::Spawn(PlayerID(1)));
        proof {
            let shape = (size, size);
            let sz: int = size as int;
            assert((0usize, 0usize).0 == 0usize && (0usize, 0usize).1 == 0usize);
            assert(shape.0 == size);
            assert(0 + 0 * (size as int) == 0);
            assert(shape.spec_to_offset((0usize, 0usize)) == (0usize, 0usize).0 + (0usize, 0usize).1
                * shape.0);
            assert(shape.spec_to_offset((0usize, 0usize)) == 0);
            assert((sz - 1) + (sz - 1) * sz == sz * sz - 1) by (nonlinear_arith);
            assert(sz * sz - 1 >= 3) by (nonlinear_arith)
                requires
                    sz >= 2,
            ;
            assert(grid@[0] == Tile::Spawn(PlayerID(0)));
            assert(grid@[sz * sz - 1] == Tile::Spawn(PlayerID(1)));
            lemma_count_exactly_two(grid@, spawn_pred(), 0, sz * sz - 1);
        }
        GameMap { tiles: grid }
    }

    /// A `size x size` board (odd `size >= 3`) with the `empty_2p` spawns,
    /// four wall arms converging on an open center, and a food tile in each
    /// free corner.
    pub fn choke_2p(size: usize) -> (r: Self)
        requires
            3 <= size,
            size % 2 == 1,
            size * size <= usize::MAX,
        ensures
            r.wf(),
            r.spec_width() == size,
            r.spec_height() == size,
            r.tiles@.len() == size * size,
            forall|x: int, y: int|
                0 <= x < size && 0 <= y < size ==> #[trigger] r.tiles@[r.tiles.spec_shape().spec_to_offset(
                    ((x as usize, y as usize)),
                )] == choke_tile(size as int, x, y),
            r.spec_n_players() == 2,
            count_matching(r.tiles@, food_pred()) == 2,
            count_matching(r.tiles@, wall_pred()) == 4 * ((size as int) / 2 - 1),
    {
        let mut map = Self::empty_2p(size);
        let index = size / 2;
        let length = index - 1;
        let ghost sz: int = size as int;
        proof {
            assert forall|o: int| 0 <= o < size * size implies #[trigger] map.tiles@[o] == {
                let c = map.tiles.spec_shape().spec_from_offset(o);
                if choke_wall_upto(sz, 0, c.0 as int, c.1 as int) {
                    Tile::Wall
                } else {
                    empty_2p_tile_at(sz, o)
                }
            } by {
                map.tiles.spec_shape().lemma_to_from(o);
            }
            assert forall|o: int| 0 <= o < size * size implies !(wall_pred()(
                #[trigger] map.tiles@[o],
            )) by {
                map.tiles.spec_shape().lemma_to_from(o);
            }
            lemma_count_none(map.tiles@, wall_pred());
        }
        let mut i: usize = 0;
        while i < length
            invariant
                3 <= size,
                size % 2 == 1,
                size * size <= usize::MAX,
                index == size / 2,
                length == index - 1,
                i <= length,
                map.wf(),
                map.tiles.spec_shape() == (size, size),
                map.tiles@.len() == size * size,
                count_matching(map.tiles@, wall_pred()) == 4 * i,
                forall|o: int|
                    0 <= o < size * size ==> #[trigger] map.tiles@[o] == {
                        let c = map.tiles.spec_shape().spec_from_offset(o);
                        if choke_wall_upto(size as int, i as int, c.0 as int, c.1 as int) {
                            Tile::Wall
                        } else {
                            empty_2p_tile_at(size as int, o)
                        }
                    },
            decreases length - i,
        {
            let ghost pre = map.tiles@;
            map.tiles.set((index, i), Tile::Wall);
            map.tiles.set((index, size - 1 - i), Tile::Wall);
            map.tiles.set((i, index), Tile::Wall);
            map.tiles.set((size - 1 - i, index), Tile::Wall);
            proof {
                let shape = (size, size);
                let c1 = (index, i);
                let c2 = (index, (size - 1 - i) as usize);
                let c3 = (i, index);
                let c4 = ((size - 1 - i) as usize, index);
                shape.lemma_from_to(c1);
                shape.lemma_from_to(c2);
                shape.lemma_from_to(c3);
                shape.lemma_from_to(c4);
                shape.lemma_to_offset_in_range(c1);
                shape.lemma_to_offset_in_range(c2);
                shape.lemma_to_offset_in_range(c3);
                shape.lemma_to_offset_in_range(c4);
                let t1 = shape.spec_to_offset(c1);
                let t2 = shape.spec_to_offset(c2);
                let t3 = shape.spec_to_offset(c3);
                let t4 = shape.spec_to_offset(c4);
                assert(2 * (index as int) == size - 1);
                assert(c1 != c2 && c1 != c3 && c1 != c4 && c2 != c3 && c2 != c4 && c3 != c4);
                assert(t1 != t2 && t1 != t3 && t1 != t4 && t2 != t3 && t2 != t4 && t3 != t4);
                let s1 = pre.update(t1, Tile::Wall);
                let s2 = s1.update(t2, Tile::Wall);
                let s3 = s2.update(t3, Tile::Wall);
                assert(map.tiles@ == s3.update(t4, Tile::Wall));
                assert(!(wall_pred()(pre[t1])) && !(wall_pred()(pre[t2])) && !(wall_pred()(
                pre[t3],
                )) && !(wall_pred()(pre[t4])));
                lemma_count_update(pre, wall_pred(), t1, Tile::Wall);
                lemma_count_update(s1, wall_pred(), t2, Tile::Wall);
                lemma_count_update(s2, wall_pred(), t3, Tile::Wall);
                lemma_count_update(s3, wall_pred(), t4, Tile::Wall);
                assert(count_matching(map.tiles@, wall_pred()) == 4 * (i + 1));
                assert forall|o: int| 0 <= o < size * size implies #[trigger] map.tiles@[o] == {
                    let c = shape.spec_from_offset(o);
                    if choke_wall_upto(size as int, i + 1, c.0 as int, c.1 as int) {
                        Tile::Wall
                    } else {
                        empty_2p_tile_at(size as int, o)
                    }
                } by {
                    shape.lemma_to_from(o);
                    let c = shape.spec_from_offset(o);
                    assert(shape.spec_to_offset(c) == o);
                    if c == c1 || c == c2 || c == c3 || c == c4 {
                        assert(map.tiles@[o] == Tile::Wall);
                        assert(choke_wall_upto(size as int, i + 1, c.0 as int, c.1 as int));
                    } else {
                        assert(o != shape.spec_to_offset(c1));
                        assert(o != shape.spec_to_offset(c2));
                        assert(o != shape.spec_to_offset(c3));
                        assert(o != shape.spec_to_offset(c4));
                        assert(map.tiles@[o] == pre[o]);
                        assert(choke_wall_upto(size as int, i + 1, c.0 as int, c.1 as int)
                            == choke_wall_upto(size as int, i as int, c.0 as int, c.1 as int));
                    }
                }
            }
            i = i + 1;
        }
        let ghost pref = map.tiles@;
        map.tiles.set((0, size - 1), Tile::Food { max_workers: 4 });
        map.tiles.set((size - 1, 0), Tile::Food { max_workers: 4 });
        proof {
            let shape = (size, size);
            shape.lemma_from_to(((0usize, (size - 1) as usize)));
            shape.lemma_from_to((((size - 1) as usize, 0usize)));
            shape.lemma_from_to((((size - 1) as usize, (size - 1) as usize)));
            shape.lemma_to_offset_in_range(((0usize, (size - 1) as usize)));
            shape.lemma_to_offset_in_range((((size - 1) as usize, 0usize)));
            let o_food_a = shape.spec_to_offset(((0usize, (size - 1) as usize)));
            let o_food_b = shape.spec_to_offset((((size - 1) as usize, 0usize)));
            let o_spawn_b = shape.spec_to_offset((((size - 1) as usize, (size - 1) as usize)));
            assert((sz - 1) + (sz - 1) * sz == sz * sz - 1) by (nonlinear_arith);
            assert(o_food_a == (sz - 1) * sz);
            assert(o_food_b == sz - 1);
            assert(sz - 1 < (sz - 1) * sz && (sz - 1) * sz < sz * sz - 1) by (nonlinear_arith)
                requires
                    sz >= 3,
            ;
            assert forall|x: int, y: int|
                0 <= x < size && 0 <= y < size implies #[trigger] map.tiles@[shape.spec_to_offset(
                ((x as usize, y as usize)),
            )] == choke_tile(sz, x, y) by {
                shape.lemma_from_to((x as usize, y as usize));
                shape.lemma_to_offset_in_range((x as usize, y as usize));
            }
            assert forall|o: int| 0 <= o < sz * sz implies
                ((#[trigger] map.tiles@[o] is Spawn) <==> (o == 0 || o == sz * sz - 1)) by {
                shape.lemma_to_from(o);
            }
            assert forall|o: int| 0 <= o < sz * sz implies
                ((#[trigger] map.tiles@[o] is Food) <==> (o == o_food_a || o == o_food_b)) by {
                shape.lemma_to_from(o);
            }
            lemma_count_exactly_two(map.tiles@, spawn_pred(), 0, sz * sz - 1);
            lemma_count_exactly_two(map.tiles@, food_pred(), sz - 1, (sz - 1) * sz);
            let f1 = pref.update(o_food_a, Tile::Food { max_workers: 4 });
            assert(map.tiles@ == f1.update(o_food_b, Tile::Food { max_workers: 4 }));
            assert(!(wall_pred()(pref[o_food_a])) && !(wall_pred()(pref[o_food_b])));
            lemma_count_update(pref, wall_pred(), o_food_a, Tile::Food { max_workers: 4 });
            lemma_count_update(f1, wall_pred(), o_food_b, Tile::Food { max_workers: 4 });
            assert(count_matching(map.tiles@, wall_pred()) == 4 * (sz / 2 - 1));
        }
        map
    }

    /// The point at the center of tile `coordinate`.
    pub fn center(coordinate: Coordinate) -> (r: Point)
        requires
            2 * coordinate.0 + 1 <= usize::MAX,
            2 * coordinate.1 + 1 <= usize::MAX,
        ensures
            r == spec_center(coordinate),
    {
        Point { half_x: 2 * coordinate.0 + 1, half_y: 2 * coordinate.1 + 1 }
    }

    pub fn width(&self) -> (r: usize)
        ensures
            r == self.spec_width(),
    {
        self.tiles.shape().0
    }

    pub fn height(&self) -> (r: usize)
        ensures
            r == self.spec_height(),
    {
        self.tiles.shape().1
    }

    /// The number of players: the number of spawn tiles on the board.
    pub fn n_players(&self) -> (r: usize)
        ensures
            r == self.spec_n_players(),
    {
        let data = self.tiles.data();
        let n = data.len();
        let mut count: usize = 0;
        let mut idx: usize = 0;
        proof {
            assert(self.tiles@.take(0) =~= Seq::<Tile>::empty());
        }
        while idx < n
            invariant
                n == self.tiles@.len(),
                idx <= n,
                data@ == self.tiles@,
                count == count_matching(self.tiles@.take(idx as int), spawn_pred()),
                count <= idx,
            decreases n - idx,
        {
            proof {
                lemma_count_take_step(self.tiles@, spawn_pred(), idx as int);
            }
            match data[idx] {
                Tile::Spawn(_) => {
                    count = count + 1;
                },
                _ => {},
            }
            idx = idx + 1;
        }
        proof {
            assert(self.tiles@.take(n as int) =~= self.tiles@);
        }
        count
    }

    /// The cells of row `y`, columns `[0, x)`, rendered left to right.
    pub open spec fn row_chars_upto(self, y: int, x: int) -> Seq<char>
        decreases x,
    {
        if x <= 0 {
            Seq::empty()
        } else {
            self.row_chars_upto(y, x - 1) + tile_chars(
                self.tiles@[(x - 1) + y * self.spec_width()],
            )
        }
    }

    /// Row `y` as `dump` prints it: the cells between a `"| "` and a
    /// `" |"` frame.
    pub open spec fn row_line(self, y: int) -> Seq<char> {
        seq!['|', ' '] + self.row_chars_upto(y, self.spec_width()) + seq![' ', '|']
    }

    /// Rows `[0, y)`, separated by newlines.
    pub open spec fn rows_upto(self, y: int) -> Seq<char>
        decreases y,
    {
        if y <= 0 {
            Seq::empty()
        } else if y == 1 {
            self.row_line(0)
        } else {
            self.rows_upto(y - 1) + seq!['\n'] + self.row_line(y - 1)
        }
    }

    /// The horizontal border: `+-`, one dash pair per column, `-+`.
    pub open spec fn border_line(self) -> Seq<char> {
        seq!['+', '-'] + dashes(2 * self.spec_width()) + seq!['-', '+']
    }

    /// Everything `dump` prints: border, newline, the rows joined by
    /// newlines, newline, border.
    pub open spec fn dump_chars(self) -> Seq<char> {
        self.border_line() + seq!['\n'] + self.rows_upto(self.spec_height()) + seq!['\n']
            + self.border_line()
    }

    /// Renders the grid as a fixed-width ASCII box, for terminal and log
    /// display.
    pub fn dump(&self) -> (r: String)
        requires
            self.wf(),
        ensures
            r@ == self.dump_chars(),
    {
        let w = self.width();
        let h = self.height();
        let mut border = String::new();
        border.append("+-");
        proof {
            reveal_strlit("+-");
            assert(border@ =~= seq!['+', '-'] + dashes(0));
        }
        let mut k: usize = 0;
        while k < w
            invariant
                k <= w,
                border@ == seq!['+', '-'] + dashes(2 * k),
            decreases w - k,
        {
            border.append("--");
            proof {
                reveal_strlit("--");
                assert(dashes(2 * k + 1) == dashes(2 * k).push('-'));
                assert(dashes(2 * k + 2) == dashes(2 * k + 1).push('-'));
                assert(border@ =~= seq!['+', '-'] + dashes(2 * (k + 1)));
            }
            k = k + 1;
        }
        border.append("-+");
        proof {
            reveal_strlit("-+");
            assert(border@ =~= self.border_line());
        }
        let mut out = String::new();
        out.append(border.as_str());
        out.append("\n");
        proof {
            reveal_strlit("\n");
            assert(out@ =~= self.border_line() + seq!['\n'] + self.rows_upto(0));
        }
        let mut y: usize = 0;
        while y < h
            invariant
                self.wf(),
                w == self.spec_width(),
                h == self.spec_height(),
                y <= h,
                border@ == self.border_line(),
                out@ == self.border_line() + seq!['\n'] + self.rows_upto(y as int),
            decreases h - y,
        {
            if y > 0 {
                out.append("\n");
            }
            out.append("| ");
            proof {
                reveal_strlit("\n");
                reveal_strlit("| ");
                assert(out@ =~= self.border_line() + seq!['\n'] + self.rows_upto(y as int) + (
                if y > 0 {
                    seq!['\n']
                } else {
                    Seq::empty()
                }) + seq!['|', ' '] + self.row_chars_upto(y as int, 0));
            }
            let mut x: usize = 0;
            while x < w
                invariant
                    self.wf(),
                    w == self.spec_width(),
                    h == self.spec_height(),
                    y < h,
                    x <= w,
                    out@ == self.border_line() + seq!['\n'] + self.rows_upto(y as int) + (if y
                        > 0 {
                        seq!['\n']
                    } else {
                        Seq::empty()
                    }) + seq!['|', ' '] + self.row_chars_upto(y as int, x as int),
                decreases w - x,
            {
                proof {
                    self.tiles.spec_shape().lemma_to_offset_in_range((x, y));
                    assert(self.tiles.spec_shape().spec_to_offset((x, y)) == (x, y).0 + (x, y).1
                        * self.tiles.spec_shape().0);
                }
                let t = *self.tiles.get((x, y));
                match t {
                    Tile::Empty => out.append("  "),
                    Tile::Wall => out.append("##"),
                    Tile::Food { max_workers: _ } => out.append("::"),
                    Tile::Spawn(_) => out.append("()"),
                }
                proof {
                    reveal_strlit("  ");
                    reveal_strlit("##");
                    reveal_strlit("::");
                    reveal_strlit("()");
                    assert(out@ =~= self.border_line() + seq!['\n'] + self.rows_upto(y as int) + (
                    if y > 0 {
                        seq!['\n']
                    } else {
                        Seq::empty()
                    }) + seq!['|', ' '] + self.row_chars_upto(y as int, x + 1));
                }
                x = x + 1;
            }
            out.append(" |");
            proof {
                reveal_strlit(" |");
                assert(out@ =~= self.border_line() + seq!['\n'] + self.rows_upto(y + 1));
            }
            y = y + 1;
        }
        out.append("\n");
        out.append(border.as_str());
        proof {
            reveal_strlit("\n");
            assert(out@ =~= self.dump_chars());
        }
        out
    }

    /// The center point of the first spawn tile belonging to `player`.
    pub fn find_spawn(&self, player: &PlayerID) -> (r: Point)
        requires
            self.wf(),
            self.spec_has_spawn(*player),
            self.spec_width() <= usize::MAX / 2,
            self.spec_height() <= usize::MAX / 2,
        ensures
            r == self.spec_find_spawn(*player),
    {
        let data = self.tiles.data();
        let n = data.len();
        let mut idx: usize = 0;
        while idx < n
            invariant
                n == self.tiles@.len(),
                idx <= n,
                data@ == self.tiles@,
                self.wf(),
                self.spec_has_spawn(*player),
                self.spec_width() <= usize::MAX / 2,
                self.spec_height() <= usize::MAX / 2,
                forall|j: int| 0 <= j < idx ==> self.tiles@[j] != Tile::Spawn(*player),
            decreases n - idx,
        {
            let found = match data[idx] {
                Tile::Spawn(p) => p.0 == player.0,
                _ => false,
            };
            if found {
                proof {
                    assert(self.tiles@[idx as int] == Tile::Spawn(*player));
                    let o = self.spec_spawn_offset(*player);
                    assert({
                        &&& 0 <= o < self.tiles@.len()
                        &&& self.tiles@[o] == Tile::Spawn(*player)
                        &&& forall|j: int|
                            0 <= j < o ==> self.tiles@[j] != Tile::Spawn(*player)
                    }) by {
                        assert({
                            &&& 0 <= idx < self.tiles@.len()
                            &&& self.tiles@[idx as int] == Tile::Spawn(*player)
                            &&& forall|j: int|
                                0 <= j < idx ==> self.tiles@[j] != Tile::Spawn(*player)
                        });
                    }
                    assert(o == idx);
                }
                let c = self.tiles.from_offset(idx);
                return Self::center(c);
            }
            idx = idx + 1;
        }
        proof {
            assert(false);
        }
        vstd::pervasive::unreached()
    }
}

/// One game: a map, the unit store, and one pending-command table per
/// player slot.
pub struct World {
    pub map: GameMap,
    pub units: Units,
    pub commands: Vec<util::VecMap<Point>>,
}

impl World {
    pub open spec fn wf(self) -> bool {
        &&& self.map.wf()
        &&& self.units.wf()
        &&& self.commands@.len() == self.map.spec_n_players()
    }

    /// A fresh world over `map`: no units, and one all-absent command table
    /// per player.
    pub fn create(map: GameMap) -> (r: World)
        requires
            map.wf(),
        ensures
            r.wf(),
            r.map == map,
            r.units.position@.len() == 0,
            r.units.alive@.len() == 0,
            r.units.owner@.len() == 0,
            r.units.group@.len() == 0,
            r.commands@.len() == map.spec_n_players(),
            forall|p: int, g: int|
                0 <= p < r.commands@.len() ==> #[trigger] r.commands@[p].spec_get(g) is None,
    {
        let n = map.n_players();
        let mut commands: Vec<util::VecMap<Point>> = Vec::new();
        while commands.len() < n
            invariant
                commands@.len() <= n,
                forall|p: int, g: int|
                    0 <= p < commands@.len() ==> #[trigger] commands@[p].spec_get(g) is None,
            decreases n - commands.len(),
        {
            commands.push(util::VecMap::new());
        }
        World {
            map,
            units: Units {
                position: Vec::new(),
                alive: Vec::new(),
                owner: Vec::new(),
                group: Vec::new(),
            },
            commands,
        }
    }

    /// Appends one unit for `player` at the center of that player's spawn
    /// tile, alive and in the default group, and returns its index.
    pub fn spawn(&mut self, player: PlayerID) -> (r: UnitID)
        requires
            old(self).wf(),
            old(self).map.spec_has_spawn(player),
            old(self).map.spec_width() <= usize::MAX / 2,
            old(self).map.spec_height() <= usize::MAX / 2,
            old(self).units.position@.len() < u32::MAX,
        ensures
            final(self).wf(),
            final(self).map == old(self).map,
            final(self).commands == old(self).commands,
            final(self).units.position@ == old(self).units.position@.push(
                old(self).map.spec_find_spawn(player),
            ),
            final(self).units.alive@ == old(self).units.alive@.push(true),
            final(self).units.owner@ == old(self).units.owner@.push(player),
            final(self).units.group@ == old(self).units.group@.push(GroupID(0)),
            r.0 == old(self).units.position@.len(),
    {
        let unit = UnitID(self.units.position.len() as u32);
        let spawn = self.map.find_spawn(&player);
        self.units.position.push(spawn);
        self.units.alive.push(true);
        self.units.owner.push(player);
        self.units.group.push(GroupID(0));
        unit
    }

    /// Overwrites the group of unit `unit`.
    pub fn assign_group(&mut self, unit: UnitID, group: GroupID)
        requires
            old(self).wf(),
            unit.0 < old(self).units.group@.len(),
        ensures
            final(self).wf(),
            final(self).map == old(self).map,
            final(self).commands == old(self).commands,
            final(self).units.position == old(self).units.position,
            final(self).units.alive == old(self).units.alive,
            final(self).units.owner == old(self).units.owner,
            final(self).units.group@ == old(self).units.group@.update(unit.0 as int, group),
    {
        let idx = unit.0 as usize;
        let slot = &mut self.units.group[idx];
        *slot = group;
    }

    /// Writes `command` (a target point, or absent) for the given player
    /// and group, overwriting any previous value.
    pub fn set_command(&mut self, player: PlayerID, group: GroupID, command: Option<Point>)
        requires
            old(self).wf(),
            player.0 < old(self).commands@.len(),
        ensures
            final(self).wf(),
            final(self).map == old(self).map,
            final(self).units == old(self).units,
            final(self).commands@.len() == old(self).commands@.len(),
            final(self).commands@[player.0 as int].spec_get(group.0 as int) == command,
            forall|g: int|
                g != group.0 ==> final(self).commands@[player.0 as int].spec_get(g) == old(
                    self,
                ).commands@[player.0 as int].spec_get(g),
            forall|p: int|
                0 <= p < old(self).commands@.len() && p != player.0
                    ==> final(self).commands@[p] == old(self).commands@[p],
    {
        let idx = player.0 as usize;
        let table = &mut self.commands[idx];
        table.insert(group.0 as usize, command);
    }
}

} // verus!
