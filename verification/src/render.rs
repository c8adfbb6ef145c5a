//! Projections of game state into wire-friendly parallel lists: tile
//! coordinates grouped by kind, and the alive units' positions and owners.
//! The projection is one-way and lossy: empty tiles and dead units are
//! dropped.
use vstd::prelude::*;

use crate::game::{GameMap, Tile, Units};
use crate::util::GridIndex;

verus! {

#[derive(Debug, Clone, PartialEq, Eq, Structural)]
pub struct Wall(pub usize, pub usize);

#[derive(Debug, Clone, PartialEq, Eq, Structural)]
pub struct Food(pub usize, pub usize, pub u8);

#[derive(Debug, Clone, PartialEq, Eq, Structural)]
pub struct Spawn(pub usize, pub usize, pub u16);

/// A map, flattened to coordinate lists per tile kind.
#[derive(Debug, Clone)]
pub struct RenderMap {
    pub width: usize,
    pub height: usize,
    pub walls: Vec<Wall>,
    pub foods: Vec<Food>,
    pub spawns: Vec<Spawn>,
}

/// The alive units' tile-center coordinates (in half-tile units) and
/// owners, as parallel lists.
#[derive(Debug, Clone)]
pub struct RenderUnits {
    pub x: Vec<usize>,
    pub y: Vec<usize>,
    pub owner: Vec<u16>,
}

/// The wall list of the first `n` cells of `m`, in offset order.
pub open spec fn walls_upto(m: GameMap, n: int) -> Seq<Wall>
    decreases n,
{
    if n <= 0 {
        Seq::empty()
    } else {
        let prev = walls_upto(m, n - 1);
        let c = m.tiles.spec_shape().spec_from_offset(n - 1);
        match m.tiles@[n - 1] {
            Tile::Wall => prev.push(Wall(c.0, c.1)),
            _ => prev,
        }
    }
}

/// The food list of the first `n` cells of `m`, in offset order.
pub open spec fn foods_upto(m: GameMap, n: int) -> Seq<Food>
    decreases n,
{
    if n <= 0 {
        Seq::empty()
    } else {
        let prev = foods_upto(m, n - 1);
        let c = m.tiles.spec_shape().spec_from_offset(n - 1);
        match m.tiles@[n - 1] {
            Tile::Food { max_workers } => prev.push(Food(c.0, c.1, max_workers)),
            _ => prev,
        }
    }
}

/// The spawn list of the first `n` cells of `m`, in offset order.
pub open spec fn spawns_upto(m: GameMap, n: int) -> Seq<Spawn>
    decreases n,
{
    if n <= 0 {
        Seq::empty()
    } else {
        let prev = spawns_upto(m, n - 1);
        let c = m.tiles.spec_shape().spec_from_offset(n - 1);
        match m.tiles@[n - 1] {
            Tile::Spawn(p) => prev.push(Spawn(c.0, c.1, p.0)),
            _ => prev,
        }
    }
}

/// The `half_x` coordinates of the alive units among the first `n`.
pub open spec fn alive_x_upto(u: Units, n: int) -> Seq<usize>
    decreases n,
{
    if n <= 0 {
        Seq::empty()
    } else {
        let prev = alive_x_upto(u, n - 1);
        if u.alive@[n - 1] {
            prev.push(u.position@[n - 1].half_x)
        } else {
            prev
        }
    }
}

/// The `half_y` coordinates of the alive units among the first `n`.
pub open spec fn alive_y_upto(u: Units, n: int) -> Seq<usize>
    decreases n,
{
    if n <= 0 {
        Seq::empty()
    } else {
        let prev = alive_y_upto(u, n - 1);
        if u.alive@[n - 1] {
            prev.push(u.position@[n - 1].half_y)
        } else {
            prev
        }
    }
}

/// The owners of the alive units among the first `n`.
pub open spec fn alive_owner_upto(u: Units, n: int) -> Seq<u16>
    decreases n,
{
    if n <= 0 {
        Seq::empty()
    } else {
        let prev = alive_owner_upto(u, n - 1);
        if u.alive@[n - 1] {
            prev.push(u.owner@[n - 1].0)
        } else {
            prev
        }
    }
}

/// Flattens a map into per-kind coordinate lists, walking the backing
/// sequence in offset order.
pub fn render_map(map: &GameMap) -> (r: RenderMap)
    requires
        map.wf(),
    ensures
        r.width == map.spec_width(),
        r.height == map.spec_height(),
        r.walls@ == walls_upto(*map, map.tiles@.len() as int),
        r.foods@ == foods_upto(*map, map.tiles@.len() as int),
        r.spawns@ == spawns_upto(*map, map.tiles@.len() as int),
{
    let mut walls: Vec<Wall> = Vec::new();
    let mut foods: Vec<Food> = Vec::new();
    let mut spawns: Vec<Spawn> = Vec::new();
    let n = map.tiles.len();
    let mut idx: usize = 0;
    while idx < n
        invariant
            map.wf(),
            n == map.tiles@.len(),
            idx <= n,
            walls@ == walls_upto(*map, idx as int),
            foods@ == foods_upto(*map, idx as int),
            spawns@ == spawns_upto(*map, idx as int),
        decreases n - idx,
    {
        let c = map.tiles.from_offset(idx);
        let t = map.tiles.data()[idx];
        match t {
            Tile::Empty => {},
            Tile::Wall => walls.push(Wall(c.0, c.1)),
            Tile::Food { max_workers } => foods.push(Food(c.0, c.1, max_workers)),
            Tile::Spawn(id) => spawns.push(Spawn(c.0, c.1, id.0)),
        }
        idx = idx + 1;
    }
    RenderMap { width: map.width(), height: map.height(), walls, foods, spawns }
}

/// Refills `dest` with the alive units of `src`, clearing whatever it
/// held.
pub fn render_units_to(src: &Units, dest: &mut RenderUnits)
    requires
        src.wf(),
    ensures
        final(dest).x@ == alive_x_upto(*src, src.position@.len() as int),
        final(dest).y@ == alive_y_upto(*src, src.position@.len() as int),
        final(dest).owner@ == alive_owner_upto(*src, src.position@.len() as int),
{
    dest.x.clear();
    dest.y.clear();
    dest.owner.clear();
    let n = src.position.len();
    let mut idx: usize = 0;
    while idx < n
        invariant
            src.wf(),
            n == src.position@.len(),
            idx <= n,
            dest.x@ == alive_x_upto(*src, idx as int),
            dest.y@ == alive_y_upto(*src, idx as int),
            dest.owner@ == alive_owner_upto(*src, idx as int),
        decreases n - idx,
    {
        if src.alive[idx] {
            dest.x.push(src.position[idx].half_x);
            dest.y.push(src.position[idx].half_y);
            dest.owner.push(src.owner[idx].0);
        }
        idx = idx + 1;
    }
}

/// The alive units of `units` as a fresh projection.
pub fn render_units(units: &Units) -> (r: RenderUnits)
    requires
        units.wf(),
    ensures
        r.x@ == alive_x_upto(*units, units.position@.len() as int),
        r.y@ == alive_y_upto(*units, units.position@.len() as int),
        r.owner@ == alive_owner_upto(*units, units.position@.len() as int),
{
    let mut result = RenderUnits { x: Vec::new(), y: Vec::new(), owner: Vec::new() };
    render_units_to(units, &mut result);
    result
}

} // verus!
