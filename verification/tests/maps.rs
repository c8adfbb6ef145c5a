use flategy::game::{GameMap, PlayerID, Tile, World};
use flategy::render::{render_map, render_units};

#[test]
fn map_test_map() {
    let map = GameMap::generate_2p(75);
    assert!(map.width() * map.height() == map.tiles.len());

    let dump = map.dump();
    println!("{}", dump);
    assert!(dump.matches("()").count() == 2);
}

#[test]
fn mapgen_test_map() {
    let map = GameMap::generate_2p(75);
    assert!(map.width() * map.height() == map.tiles.len());

    assert_eq!(2, map.n_players());

    let dump = map.dump();
    println!("{}", dump);
    assert!(dump.matches("()").count() == 2);
}

#[test]
fn test_render_map() {
    let map = GameMap::choke_2p(7);
    let rmap = render_map(&map);
    assert_eq!(7, rmap.width);
    assert_eq!(7, rmap.height);
    assert_eq!(2 * 4, rmap.walls.len());
    assert_eq!(2, rmap.foods.len());
    assert_eq!(2, rmap.spawns.len());
}

#[test]
fn test_render_units() {
    let mut world = World::create(GameMap::choke_2p(7));
    world.spawn(PlayerID(0));
    world.spawn(PlayerID(0));
    world.spawn(PlayerID(1));

    let runits = render_units(&world.units);
    assert_eq!(3, runits.x.len());
    assert_eq!(3, runits.y.len());
    assert_eq!(3, runits.owner.len());
    assert_eq!(0, runits.owner[0]);
    assert_eq!(0, runits.owner[1]);
    assert_eq!(1, runits.owner[2]);
}

#[test]
fn test_generate_determinism() {
    let a = GameMap::generate_2p(42);
    let b = GameMap::generate_2p(42);
    assert_eq!(a.width(), b.width());
    assert_eq!(a.height(), b.height());
    assert_eq!(a.tiles.len(), b.tiles.len());
    for offset in 0..a.tiles.len() {
        assert_eq!(a.tiles.data()[offset], b.tiles.data()[offset]);
    }
    assert_eq!(a.dump(), b.dump());
}

#[test]
fn test_generate_seeds_differ() {
    // Distinct seeds drive the generator to distinct boards; a stream that
    // ignored the seed or the requested range would collapse these.
    let a = GameMap::generate_2p(42);
    let b = GameMap::generate_2p(43);
    let same_dims = a.width() == b.width() && a.height() == b.height();
    let same_tiles = same_dims
        && (0..a.tiles.len()).all(|o| a.tiles.data()[o] == b.tiles.data()[o]);
    assert!(!same_tiles);
}

#[test]
fn test_generate_spawn_reflection() {
    for seed in [0u64, 1, 7, 42, 75, 1234567] {
        let map = GameMap::generate_2p(seed);
        let w = map.width();
        let h = map.height();
        assert!((10..15).contains(&w));
        assert!((10..15).contains(&h));
        let rmap = render_map(&map);
        assert_eq!(2, rmap.spawns.len());
        let s0 = rmap
            .spawns
            .iter()
            .find(|s| s.2 == 0)
            .expect("spawn for player 0");
        let s1 = rmap
            .spawns
            .iter()
            .find(|s| s.2 == 1)
            .expect("spawn for player 1");
        assert!(s0.0 < w / 3);
        assert!(s0.1 < h / 3);
        assert_eq!(w - 1 - s0.0, s1.0);
        assert_eq!(h - 1 - s0.1, s1.1);
    }
}

#[test]
fn test_generate_density_bounds() {
    // Realized food and wall counts stay below the drawn targets' upper
    // bounds: a tenth and a quarter of the board.
    for seed in [0u64, 7, 42, 75] {
        let map = GameMap::generate_2p(seed);
        let rmap = render_map(&map);
        let len = map.tiles.len();
        assert!(rmap.foods.len() < len / 10);
        assert!(rmap.walls.len() < len / 4);
        for f in &rmap.foods {
            assert_eq!(4, f.2);
        }
    }
}

#[test]
fn test_choke_smallest() {
    // With size 3 the wall arms have length 0: food and spawns only.
    let map = GameMap::choke_2p(3);
    let rmap = render_map(&map);
    assert_eq!(0, rmap.walls.len());
    assert_eq!(2, rmap.foods.len());
    assert_eq!(2, rmap.spawns.len());
    assert_eq!(9, map.tiles.len());
}

#[test]
fn test_empty_2p_layout() {
    let map = GameMap::empty_2p(3);
    assert_eq!(9, map.tiles.len());
    assert!(matches!(map.tiles.data()[0], Tile::Spawn(PlayerID(0))));
    assert!(matches!(map.tiles.data()[8], Tile::Spawn(PlayerID(1))));
    for offset in 1..8 {
        assert!(matches!(map.tiles.data()[offset], Tile::Empty));
    }
}

#[test]
fn test_dump_exact() {
    let map = GameMap::empty_2p(2);
    let expected = "+------+\n| ()   |\n|   () |\n+------+";
    assert_eq!(expected, map.dump());
}

#[test]
fn test_dump_choke() {
    let map = GameMap::choke_2p(5);
    let dump = map.dump();
    // 5 rows framed by two borders; every line is 2 * 5 + 4 characters.
    let lines: Vec<&str> = dump.split('\n').collect();
    assert_eq!(7, lines.len());
    for line in &lines {
        assert_eq!(14, line.len());
    }
    assert_eq!("+------------+", lines[0]);
    assert_eq!(lines[0], lines[6]);
    assert_eq!(2, dump.matches("()").count());
    assert_eq!(2, dump.matches("::").count());
    assert_eq!(4, dump.matches("##").count());
}
