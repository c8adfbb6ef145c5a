use flategy::game::{GameMap, GroupID, PlayerID, Point, UnitID, World};

#[test]
fn core_test_map() {
    let map = GameMap::empty_2p(5);
    assert_eq!(5, map.width());
    assert_eq!(5, map.height());
    assert_eq!(2, map.n_players());
    // Tile centers in half-tile units: (0.5, 0.5) and (4.5, 4.5).
    assert_eq!(Point { half_x: 1, half_y: 1 }, map.find_spawn(&PlayerID(0)));
    assert_eq!(Point { half_x: 9, half_y: 9 }, map.find_spawn(&PlayerID(1)));
}

#[test]
fn test_spawn() {
    let mut world = World::create(GameMap::choke_2p(7));
    world.spawn(PlayerID(0));
    world.assign_group(UnitID(0), GroupID(1));
    // The point (2.5, 0.5), in half-tile units.
    world.set_command(PlayerID(0), GroupID(1), Some(Point { half_x: 5, half_y: 1 }));
    assert_eq!(1, world.units.position.len());
    assert_eq!(Some(Point { half_x: 5, half_y: 1 }), world.commands[0].get(1));
    assert_eq!(None, world.commands[0].get(0));
}

#[test]
fn test_spawn_appends_only() {
    let mut world = World::create(GameMap::empty_2p(5));
    assert_eq!(0, world.units.position.len());
    assert_eq!(0, world.units.alive.len());
    assert_eq!(0, world.units.owner.len());
    assert_eq!(0, world.units.group.len());

    let first = world.spawn(PlayerID(0));
    let second = world.spawn(PlayerID(1));
    let third = world.spawn(PlayerID(0));
    assert_eq!(UnitID(0), first);
    assert_eq!(UnitID(1), second);
    assert_eq!(UnitID(2), third);

    assert_eq!(3, world.units.position.len());
    assert_eq!(3, world.units.alive.len());
    assert_eq!(3, world.units.owner.len());
    assert_eq!(3, world.units.group.len());
    for i in 0..3 {
        assert!(world.units.alive[i]);
        assert_eq!(GroupID(0), world.units.group[i]);
    }
    assert_eq!(PlayerID(0), world.units.owner[0]);
    assert_eq!(PlayerID(1), world.units.owner[1]);
    assert_eq!(Point { half_x: 1, half_y: 1 }, world.units.position[0]);
    assert_eq!(Point { half_x: 9, half_y: 9 }, world.units.position[1]);
}
