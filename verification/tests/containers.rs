use flategy::util::{Grid, VecMap};

#[test]
fn test_vecmap() {
    let mut map: VecMap<char> = VecMap::new();
    assert_eq!(None, map.get(0));

    map.insert(1, Some('a'));
    assert_eq!(None, map.get(0));
    assert_eq!(Some('a'), map.get(1));
}

#[test]
fn test_vecmap_overwrite_and_clear() {
    let mut map: VecMap<u32> = VecMap::new();
    for k in 0..8 {
        assert_eq!(None, map.get(k));
    }
    map.insert(3, Some(7));
    assert_eq!(Some(7), map.get(3));
    map.insert(3, Some(9));
    assert_eq!(Some(9), map.get(3));
    map.insert(3, None);
    assert_eq!(None, map.get(3));
    assert_eq!(None, map.get(2));
    assert_eq!(None, map.get(4));
}

#[test]
fn test_grid_2d() {
    let mut grid = Grid::new((2, 3), &'a');
    assert_eq!(6, grid.len());
    assert_eq!((2, 3), grid.shape());
    assert_eq!('a', *grid.get((1, 2)));

    grid.set((1, 2), 'b');
    assert_eq!('b', *grid.get((1, 2)));
    assert_eq!('a', *grid.get((1, 1)));
}

#[test]
fn test_grid_3d() {
    let mut grid = Grid::new((2, 3, 4), &'a');
    assert_eq!(24, grid.len());
    assert_eq!((2, 3, 4), grid.shape());
    assert_eq!('a', *grid.get((1, 2, 3)));

    grid.set((1, 2, 3), 'b');
    assert_eq!('b', *grid.get((1, 2, 3)));
    assert_eq!('a', *grid.get((0, 2, 3)));
}

#[test]
fn test_grid_no_overlap() {
    // Make sure each index maps to a unique location
    let mut grid = Grid::new((5, 6, 7), &false);
    let shape = grid.shape();
    for i in 0..shape.0 {
        for j in 0..shape.1 {
            for k in 0..shape.2 {
                assert!(!*grid.get((i, j, k)));
                grid.set((i, j, k), true);

                let offset = grid.to_offset((i, j, k));
                assert!(offset < grid.data().len());
                assert!(grid.from_offset(offset) == (i, j, k));
            }
        }
    }
}

#[test]
fn test_grid_2d_round_trip() {
    let grid = Grid::new((4, 9), &0u8);
    for x in 0..4 {
        for y in 0..9 {
            let offset = grid.to_offset((x, y));
            assert_eq!((x, y), grid.from_offset(offset));
            assert_eq!(offset, x + y * 4);
        }
    }
    for offset in 0..grid.len() {
        let c = grid.from_offset(offset);
        assert_eq!(offset, grid.to_offset(c));
    }
}
