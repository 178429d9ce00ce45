use lost::grid::Grid;
use lost::player::PlayerAction;
use lost::pos::{Dir, TilePos};

#[test]
fn grid_get_and_set() {
    let mut g = Grid::new(3, 2, 0u8);
    assert_eq!(g.get(TilePos::new(2, 1)), Some(&0));
    assert_eq!(g.get(TilePos::new(3, 1)), None);
    assert_eq!(g.get(TilePos::new(0, -1)), None);
    g.set(TilePos::new(2, 1), 7);
    g.set(TilePos::new(5, 5), 9);
    assert_eq!(g.get(TilePos::new(2, 1)), Some(&7));
    assert_eq!(g.cells, vec![0, 0, 0, 0, 0, 7]);
}

#[test]
fn grid_from_raw_is_row_major() {
    let g = Grid::from_raw(2, 2, vec![1, 2, 3, 4]);
    assert_eq!(g.get(TilePos::new(1, 0)), Some(&2));
    assert_eq!(g.get(TilePos::new(0, 1)), Some(&3));
}

#[test]
fn directions() {
    assert_eq!(Dir::Up.opposite(), Dir::Down);
    assert_eq!(Dir::Left.opposite(), Dir::Right);
    let mut p = TilePos::new(3, 3);
    p.add_dir(Dir::Up);
    assert_eq!(p, TilePos::new(3, 4));
    p.add_dir(Dir::Left);
    assert_eq!(p, TilePos::new(2, 4));
    assert_eq!(TilePos::new(i32::MAX, 0).checked_neighbor(Dir::Right), None);
    assert_eq!(TilePos::new(0, 0).checked_neighbor(Dir::Down), Some(TilePos::new(0, -1)));
    assert_eq!(PlayerAction::Left.dir(), Dir::Left);
    assert_eq!(Dir::cardinal(2), Dir::Down);
}
