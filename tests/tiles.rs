use lost::level::{Level, TileKind};
use lost::pos::TilePos;
use lost::tiles::{calculate_wall_index, wall_tile, Neighbors, TileFlip};

fn nb(bits: [bool; 8]) -> Neighbors {
    Neighbors {
        n: bits[0],
        ne: bits[1],
        e: bits[2],
        se: bits[3],
        s: bits[4],
        sw: bits[5],
        w: bits[6],
        nw: bits[7],
    }
}

const NONE: TileFlip = TileFlip { x: false, y: false, d: false };

#[test]
fn wall_sprites_by_open_sides() {
    assert_eq!(wall_tile(nb([false; 8])), (8, NONE));
    assert_eq!(wall_tile(nb([true; 8])), (7, NONE));
    assert_eq!(
        wall_tile(nb([false, false, true, false, false, false, false, false])),
        (0, TileFlip { x: true, y: false, d: true })
    );
    assert_eq!(
        wall_tile(nb([true, false, false, false, true, false, false, false])),
        (5, TileFlip { x: false, y: true, d: true })
    );
    assert_eq!(
        wall_tile(nb([false, true, false, false, false, true, false, false])),
        (11, TileFlip { x: true, y: true, d: false })
    );
    assert_eq!(
        wall_tile(nb([false, true, false, true, false, true, false, true])),
        (13, NONE)
    );
    assert_eq!(
        wall_tile(nb([true, true, true, false, false, false, true, false])),
        (6, TileFlip { x: true, y: false, d: false })
    );
}

#[test]
fn wall_sprite_in_a_level() {
    let level = Level::from_text(b"###\n#_#\n###");
    // bottom-left corner: only the centre, diagonally up-right, is open
    assert_eq!(
        calculate_wall_index(TilePos::new(0, 0), &level),
        (9, TileFlip { x: true, y: false, d: false })
    );
    // bottom middle: the centre is open to the north
    assert_eq!(
        calculate_wall_index(TilePos::new(1, 0), &level),
        (0, TileFlip { x: false, y: false, d: false })
    );
    assert_eq!(
        TileKind::Wall.index_flip(&TilePos::new(1, 2), &level),
        (0, TileFlip { x: false, y: true, d: false })
    );
    assert_eq!(TileKind::Pit.index_flip(&TilePos::new(1, 1), &level), (18, NONE));
    assert_eq!(TileKind::Platform.index_flip(&TilePos::new(1, 1), &level), (17, NONE));
    assert_eq!(TileKind::Pushable.index_flip(&TilePos::new(1, 1), &level), (16, NONE));
}
