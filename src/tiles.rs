use vstd::prelude::*;

use crate::level::{Level, TileKind};
use crate::pos::TilePos;

verus! {

/// How a sprite of the tile sheet is mirrored: along `x`, along `y`, and along the diagonal.
#[derive(Clone, Copy, Debug, PartialEq, Eq, Structural)]
pub struct TileFlip {
    pub x: bool,
    pub y: bool,
    pub d: bool,
}

/// For each of the eight cells around a wall, whether it is open (inside the level and not
/// a wall): north is towards larger `y`.
#[derive(Clone, Copy, Debug, PartialEq, Eq, Structural)]
pub struct Neighbors {
    pub n: bool,
    pub ne: bool,
    pub e: bool,
    pub se: bool,
    pub s: bool,
    pub sw: bool,
    pub w: bool,
    pub nw: bool,
}

pub open spec fn count4(a: bool, b: bool, c: bool, d: bool) -> int {
    (if a { 1int } else { 0int }) + (if b { 1int } else { 0int }) + (if c { 1int } else { 0int })
        + (if d { 1int } else { 0int })
}

pub open spec fn no_flip() -> TileFlip {
    TileFlip { x: false, y: false, d: false }
}

/// The sprite and the mirroring of a wall with open neighbours `k`: walls are drawn from
/// the number of open sides and open corners, turned to face them.
pub open spec fn wall_sprite(k: Neighbors) -> (u32, TileFlip) {
    let diag_c = count4(k.ne, k.se, k.sw, k.nw);
    let card_c = count4(k.n, k.e, k.s, k.w);
    let flip = TileFlip { x: k.e, y: k.s, d: k.e || k.w };
    let flip_inv = TileFlip { x: k.e, y: k.s, d: !k.e || !k.w };
    let two_diag = TileFlip { x: k.ne, y: k.sw, d: (k.nw && k.sw) || (k.ne && k.se) };
    let zero_flip_diag = TileFlip { x: k.ne || k.se, y: k.sw || k.se, d: false };
    let three_diag_flip = TileFlip {
        x: k.e || k.n && k.se || k.s && k.ne,
        y: k.s || k.e && k.sw || k.w && k.se,
        d: k.e || k.w,
    };
    if card_c == 0 {
        if diag_c == 0 {
            (8, no_flip())
        } else if diag_c == 1 {
            (9, zero_flip_diag)
        } else if diag_c == 2 {
            if (k.nw && k.se) || (k.ne && k.sw) {
                (11, two_diag)
            } else {
                (10, two_diag)
            }
        } else if diag_c == 3 {
            (12, zero_flip_diag)
        } else {
            (13, no_flip())
        }
    } else if card_c == 1 {
        if diag_c == 4 {
            (2, flip)
        } else if diag_c == 3 {
            (1, three_diag_flip)
        } else {
            (0, flip)
        }
    } else if card_c == 2 {
        if (k.n && k.s) || (k.w && k.e) {
            (5, flip_inv)
        } else if (k.n && k.w && k.se) || (k.n && k.e && k.sw) || (k.s && k.w && k.ne) || (k.s
            && k.e && k.nw) {
            (4, flip)
        } else {
            (3, flip)
        }
    } else if card_c == 3 {
        (6, flip_inv)
    } else {
        (7, no_flip())
    }
}

fn count_true(a: bool, b: bool, c: bool, d: bool) -> (r: u32)
    ensures
        r == count4(a, b, c, d),
{
    let mut r: u32 = 0;
    if a {
        r = r + 1;
    }
    if b {
        r = r + 1;
    }
    if c {
        r = r + 1;
    }
    if d {
        r = r + 1;
    }
    r
}

/// The sprite and mirroring of a wall with open neighbours `k`; see `wall_sprite`.
pub fn wall_tile(k: Neighbors) -> (r: (u32, TileFlip))
    ensures
        r == wall_sprite(k),
{
    let diag_c = count_true(k.ne, k.se, k.sw, k.nw);
    let card_c = count_true(k.n, k.e, k.s, k.w);
    let flip = TileFlip { x: k.e, y: k.s, d: k.e || k.w };
    let flip_inv = TileFlip { x: k.e, y: k.s, d: !k.e || !k.w };
    let two_diag = TileFlip { x: k.ne, y: k.sw, d: (k.nw && k.sw) || (k.ne && k.se) };
    let zero_flip_diag = TileFlip { x: k.ne || k.se, y: k.sw || k.se, d: false };
    let three_diag_flip = TileFlip {
        x: k.e || k.n && k.se || k.s && k.ne,
        y: k.s || k.e && k.sw || k.w && k.se,
        d: k.e || k.w,
    };
    let none = TileFlip { x: false, y: false, d: false };
    if card_c == 0 {
        if diag_c == 0 {
            (8, none)
        } else if diag_c == 1 {
            (9, zero_flip_diag)
        } else if diag_c == 2 {
            if (k.nw && k.se) || (k.ne && k.sw) {
                (11, two_diag)
            } else {
                (10, two_diag)
            }
        } else if diag_c == 3 {
            (12, zero_flip_diag)
        } else {
            (13, none)
        }
    } else if card_c == 1 {
        if diag_c == 4 {
            (2, flip)
        } else if diag_c == 3 {
            (1, three_diag_flip)
        } else {
            (0, flip)
        }
    } else if card_c == 2 {
        if (k.n && k.s) || (k.w && k.e) {
            (5, flip_inv)
        } else if (k.n && k.w && k.se) || (k.n && k.e && k.sw) || (k.s && k.w && k.ne) || (k.s
            && k.e && k.nw) {
            (4, flip)
        } else {
            (3, flip)
        }
    } else if card_c == 3 {
        (6, flip_inv)
    } else {
        (7, none)
    }
}

/// Whether cell (`x`, `y`) of `level` is inside it and not a wall.
pub open spec fn open_cell(level: Level, x: int, y: int) -> bool {
    &&& 0 <= x < level.size.x
    &&& 0 <= y < level.size.y
    &&& level.tiles@[y * level.size.x + x] != TileKind::Wall
}

/// The open neighbours of `p` in `level`.
pub open spec fn neighbors_of(level: Level, p: TilePos) -> Neighbors {
    Neighbors {
        n: open_cell(level, p.x as int, p.y + 1),
        ne: open_cell(level, p.x + 1, p.y + 1),
        e: open_cell(level, p.x + 1, p.y as int),
        se: open_cell(level, p.x + 1, p.y - 1),
        s: open_cell(level, p.x as int, p.y - 1),
        sw: open_cell(level, p.x - 1, p.y - 1),
        w: open_cell(level, p.x - 1, p.y as int),
        nw: open_cell(level, p.x - 1, p.y + 1),
    }
}

fn is_open(level: &Level, x: i64, y: i64) -> (r: bool)
    requires
        level.wf(),
    ensures
        r == open_cell(*level, x as int, y as int),
{
    if x < 0 || y < 0 || x >= level.size.x as i64 || y >= level.size.y as i64 {
        return false;
    }
    let w = level.size.x as usize;
    // the tile count fits in a usize
    let _ = level.tiles.len();
    proof {
        assert(y * level.size.x + x < level.size.x * level.size.y) by (nonlinear_arith)
            requires
                0 <= x < level.size.x,
                0 <= y < level.size.y,
        ;
        assert(0 <= y * level.size.x) by (nonlinear_arith)
            requires
                0 <= y,
                0 <= level.size.x,
        ;
    }
    let row: usize = (y as usize) * w;
    let i = row + (x as usize);
    !level.tiles[i].is_static()
}

/// The sprite and mirroring of a wall standing on `pos` in `level`.
pub fn calculate_wall_index(pos: TilePos, level: &Level) -> (r: (u32, TileFlip))
    requires
        level.wf(),
    ensures
        r == wall_sprite(neighbors_of(*level, pos)),
{
    let x = pos.x as i64;
    let y = pos.y as i64;
    let k = Neighbors {
        n: is_open(level, x, y + 1),
        ne: is_open(level, x + 1, y + 1),
        e: is_open(level, x + 1, y),
        se: is_open(level, x + 1, y - 1),
        s: is_open(level, x, y - 1),
        sw: is_open(level, x - 1, y - 1),
        w: is_open(level, x - 1, y),
        nw: is_open(level, x - 1, y + 1),
    };
    wall_tile(k)
}

impl TileKind {
    /// The sprite and mirroring that draw this tile on `pos` of `level`: floor under the
    /// movable tiles, the wall sprite facing its open neighbours for walls.
    pub fn index_flip(&self, pos: &TilePos, level: &Level) -> (r: (u32, TileFlip))
        requires
            level.wf(),
        ensures
            r == match *self {
                TileKind::Wall => wall_sprite(neighbors_of(*level, *pos)),
                TileKind::Platform => (17u32, no_flip()),
                TileKind::Pit => (18u32, no_flip()),
                _ => (16u32, no_flip()),
            },
    {
        let none = TileFlip { x: false, y: false, d: false };
        match self {
            TileKind::Floor | TileKind::Player | TileKind::Pushable | TileKind::Pullable => (
                16,
                none,
            ),
            TileKind::Wall => calculate_wall_index(*pos, level),
            TileKind::Platform => (17, none),
            TileKind::Pit => (18, none),
        }
    }
}

} // verus!
