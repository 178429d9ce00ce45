use vstd::prelude::*;

use vstd::arithmetic::div_mod::{
    lemma_div_pos_is_pos, lemma_fundamental_div_mod, lemma_fundamental_div_mod_converse,
    lemma_mod_pos_bound,
};

use crate::entity::{Container, EntityKind};
use crate::history::{CurrentTime, HistoryBundle};
use crate::player::SpawnPlayer;
use crate::pos::TilePos;
use crate::state::GameState;
use crate::world::{
    init_collision_map, no_previous, DespawnHistory, EntityView, GameWorld, SokobanEntity,
};

verus! {

/// What a cell of a level file holds.
#[derive(Clone, Copy, Debug, PartialEq, Eq, Structural)]
pub enum TileKind {
    Wall,
    Floor,
    Player,
    Pushable,
    Pullable,
    Platform,
    Pit,
}

/// `#`
pub const WALL_BYTE: u8 = 35;
/// `_`
pub const FLOOR_BYTE: u8 = 95;
/// `@`
pub const PLAYER_BYTE: u8 = 64;
/// `b`
pub const PUSHABLE_BYTE: u8 = 98;
/// `p`
pub const PULLABLE_BYTE: u8 = 112;
/// `-`
pub const PLATFORM_BYTE: u8 = 45;
/// `O`
pub const PIT_BYTE: u8 = 79;
/// A line break.
pub const NEWLINE: u8 = 10;
/// A space.
pub const SPACE: u8 = 32;

/// The tile a byte of a level file stands for; an unknown byte is a wall.
pub open spec fn tile_of(b: u8) -> TileKind {
    if b == WALL_BYTE {
        TileKind::Wall
    } else if b == FLOOR_BYTE {
        TileKind::Floor
    } else if b == PLAYER_BYTE {
        TileKind::Player
    } else if b == PUSHABLE_BYTE {
        TileKind::Pushable
    } else if b == PULLABLE_BYTE {
        TileKind::Pullable
    } else if b == PLATFORM_BYTE {
        TileKind::Platform
    } else if b == PIT_BYTE {
        TileKind::Pit
    } else {
        TileKind::Wall
    }
}

impl From<u8> for TileKind {
    /// `#` wall, `_` floor, `@` player, `b` pushable, `p` pullable, `-` platform, `O` pit;
    /// anything else is read as a wall.
    fn from(value: u8) -> (r: TileKind) {
        if value == WALL_BYTE {
            TileKind::Wall
        } else if value == FLOOR_BYTE {
            TileKind::Floor
        } else if value == PLAYER_BYTE {
            TileKind::Player
        } else if value == PUSHABLE_BYTE {
            TileKind::Pushable
        } else if value == PULLABLE_BYTE {
            TileKind::Pullable
        } else if value == PLATFORM_BYTE {
            TileKind::Platform
        } else if value == PIT_BYTE {
            TileKind::Pit
        } else {
            TileKind::Wall
        }
    }
}

impl vstd::std_specs::convert::FromSpecImpl<u8> for TileKind {
    open spec fn obeys_from_spec() -> bool {
        true
    }

    open spec fn from_spec(v: u8) -> TileKind {
        tile_of(v)
    }
}

/// The entity a tile places on the grid, if any; the player is placed apart.
pub open spec fn spec_entity_kind(t: TileKind) -> Option<EntityKind> {
    match t {
        TileKind::Wall => Some(EntityKind::Wall),
        TileKind::Floor => None,
        TileKind::Player => None,
        TileKind::Pushable => Some(EntityKind::Pushable),
        TileKind::Pullable => Some(EntityKind::Pullable),
        TileKind::Platform => Some(EntityKind::Platform),
        TileKind::Pit => Some(EntityKind::Pit),
    }
}

impl TileKind {
    /// Whether the tile is part of the level's walls.
    pub fn is_static(&self) -> (r: bool)
        ensures
            r == (*self == TileKind::Wall),
    {
        matches!(self, TileKind::Wall)
    }

    /// The entity this tile places on the grid, if any.
    pub fn entity_kind(&self) -> (r: Option<EntityKind>)
        ensures
            r == spec_entity_kind(*self),
    {
        match self {
            TileKind::Wall => Some(EntityKind::Wall),
            TileKind::Floor => None,
            TileKind::Player => None,
            TileKind::Pushable => Some(EntityKind::Pushable),
            TileKind::Pullable => Some(EntityKind::Pullable),
            TileKind::Platform => Some(EntityKind::Platform),
            TileKind::Pit => Some(EntityKind::Pit),
        }
    }
}

/// Width (`x`) and height (`y`) of a level, in cells.
#[derive(Clone, Copy, Debug, PartialEq, Eq, Structural)]
pub struct LevelSize {
    pub x: u32,
    pub y: u32,
}

/// A level: its tiles row by row, the bottom row first.
pub struct Level {
    pub tiles: Vec<TileKind>,
    pub size: LevelSize,
}

/// Whether a byte of a level text separates tiles rather than being one.
pub open spec fn is_separator(b: u8) -> bool {
    b == NEWLINE || b == SPACE
}

/// The number of lines of a level text: one more than its line breaks.
pub open spec fn line_count(s: Seq<u8>) -> nat
    decreases s.len(),
{
    if s.len() == 0 {
        1
    } else {
        line_count(s.drop_last()) + if s.last() == NEWLINE {
            1nat
        } else {
            0nat
        }
    }
}

/// The tiles of a level text in reading order: every byte but line breaks and spaces.
pub open spec fn text_tiles(s: Seq<u8>) -> Seq<TileKind>
    decreases s.len(),
{
    if s.len() == 0 {
        Seq::empty()
    } else if is_separator(s.last()) {
        text_tiles(s.drop_last())
    } else {
        text_tiles(s.drop_last()).push(tile_of(s.last()))
    }
}

/// Where cell `i` of a level `w` cells wide and `h` high comes from in the text's reading
/// order: the text lists the top row first, the level the bottom row first.
pub open spec fn text_index(i: int, w: int, h: int) -> int {
    (h - 1 - i / w) * w + i % w
}

proof fn lemma_text_len_bounds(s: Seq<u8>)
    ensures
        text_tiles(s).len() <= s.len(),
        line_count(s) <= s.len() + 1,
    decreases s.len(),
{
    if s.len() > 0 {
        lemma_text_len_bounds(s.drop_last());
    }
}

/// Whether `r` is the level that text `s` describes: its height is the number of lines, its
/// width the number of tiles divided by the height, and its rows are those of the text,
/// bottom row first.
pub open spec fn level_of_text(s: Seq<u8>, r: Level) -> bool {
    let tiles = text_tiles(s);
    let h = line_count(s) as int;
    let w = tiles.len() as int / h;
    &&& r.size.y == h
    &&& r.size.x == w
    &&& r.tiles@.len() == w * h
    &&& forall|i: int| 0 <= i < w * h ==> #[trigger] r.tiles@[i] == tiles[text_index(i, w, h)]
}

/// Whether a text describes a level: at least one tile per line, and a tile count that fits
/// in a `u32`.
pub open spec fn text_fits(s: Seq<u8>) -> bool {
    text_tiles(s).len() >= line_count(s) && text_tiles(s).len() <= u32::MAX
}

impl Level {
    /// Reads a level from its text when it describes one (see `text_fits`), as `from_text`
    /// does; `None` otherwise.
    pub fn try_from_text(text: &[u8]) -> (r: Option<Level>)
        ensures
            r is Some <==> text_fits(text@),
            r matches Some(l) ==> level_of_text(text@, l),
    {
        let ghost s = text@;
        let n = text.len();
        let mut newlines: usize = 0;
        let mut tiles: usize = 0;
        let mut i: usize = 0;
        proof {
            assert(s.subrange(0, 0) =~= Seq::<u8>::empty());
        }
        while i < n
            invariant
                n == s.len(),
                s == text@,
                i <= n,
                newlines + 1 == line_count(s.subrange(0, i as int)),
                tiles == text_tiles(s.subrange(0, i as int)).len(),
                newlines <= i,
                tiles <= i,
            decreases n - i,
        {
            let b = text[i];
            proof {
                assert(s.subrange(0, i + 1).drop_last() =~= s.subrange(0, i as int));
            }
            if b == NEWLINE {
                newlines = newlines + 1;
            }
            if !(b == NEWLINE || b == SPACE) {
                tiles = tiles + 1;
            }
            i = i + 1;
        }
        proof {
            assert(s.subrange(0, n as int) =~= s);
        }
        if tiles > newlines && tiles <= u32::MAX as usize {
            Some(Level::from_text(text))
        } else {
            None
        }
    }

    /// Reads a level from its text: one line per row, top row first, one byte per tile
    /// (see `TileKind::from`), spaces ignored. The height is the number of lines and the
    /// width the number of tiles divided by it; tiles beyond width times height are dropped.
    pub fn from_text(text: &[u8]) -> (r: Level)
        requires
            text_tiles(text@).len() >= line_count(text@),
            text_tiles(text@).len() <= u32::MAX,
        ensures
            level_of_text(text@, r),
    {
        let ghost s = text@;
        let n = text.len();
        let mut newlines: usize = 0;
        let mut tiles: Vec<TileKind> = Vec::new();
        let mut i: usize = 0;
        proof {
            lemma_text_len_bounds(s);
        }
        while i < n
            invariant
                n == s.len(),
                s == text@,
                i <= n,
                newlines + 1 == line_count(s.subrange(0, i as int)),
                tiles@ == text_tiles(s.subrange(0, i as int)),
                line_count(s.subrange(0, i as int)) <= i + 1,
            decreases n - i,
        {
            let b = text[i];
            proof {
                assert(s.subrange(0, i + 1).drop_last() =~= s.subrange(0, i as int));
                lemma_text_len_bounds(s.subrange(0, i + 1));
            }
            if b == NEWLINE {
                newlines = newlines + 1;
            }
            if !(b == NEWLINE || b == SPACE) {
                tiles.push(TileKind::from(b));
            }
            i = i + 1;
        }
        proof {
            assert(s.subrange(0, n as int) =~= s);
        }
        let height: usize = newlines + 1;
        let tn = tiles.len();
        let width: usize = tn / height;
        let ghost w = width as int;
        let ghost h = height as int;
        proof {
            assert(w >= 1) by (nonlinear_arith)
                requires
                    w == tiles@.len() as int / h,
                    tiles@.len() >= h,
                    h >= 1,
            ;
            assert(w * h <= tiles@.len()) by (nonlinear_arith)
                requires
                    w == tiles@.len() as int / h,
                    h >= 1,
            ;
        }
        let mut out: Vec<TileKind> = Vec::new();
        let mut r: usize = 0;
        while r < height
            invariant
                w == width,
                h == height,
                w >= 1,
                h >= 1,
                w * h <= tiles@.len(),
                tn == tiles@.len(),
                r <= height,
                out@.len() == r * w,
                forall|k: int| 0 <= k < out@.len() ==> #[trigger] out@[k] == tiles@[text_index(k, w, h)],
            decreases height - r,
        {
            let row: usize = height - 1 - r;
            let mut x: usize = 0;
            while x < width
                invariant
                    w == width,
                    h == height,
                    w >= 1,
                    h >= 1,
                    w * h <= tiles@.len(),
                    tn == tiles@.len(),
                    r < height,
                    row == h - 1 - r,
                    x <= width,
                    out@.len() == r * w + x,
                    forall|k: int| 0 <= k < out@.len() ==> #[trigger] out@[k] == tiles@[text_index(k, w, h)],
                decreases width - x,
            {
                proof {
                    assert(row * w + x < w * h) by (nonlinear_arith)
                        requires
                            row < h,
                            x < w,
                            w >= 1,
                    ;
                    assert(0 <= row * w) by (nonlinear_arith)
                        requires
                            row >= 0,
                            w >= 1,
                    ;
                    lemma_fundamental_div_mod_converse(r * w + x, w, r as int, x as int);
                }
                let t = tiles[row * width + x];
                out.push(t);
                x = x + 1;
            }
            proof {
                assert((r + 1) * w == r * w + w) by (nonlinear_arith);
            }
            r = r + 1;
        }
        proof {
            assert(out@.len() == w * h) by (nonlinear_arith)
                requires
                    out@.len() == r * w,
                    r == h,
            ;
            assert(w <= tn) by (nonlinear_arith)
                requires
                    w * h <= tn,
                    h >= 1,
                    w >= 1,
            ;
        }
        Level { tiles: out, size: LevelSize { x: width as u32, y: height as u32 } }
    }
}

/// The cell of tile `i` in a level `w` cells wide.
pub open spec fn tile_pos(i: int, w: int) -> TilePos {
    TilePos { x: (i % w) as i32, y: (i / w) as i32 }
}

/// The container of everything that moves in a level.
pub open spec fn level_root() -> Container {
    Container(0)
}

/// The container of the static tiles of a level.
pub open spec fn static_layer() -> Container {
    Container(1)
}

/// The entity that tile `t` on `pos` places in a new level: the player, pushables and
/// pullables get an empty history; floor places nothing.
pub open spec fn spawned_slot(t: TileKind, pos: TilePos) -> Option<EntityView> {
    match t {
        TileKind::Floor => None,
        TileKind::Player | TileKind::Pushable | TileKind::Pullable => Some(
            EntityView {
                pos,
                kind: spec_entity_kind(t),
                parent: level_root(),
                has_history: true,
                log: Seq::empty(),
                previous: pos,
            },
        ),
        _ => Some(
            EntityView {
                pos,
                kind: spec_entity_kind(t),
                parent: static_layer(),
                has_history: false,
                log: Seq::empty(),
                previous: no_previous(),
            },
        ),
    }
}

/// The entities of a new level made of the first `n` of `tiles`, in tile order.
pub open spec fn spawned_slots(tiles: Seq<TileKind>, w: int, n: int) -> Seq<Option<EntityView>>
    decreases n,
{
    if n <= 0 {
        Seq::empty()
    } else {
        let prev = spawned_slots(tiles, w, n - 1);
        match spawned_slot(tiles[n - 1], tile_pos(n - 1, w)) {
            Some(v) => prev.push(Some(v)),
            None => prev,
        }
    }
}

/// The number of player tiles among the first `n` of `tiles`.
pub open spec fn player_tiles(tiles: Seq<TileKind>, n: int) -> nat
    decreases n,
{
    if n <= 0 {
        0
    } else {
        player_tiles(tiles, n - 1) + if tiles[n - 1] == TileKind::Player {
            1nat
        } else {
            0nat
        }
    }
}

impl Level {
    /// The level's tiles fill its size, which fits the grid's coordinates.
    pub open spec fn wf(&self) -> bool {
        &&& self.tiles@.len() == self.size.x * self.size.y
        &&& self.size.x <= i32::MAX
        &&& self.size.y <= i32::MAX
    }
}

impl GameWorld {
    /// Starts playing `level` at step 0: one entity per tile that is not floor, whatever
    /// the number of player tiles, and a collision map of the level's size. The world has a
    /// player to move only when the level has exactly one player tile.
    pub fn spawn_level(level: &Level) -> (g: GameWorld)
        requires
            level.wf(),
        ensures
            g.player is Some <==> player_tiles(level.tiles@, level.tiles@.len() as int) == 1,
            ({
                &&& g.wf()
                &&& g.synced()
                &&& g.slots() == spawned_slots(
                    level.tiles@,
                    level.size.x as int,
                    level.tiles@.len() as int,
                )
                &&& g.time.0 == 0
                &&& g.records().len() == 0
                &&& g.level_root == level_root()
                &&& g.collision.0.width == level.size.x
                &&& g.collision.0.height == level.size.y
            }),
    {
        let w = level.size.x as usize;
        let n = level.tiles.len();
        let root = Container(0);
        let layer = Container(1);
        let mut entities: Vec<Option<SokobanEntity>> = Vec::new();
        let mut players: usize = 0;
        let mut player: usize = 0;
        let mut i: usize = 0;
        while i < n
            invariant
                n == level.tiles@.len(),
                w == level.size.x,
                level.wf(),
                root == level_root(),
                layer == static_layer(),
                i <= n,
                players == player_tiles(level.tiles@, i as int),
                players <= i,
                entities@.map_values(|s: Option<SokobanEntity>| crate::world::slot_view(s))
                    == spawned_slots(level.tiles@, w as int, i as int),
                players >= 1 ==> player < entities@.len(),
                players >= 1 ==> (crate::world::slot_view(entities@[player as int]) matches Some(v)
                    && v.kind is None && v.has_history),
                forall|k: int|
                    0 <= k < entities@.len() ==> (#[trigger] crate::world::slot_view(entities@[k])
                        matches Some(v) && (v.kind is None ==> v.has_history)),
            decreases n - i,
        {
            let ghost before = entities@;
            proof {
                assert(i < level.size.x * level.size.y);
                assert(w >= 1) by (nonlinear_arith)
                    requires
                        i < w * level.size.y,
                ;
                assert((i as int) / (w as int) < level.size.y) by (nonlinear_arith)
                    requires
                        i < w * level.size.y,
                        w >= 1,
                ;
            }
            let pos = TilePos { x: (i % w) as i32, y: (i / w) as i32 };
            let tile = level.tiles[i];
            match tile {
                TileKind::Floor => {},
                TileKind::Player => {
                    player = SpawnPlayer::new(pos, root).apply(&mut entities).0;
                    players = players + 1;
                },
                TileKind::Pushable | TileKind::Pullable => {
                    entities.push(
                        Some(
                            SokobanEntity {
                                pos,
                                kind: tile.entity_kind(),
                                history: Some(HistoryBundle::new(pos)),
                                parent: root,
                            },
                        ),
                    );
                },
                _ => {
                    entities.push(
                        Some(
                            SokobanEntity { pos, kind: tile.entity_kind(), history: None, parent: layer },
                        ),
                    );
                },
            }
            proof {
                let s0 = before.map_values(|s: Option<SokobanEntity>| crate::world::slot_view(s));
                let s1 = entities@.map_values(|s: Option<SokobanEntity>| crate::world::slot_view(s));
                assert(tile_pos(i as int, w as int) == pos);
                match spawned_slot(tile, pos) {
                    Some(v) => {
                        assert(s1 =~= s0.push(Some(v)));
                    },
                    None => {
                        assert(s1 =~= s0);
                    },
                }
                assert forall|k: int|
                    0 <= k < entities@.len() implies (#[trigger] crate::world::slot_view(
                        entities@[k],
                    ) matches Some(v) && (v.kind is None ==> v.has_history)) by {
                    if k < before.len() {
                        assert(entities@[k] == before[k]);
                    }
                }
                if players >= 1 && player < before.len() {
                    assert(entities@[player as int] == before[player as int]);
                }
            }
            i = i + 1;
        }
        let the_player = if players == 1 {
            Some(crate::entity::Entity(player))
        } else {
            None
        };
        let width = level.size.x as i32;
        let height = level.size.y as i32;
        let collision = init_collision_map(width, height, &entities);
        let g = GameWorld {
            entities,
            time: CurrentTime(0),
            collision,
            despawn_history: DespawnHistory(Vec::new()),
            player: the_player,
            level_root: root,
        };
        proof {
            let slots = g.slots();
            assert(g.records() =~= Seq::<(usize, EntityView)>::empty());
            assert forall|k: int| 0 <= k < slots.len() implies crate::world::slot_ok(
                #[trigger] slots[k],
                0,
                root,
            ) by {
                assert(crate::world::slot_view(g.entities@[k]) matches Some(v) && (v.kind is None ==> v.has_history));
                lemma_spawned_at_rest(level.tiles@, w as int, n as int, k);
            }
            if n > 0 {
                assert(w >= 1) by (nonlinear_arith)
                    requires
                        n == w * level.size.y,
                        n > 0,
                ;
                lemma_spawned_apart(level.tiles@, w as int, level.size.y as int, n as int);
            }
        }
        g
    }
}

proof fn lemma_spawned_at_rest(tiles: Seq<TileKind>, w: int, n: int, k: int)
    requires
        0 <= k < spawned_slots(tiles, w, n).len(),
        n <= tiles.len(),
    ensures
        spawned_slots(tiles, w, n)[k] matches Some(v) && (v.has_history ==> v.log.len() == 0
            && v.previous == v.pos && v.parent == level_root()) && ((v.kind == Some(
            EntityKind::Pushable,
        ) || v.kind == Some(EntityKind::Pullable)) ==> v.has_history) && (v.kind == Some(
            EntityKind::Pit,
        ) ==> !v.has_history),
    decreases n,
{
    if n > 0 {
        let prev = spawned_slots(tiles, w, n - 1);
        if k < prev.len() {
            lemma_spawned_at_rest(tiles, w, n - 1, k);
            match spawned_slot(tiles[n - 1], tile_pos(n - 1, w)) {
                Some(v) => assert(spawned_slots(tiles, w, n)[k] == prev[k]),
                None => {},
            }
        }
    }
}

/// All the levels of the game, in order.
pub struct Levels(pub Vec<Level>);

/// The index of the level being played.
#[derive(Clone, Copy, Debug, PartialEq, Eq, Structural)]
pub struct CurrentLevel(pub usize);

impl CurrentLevel {
    /// Picks level `level` to play next; the game then moves to the transition into it.
    pub fn select(&mut self, level: usize) -> (next: GameState)
        ensures
            final(self).0 == level,
            next == GameState::LevelTransition,
    {
        self.0 = level;
        GameState::LevelTransition
    }
}

/// The levels together with the choice of the current one.
pub struct LevelData {
    pub levels: Levels,
    pub current_level: CurrentLevel,
}

impl LevelData {
    pub fn levels(&self) -> (r: &Levels)
        ensures
            r == &self.levels,
    {
        &self.levels
    }

    /// The level being played.
    pub fn current_level_data(&self) -> (r: &Level)
        requires
            self.current_level.0 < self.levels.0@.len(),
        ensures
            *r == self.levels.0@[self.current_level.0 as int],
    {
        &self.levels.0[self.current_level.0]
    }

    pub fn current_level(&self) -> (r: usize)
        ensures
            r == self.current_level.0,
    {
        self.current_level.0
    }

    /// The size of the level being played.
    pub fn size(&self) -> (r: LevelSize)
        requires
            self.current_level.0 < self.levels.0@.len(),
        ensures
            r == self.levels.0@[self.current_level.0 as int].size,
    {
        self.current_level_data().size
    }

    pub fn amount_levels(&self) -> (r: usize)
        ensures
            r == self.levels.0@.len(),
    {
        self.levels.0.len()
    }
}

/// The entities of a new level stand on distinct cells inside it; the row-major index of
/// each cell is below `n`.
proof fn lemma_spawned_apart(tiles: Seq<TileKind>, w: int, h: int, n: int)
    requires
        1 <= w <= i32::MAX,
        0 <= h <= i32::MAX,
        0 <= n <= tiles.len(),
        n <= w * h,
    ensures
        ({
            let s = spawned_slots(tiles, w, n);
            &&& forall|k: int|
                0 <= k < s.len() ==> (#[trigger] s[k] matches Some(v) && 0 <= v.pos.x < w && 0
                    <= v.pos.y && v.pos.y * w + v.pos.x < n)
            &&& forall|a: int, b: int|
                0 <= a < s.len() && 0 <= b < s.len() && a != b ==> (#[trigger] s[a])->Some_0.pos
                    != (#[trigger] s[b])->Some_0.pos
        }),
    decreases n,
{
    if n > 0 {
        lemma_spawned_apart(tiles, w, h, n - 1);
        let prev = spawned_slots(tiles, w, n - 1);
        let m = n - 1;
        lemma_mod_pos_bound(m, w);
        lemma_div_pos_is_pos(m, w);
        lemma_fundamental_div_mod(m, w);
        assert(m / w < h) by (nonlinear_arith)
            requires
                w * (m / w) + m % w == m,
                0 <= m % w,
                m < w * h,
                w >= 1,
        ;
        let p = tile_pos(m, w);
        assert(p.x == m % w && p.y == m / w);
        assert(p.y * w + p.x == m) by (nonlinear_arith)
            requires
                w * (m / w) + m % w == m,
                p.x == m % w,
                p.y == m / w,
        ;
        let s = spawned_slots(tiles, w, n);
        match spawned_slot(tiles[m], p) {
            Some(v) => {
                assert forall|k: int| 0 <= k < s.len() implies (#[trigger] s[k] matches Some(v) && 0
                    <= v.pos.x < w && 0 <= v.pos.y && v.pos.y * w + v.pos.x < n) by {
                    if k < prev.len() {
                        assert(s[k] == prev[k]);
                    }
                }
                assert forall|a: int, b: int|
                    0 <= a < s.len() && 0 <= b < s.len() && a != b implies (#[trigger] s[a])->Some_0.pos
                        != (#[trigger] s[b])->Some_0.pos by {
                    if a < prev.len() {
                        assert(s[a] == prev[a]);
                    }
                    if b < prev.len() {
                        assert(s[b] == prev[b]);
                    }
                }
            },
            None => {},
        }
    }
}

} // verus!
