use lost::entity::{Container, EntityKind};
use lost::history::HistoryEvent;
use lost::level::{CurrentLevel, Level, LevelData, LevelSize, Levels, TileKind};
use lost::pos::{Dir, TilePos};
use lost::state::{level_select_rows, DependOnState, GameAction, GameState};
use lost::world::GameWorld;

#[test]
fn tile_bytes() {
    assert_eq!(TileKind::from(b'#'), TileKind::Wall);
    assert_eq!(TileKind::from(b'_'), TileKind::Floor);
    assert_eq!(TileKind::from(b'@'), TileKind::Player);
    assert_eq!(TileKind::from(b'b'), TileKind::Pushable);
    assert_eq!(TileKind::from(b'p'), TileKind::Pullable);
    assert_eq!(TileKind::from(b'-'), TileKind::Platform);
    assert_eq!(TileKind::from(b'O'), TileKind::Pit);
    assert_eq!(TileKind::from(b'x'), TileKind::Wall);
}

#[test]
fn tile_entity_kinds() {
    assert_eq!(TileKind::Wall.entity_kind(), Some(EntityKind::Wall));
    assert_eq!(TileKind::Floor.entity_kind(), None);
    assert_eq!(TileKind::Player.entity_kind(), None);
    assert_eq!(TileKind::Pit.entity_kind(), Some(EntityKind::Pit));
    assert!(TileKind::Wall.is_static());
    assert!(!TileKind::Pit.is_static());
}

#[test]
fn level_text_is_read_bottom_row_first() {
    let level = Level::from_text(b"#@\n_b");
    assert_eq!(level.size, LevelSize { x: 2, y: 2 });
    assert_eq!(
        level.tiles,
        vec![TileKind::Floor, TileKind::Pushable, TileKind::Wall, TileKind::Player]
    );
}

#[test]
fn level_text_ignores_spaces_and_extra_tiles() {
    let level = Level::from_text(b"# @ O\n_ b -\n  #");
    assert_eq!(level.size, LevelSize { x: 2, y: 3 });
    assert_eq!(
        level.tiles,
        vec![
            TileKind::Pushable,
            TileKind::Platform,
            TileKind::Pit,
            TileKind::Floor,
            TileKind::Wall,
            TileKind::Player,
        ]
    );
}

#[test]
fn spawn_places_entities() {
    let level = Level::from_text(b"####\n#@b#\n#pO#\n####");
    let g = GameWorld::spawn_level(&level);
    assert_eq!(g.time.0, 0);
    assert_eq!(g.position(g.player.unwrap()), Some(TilePos::new(1, 2)));
    assert_eq!(g.kind(g.player.unwrap()), None);
    assert_eq!(g.level_root, Container(0));
    let kinds: Vec<Option<EntityKind>> =
        g.entities.iter().map(|s| s.as_ref().and_then(|e| e.kind)).collect();
    assert_eq!(kinds.iter().filter(|k| **k == Some(EntityKind::Wall)).count(), 12);
    assert_eq!(kinds.iter().filter(|k| **k == Some(EntityKind::Pit)).count(), 1);
    assert_eq!(g.entities.len(), 16);
    for slot in g.entities.iter().flatten() {
        let moving = matches!(slot.kind, None | Some(EntityKind::Pushable) | Some(EntityKind::Pullable));
        assert_eq!(slot.history.is_some(), moving);
    }
}

#[test]
fn spawn_without_a_single_player_still_places_tiles() {
    let mut none = GameWorld::spawn_level(&Level::from_text(b"#_#"));
    assert!(none.player.is_none());
    assert_eq!(none.entities.len(), 2);
    none.sync_collision_map();
    assert!(!none.player_movement(Dir::Right));
    assert!(!none.check_win());
    assert!(!none.update(Some(Dir::Left), Some(HistoryEvent::Reset)));
    assert_eq!(none.time.0, 1);

    let mut two = GameWorld::spawn_level(&Level::from_text(b"@b_@"));
    assert!(two.player.is_none());
    assert_eq!(two.entities.len(), 3);
    let players = two.entities.iter().flatten().filter(|e| e.kind.is_none()).count();
    assert_eq!(players, 2);
    two.sync_collision_map();
    assert!(!two.player_movement(Dir::Right));
    assert_eq!(two.position(lost::entity::Entity(0)), Some(TilePos::new(0, 0)));

    let wall = GameWorld::spawn_level(&Level::from_text(b"#"));
    assert!(wall.player.is_none());
    assert_eq!(wall.kind(lost::entity::Entity(0)), Some(EntityKind::Wall));

    assert!(GameWorld::spawn_level(&Level::from_text(b"#@#")).player.is_some());
}

#[test]
fn won_when_nothing_can_move() {
    let mut g = GameWorld::spawn_level(&Level::from_text(b"#####\n#@__#\n#####"));
    g.sync_collision_map();
    assert!(g.check_win());
}

#[test]
fn not_won_while_box_can_be_pushed() {
    let mut g = GameWorld::spawn_level(&Level::from_text(b"#######\n#@_b__#\n#######"));
    g.sync_collision_map();
    assert!(!g.check_win());
}

#[test]
fn won_when_box_is_stuck_in_corner() {
    let mut g = GameWorld::spawn_level(&Level::from_text(b"#####\n#@_b#\n#####"));
    g.sync_collision_map();
    assert!(g.check_win());
}

#[test]
fn not_won_while_pullable_can_be_pulled() {
    let mut g = GameWorld::spawn_level(&Level::from_text(b"######\n#p__@#\n######"));
    g.sync_collision_map();
    assert!(!g.check_win());
}

#[test]
fn won_when_box_is_out_of_reach() {
    let mut g =
        GameWorld::spawn_level(&Level::from_text(b"#######\n#@_#__#\n###_b_#\n#######"));
    g.sync_collision_map();
    assert!(g.check_win());
    assert!(g.update(Some(Dir::Right), None));
}

#[test]
fn winning_by_filling_the_pit() {
    let mut g = GameWorld::spawn_level(&Level::from_text(b"######\n#@bO_#\n######"));
    g.sync_collision_map();
    assert!(!g.check_win());
    assert!(g.update(Some(Dir::Right), None));
}

#[test]
fn level_data_accessors() {
    let data = LevelData {
        levels: Levels(vec![Level::from_text(b"#@#"), Level::from_text(b"@_\n__")]),
        current_level: CurrentLevel(1),
    };
    assert_eq!(data.amount_levels(), 2);
    assert_eq!(data.current_level(), 1);
    assert_eq!(data.size(), LevelSize { x: 2, y: 2 });
    assert_eq!(data.current_level_data().tiles.len(), 4);
    assert_eq!(data.levels().0.len(), 2);
}

#[test]
fn game_actions_and_states() {
    assert_eq!(GameAction::Undo.history_event(), Some(HistoryEvent::Rewind));
    assert_eq!(GameAction::Reset.history_event(), Some(HistoryEvent::Reset));
    assert_eq!(GameAction::ToLevelSelect.history_event(), None);
    let d = DependOnState::single(GameState::Play);
    assert!(d.keeps(GameState::Play));
    assert!(!d.keeps(GameState::LevelSelect));
}

#[test]
fn level_text_needs_a_tile_per_line() {
    assert!(Level::try_from_text(b"").is_none());
    assert!(Level::try_from_text(b"#\n").is_none());
    assert!(Level::try_from_text(b" \n ").is_none());
    let level = Level::try_from_text(b"#@\n_b").unwrap();
    assert_eq!(level.size, LevelSize { x: 2, y: 2 });
    assert_eq!(level.tiles[1], TileKind::Pushable);
}

#[test]
fn level_select_layout() {
    assert_eq!(level_select_rows(0), vec![Vec::<usize>::new()]);
    assert_eq!(level_select_rows(3), vec![vec![0, 1, 2]]);
    assert_eq!(level_select_rows(5), vec![vec![0, 1, 2, 3, 4], vec![]]);
    assert_eq!(level_select_rows(7), vec![vec![0, 1, 2, 3, 4], vec![5, 6]]);
    let mut current = CurrentLevel(0);
    assert_eq!(current.select(4), GameState::LevelTransition);
    assert_eq!(current, CurrentLevel(4));
}
