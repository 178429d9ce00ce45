use lost::entity::{Entity, EntityKind};
use lost::history::{CurrentTime, HistoryBundle, HistoryEvent};
use lost::level::Level;
use lost::pos::{Dir, TilePos};
use lost::world::GameWorld;

fn world(text: &str) -> GameWorld {
    let level = Level::from_text(text.as_bytes());
    let mut g = GameWorld::spawn_level(&level);
    g.sync_collision_map();
    g
}

fn find(g: &GameWorld, kind: EntityKind) -> Option<Entity> {
    for (i, slot) in g.entities.iter().enumerate() {
        if let Some(e) = slot {
            if e.kind == Some(kind) {
                return Some(Entity(i));
            }
        }
    }
    None
}

fn pos(g: &GameWorld, e: Entity) -> TilePos {
    g.position(e).expect("entity is in the level")
}

fn positions(g: &GameWorld) -> Vec<Option<TilePos>> {
    g.entities.iter().map(|s| s.as_ref().map(|e| e.pos)).collect()
}

const ROOM: &str = "#######\n#_____#\n#_@b__#\n#_p___#\n#_____#\n#######";

#[test]
fn time_counts_steps_and_stops_at_zero() {
    let mut t = CurrentTime(0);
    t.handle(HistoryEvent::Rewind);
    assert_eq!(t.0, 0);
    t.handle(HistoryEvent::Record);
    t.handle(HistoryEvent::Reset);
    assert_eq!(t.0, 2);
    t.handle(HistoryEvent::Rewind);
    assert_eq!(t.0, 1);
}

#[test]
fn record_logs_only_changed_positions() {
    let mut h = HistoryBundle::new(TilePos::new(1, 1));
    let mut p = TilePos::new(1, 1);
    h.handle_history_event(&mut p, 0, HistoryEvent::Record);
    assert!(h.history.0.is_empty());
    p = TilePos::new(2, 1);
    h.handle_history_event(&mut p, 3, HistoryEvent::Record);
    assert_eq!(h.history.0, vec![(3, TilePos::new(1, 1))]);
    assert_eq!(*h.previous.get(), TilePos::new(2, 1));
}

#[test]
fn rewind_pops_only_the_matching_step() {
    let mut h = HistoryBundle::new(TilePos::new(1, 1));
    let mut p = TilePos::new(2, 1);
    h.handle_history_event(&mut p, 3, HistoryEvent::Record);
    h.handle_history_event(&mut p, 5, HistoryEvent::Rewind);
    assert_eq!(p, TilePos::new(2, 1));
    assert_eq!(h.history.0.len(), 1);
    h.handle_history_event(&mut p, 4, HistoryEvent::Rewind);
    assert_eq!(p, TilePos::new(1, 1));
    assert!(h.history.0.is_empty());
}

#[test]
fn reset_goes_to_oldest_and_logs_current() {
    let mut h = HistoryBundle::new(TilePos::new(0, 0));
    let mut p = TilePos::new(1, 0);
    h.handle_history_event(&mut p, 0, HistoryEvent::Record);
    p = TilePos::new(2, 0);
    h.handle_history_event(&mut p, 1, HistoryEvent::Record);
    h.handle_history_event(&mut p, 2, HistoryEvent::Reset);
    assert_eq!(p, TilePos::new(0, 0));
    assert_eq!(h.history.0.last(), Some(&(2, TilePos::new(2, 0))));
    let mut q = TilePos::new(5, 5);
    let mut empty = HistoryBundle::new(q);
    empty.handle_history_event(&mut q, 7, HistoryEvent::Reset);
    assert_eq!(q, TilePos::new(5, 5));
    assert!(empty.history.0.is_empty());
}

#[test]
fn undo_is_exact_inverse_of_moves() {
    let mut g = world(ROOM);
    let start = positions(&g);
    let moves = [Dir::Right, Dir::Up, Dir::Left, Dir::Down, Dir::Down, Dir::Right];
    let mut recorded = 0;
    for dir in moves {
        if g.player_movement(dir) {
            recorded += 1;
        }
        g.sync_collision_map();
    }
    assert!(recorded >= 4);
    assert_eq!(g.time.0, recorded);
    assert_ne!(positions(&g), start);
    for _ in 0..recorded {
        g.handle_history_event(HistoryEvent::Rewind);
    }
    assert_eq!(positions(&g), start);
    assert_eq!(g.time.0, 0);
}

#[test]
fn reset_returns_to_start_and_is_undoable() {
    let mut g = world(ROOM);
    let start = positions(&g);
    for dir in [Dir::Right, Dir::Up, Dir::Left, Dir::Left] {
        g.update(Some(dir), None);
    }
    let before_reset = positions(&g);
    assert_ne!(before_reset, start);
    let t = g.time.0;
    g.update(None, Some(HistoryEvent::Reset));
    assert_eq!(positions(&g), start);
    assert_eq!(g.time.0, t + 1);
    g.update(None, Some(HistoryEvent::Rewind));
    assert_eq!(positions(&g), before_reset);
    assert_eq!(g.time.0, t);
}

#[test]
fn box_in_pit_comes_back_on_undo() {
    let mut g = world("#######\n#@bO__#\n#######");
    let player = g.player.unwrap();
    let b = find(&g, EntityKind::Pushable).unwrap();
    let n = g.entities.len();
    g.update(Some(Dir::Right), None);
    assert_eq!(g.time.0, 1);
    assert_eq!(pos(&g, player), TilePos::new(2, 1));
    assert!(find(&g, EntityKind::Pushable).is_none());
    assert!(find(&g, EntityKind::Pit).is_none());
    assert_eq!(g.despawn_history.0.len(), 1);
    assert_eq!(g.despawn_history.0[0].0, 1);
    assert_eq!(g.despawn_history.0[0].1.pos, TilePos::new(3, 1));
    assert!(g.entities[b.0].is_none());
    // the filled pit can be walked over
    g.update(Some(Dir::Right), None);
    assert_eq!(pos(&g, player), TilePos::new(3, 1));
    g.update(None, Some(HistoryEvent::Rewind));
    assert_eq!(pos(&g, player), TilePos::new(2, 1));
    assert!(find(&g, EntityKind::Pushable).is_none());
    g.update(None, Some(HistoryEvent::Rewind));
    assert_eq!(g.time.0, 0);
    assert_eq!(pos(&g, player), TilePos::new(1, 1));
    assert!(g.despawn_history.0.is_empty());
    let back = find(&g, EntityKind::Pushable).unwrap();
    assert_eq!(back, Entity(n));
    assert_eq!(pos(&g, back), TilePos::new(2, 1));
    let pit = find(&g, EntityKind::Pit).unwrap();
    assert_eq!(pos(&g, pit), TilePos::new(3, 1));
    // the resurrected box can be pushed into the pit again
    g.update(Some(Dir::Right), None);
    assert!(find(&g, EntityKind::Pushable).is_none());
}

#[test]
fn resurrected_box_keeps_its_earlier_history() {
    let mut g = world("########\n#@b_O__#\n########");
    g.update(Some(Dir::Right), None);
    g.update(Some(Dir::Right), None);
    assert!(find(&g, EntityKind::Pushable).is_none());
    g.update(None, Some(HistoryEvent::Rewind));
    let b = find(&g, EntityKind::Pushable).unwrap();
    assert_eq!(pos(&g, b), TilePos::new(3, 1));
    g.update(None, Some(HistoryEvent::Rewind));
    assert_eq!(pos(&g, b), TilePos::new(2, 1));
    assert_eq!(pos(&g, g.player.unwrap()), TilePos::new(1, 1));
}

#[test]
fn despawn_records_current_step() {
    let mut g = world("####\n#@b#\n####");
    let b = find(&g, EntityKind::Pushable).unwrap();
    g.time = CurrentTime(4);
    g.despawn_sokoban_entity(b);
    assert!(g.entities[b.0].is_none());
    assert_eq!(g.despawn_history.0.len(), 1);
    assert_eq!(g.despawn_history.0[0].0, 4);
    assert_eq!(g.despawn_history.0[0].1.kind, EntityKind::Pushable);
    assert_eq!(g.despawn_history.0[0].1.level_entity, g.level_root);
    g.rewind();
    assert_eq!(g.despawn_history.0.len(), 0);
    assert_eq!(g.entities.len(), 12 + 2);
}
