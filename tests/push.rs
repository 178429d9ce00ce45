use lost::collision::CollisionResult;
use lost::entity::{Entity, EntityKind};
use lost::level::Level;
use lost::pos::{Dir, TilePos};
use lost::world::GameWorld;

fn world(text: &str) -> GameWorld {
    let level = Level::from_text(text.as_bytes());
    let mut g = GameWorld::spawn_level(&level);
    g.sync_collision_map();
    g
}

fn find(g: &GameWorld, kind: EntityKind) -> Entity {
    for (i, slot) in g.entities.iter().enumerate() {
        if let Some(e) = slot {
            if e.kind == Some(kind) {
                return Entity(i);
            }
        }
    }
    panic!("no entity of kind {:?}", kind);
}

fn pos(g: &GameWorld, e: Entity) -> TilePos {
    g.position(e).expect("entity is in the level")
}

#[test]
fn push_moves_player_and_box() {
    let mut g = world("######\n#@b__#\n######");
    let player = g.player.unwrap();
    let b = find(&g, EntityKind::Pushable);
    assert_eq!(pos(&g, player), TilePos::new(1, 1));
    assert_eq!(pos(&g, b), TilePos::new(2, 1));
    assert!(g.player_movement(Dir::Right));
    assert_eq!(pos(&g, player), TilePos::new(2, 1));
    assert_eq!(pos(&g, b), TilePos::new(3, 1));
    assert_eq!(g.time.0, 1);
}

#[test]
fn push_lists_box_then_player() {
    let g = world("######\n#@b__#\n######");
    let b = find(&g, EntityKind::Pushable);
    match g.collision.player_push_collision(g.player.unwrap(), TilePos::new(1, 1), Dir::Right) {
        CollisionResult::Push(list) => assert_eq!(list, vec![b, g.player.unwrap()]),
        _ => panic!("expected a push"),
    }
}

#[test]
fn push_into_wall_is_blocked() {
    let mut g = world("#####\n#@b##\n#####");
    let player = g.player.unwrap();
    let b = find(&g, EntityKind::Pushable);
    assert!(matches!(
        g.collision.player_push_collision(player, TilePos::new(1, 1), Dir::Right),
        CollisionResult::Collision
    ));
    assert!(!g.player_movement(Dir::Right));
    assert_eq!(pos(&g, player), TilePos::new(1, 1));
    assert_eq!(pos(&g, b), TilePos::new(2, 1));
    assert_eq!(g.time.0, 0);
}

#[test]
fn push_two_boxes_is_blocked() {
    let mut g = world("#######\n#@bb__#\n#######");
    assert!(!g.player_movement(Dir::Right));
    assert_eq!(pos(&g, g.player.unwrap()), TilePos::new(1, 1));
}

#[test]
fn walking_into_wall_pit_or_pullable_is_blocked() {
    let mut g = world("#####\n#O@p#\n##_##\n#####");
    assert!(!g.player_movement(Dir::Up));
    assert!(!g.player_movement(Dir::Left));
    assert!(!g.player_movement(Dir::Right));
    assert!(g.player_movement(Dir::Down));
    assert_eq!(pos(&g, g.player.unwrap()), TilePos::new(2, 1));
}

#[test]
fn player_walks_onto_platform_but_box_does_not() {
    let mut g = world("######\n#@-__#\n######");
    assert!(g.player_movement(Dir::Right));
    assert_eq!(pos(&g, g.player.unwrap()), TilePos::new(2, 1));
    let mut g = world("######\n#@b-_#\n######");
    assert!(!g.player_movement(Dir::Right));
}

#[test]
fn pullable_follows_player() {
    let mut g = world("######\n#p@__#\n######");
    let player = g.player.unwrap();
    let p = find(&g, EntityKind::Pullable);
    match g.collision.player_push_collision(player, TilePos::new(2, 1), Dir::Right) {
        CollisionResult::Push(list) => assert_eq!(list, vec![p, player]),
        _ => panic!("expected a push"),
    }
    assert!(g.player_movement(Dir::Right));
    assert_eq!(pos(&g, player), TilePos::new(3, 1));
    assert_eq!(pos(&g, p), TilePos::new(2, 1));
}

#[test]
fn no_pull_from_platform() {
    let mut g = world("######\n#p-__#\n#_@__#\n######");
    let p = find(&g, EntityKind::Pullable);
    assert!(g.player_movement(Dir::Up));
    g.sync_collision_map();
    assert_eq!(pos(&g, g.player.unwrap()), TilePos::new(2, 2));
    assert!(g.player_movement(Dir::Right));
    assert_eq!(pos(&g, g.player.unwrap()), TilePos::new(3, 2));
    assert_eq!(pos(&g, p), TilePos::new(1, 2));
}

#[test]
fn out_of_bounds_is_not_collision() {
    let g = world("####\n#@_#\n####");
    for dir in [Dir::Up, Dir::Right, Dir::Down, Dir::Left] {
        assert!(matches!(
            g.collision.player_push_collision(g.player.unwrap(), TilePos::new(-1, 1), dir),
            CollisionResult::OutOfBounds
        ));
        assert!(matches!(
            g.collision.player_push_collision(g.player.unwrap(), TilePos::new(4, 1), dir),
            CollisionResult::OutOfBounds
        ));
        assert!(matches!(
            g.collision.player_push_collision(g.player.unwrap(), TilePos::new(1, 3), dir),
            CollisionResult::OutOfBounds
        ));
    }
}

#[test]
fn leaving_the_map_is_out_of_bounds() {
    let g = world("_@_");
    assert!(matches!(
        g.collision.player_push_collision(g.player.unwrap(), TilePos::new(1, 0), Dir::Up),
        CollisionResult::OutOfBounds
    ));
    assert!(matches!(
        g.collision.player_push_collision(g.player.unwrap(), TilePos::new(1, 0), Dir::Right),
        CollisionResult::Push(_)
    ));
}

#[test]
fn is_blocked_by_kind() {
    let g = world("#Ob-p@_");
    assert!(g.collision.is_blocked(TilePos::new(0, 0), true));
    assert!(g.collision.is_blocked(TilePos::new(0, 0), false));
    assert!(g.collision.is_blocked(TilePos::new(1, 0), true));
    assert!(!g.collision.is_blocked(TilePos::new(1, 0), false));
    assert!(g.collision.is_blocked(TilePos::new(2, 0), true));
    assert!(!g.collision.is_blocked(TilePos::new(3, 0), true));
    assert!(g.collision.is_blocked(TilePos::new(3, 0), false));
    assert!(g.collision.is_blocked(TilePos::new(4, 0), false));
    assert!(!g.collision.is_blocked(TilePos::new(5, 0), true));
    assert!(!g.collision.is_blocked(TilePos::new(6, 0), false));
    assert!(g.collision.is_blocked(TilePos::new(7, 0), false));
    assert!(g.collision.is_blocked(TilePos::new(0, 1), true));
}
