use grid_quest::cooldown::{Cooldown, MovementCooldown};
use grid_quest::grid_transform::GridTransform;
use grid_quest::map::{MapAndPlayerLoading, PlayerSpawnEvent};
use grid_quest::mob::MobMoveEvent;
use grid_quest::player::spawn_player;
use grid_quest::world::{GridDirection, GridPosition, GridWorld, LastGridPosition, Mob};

#[test]
fn spawn_entrance_walks_onto_the_marker() {
    // spawn "start" from the north on a marker at (5,5): the player lands at
    // (5,6) and the synthetic intent walks it south onto the marker
    let mut world = GridWorld::new();
    let mut loading = MapAndPlayerLoading(true);
    let event = PlayerSpawnEvent {
        location: GridTransform::new(5, 5),
        direction: GridTransform::north(),
    };
    let intent = spawn_player(&mut world, None, 1, &event, &mut loading);
    assert!(!loading.0);
    assert_eq!(intent, MobMoveEvent { entity: 1, movement: GridTransform::south() });
    let placed = world.get_mob(1).unwrap();
    assert_eq!(placed.position.0, GridTransform::new(5, 6));
    assert_eq!(placed.last_position.0, GridTransform::new(5, 6));
    assert!(placed.cooldown.0.finished());
    assert_eq!(world.index.get(GridTransform::new(5, 6)), vec![1u64]);
    // the next resolved tick lands the player on the marker
    let triggers = world.resolve_move(intent);
    assert_eq!(triggers.len(), 0);
    assert_eq!(world.get_mob(1).unwrap().position.0, GridTransform::new(5, 5));
    assert_eq!(world.index.get(GridTransform::new(5, 5)), vec![1u64]);
}

#[test]
fn existing_player_is_relocated_with_a_finished_cooldown() {
    let mut world = GridWorld::new();
    world.add_mob(Mob {
        entity: 7,
        position: GridPosition(GridTransform::new(0, 0)),
        last_position: LastGridPosition(GridTransform::new(0, 1)),
        facing: GridDirection(GridTransform::east()),
        // stale, still-cooling pacing state from before the transition
        cooldown: MovementCooldown(Cooldown { elapsed_ms: 10, duration_ms: 400 }),
    });
    let mut loading = MapAndPlayerLoading(true);
    let event = PlayerSpawnEvent {
        location: GridTransform::new(3, 3),
        direction: GridTransform::west(),
    };
    let intent = spawn_player(&mut world, Some(7), 99, &event, &mut loading);
    assert_eq!(intent, MobMoveEvent { entity: 7, movement: GridTransform::east() });
    let m = world.get_mob(7).unwrap();
    assert_eq!(m.position.0, GridTransform::new(2, 3));
    assert_eq!(m.last_position.0, GridTransform::new(2, 3));
    assert!(m.cooldown.0.finished());
    // facing is untouched by the relocation itself
    assert_eq!(m.facing.0, GridTransform::east());
    assert_eq!(world.index.get(GridTransform::new(2, 3)), vec![7u64]);
    assert_eq!(world.index.get(GridTransform::new(0, 0)), Vec::<u64>::new());
    assert!(!loading.0);
    // no second player appeared
    assert!(world.get_mob(99).is_none());
}

#[test]
fn center_spawn_places_on_the_marker_itself() {
    let mut world = GridWorld::new();
    let mut loading = MapAndPlayerLoading(true);
    let event = PlayerSpawnEvent {
        location: GridTransform::new(4, 4),
        direction: GridTransform::zero(),
    };
    let intent = spawn_player(&mut world, None, 2, &event, &mut loading);
    assert_eq!(intent, MobMoveEvent { entity: 2, movement: GridTransform::zero() });
    assert_eq!(world.get_mob(2).unwrap().position.0, GridTransform::new(4, 4));
    // the zero entrance step resolves in place
    let triggers = world.resolve_move(intent);
    assert_eq!(triggers.len(), 0);
    let m = world.get_mob(2).unwrap();
    assert_eq!(m.position.0, GridTransform::new(4, 4));
    assert_eq!(m.last_position.0, GridTransform::new(4, 4));
    assert_eq!(m.cooldown.0.elapsed_ms, 0);
}

#[test]
fn world_clears_for_transition_but_keeps_the_player() {
    let mut world = GridWorld::new();
    world.add_mob(Mob {
        entity: 7,
        position: GridPosition(GridTransform::new(1, 1)),
        last_position: LastGridPosition(GridTransform::new(1, 1)),
        facing: GridDirection::default(),
        cooldown: MovementCooldown::default(),
    });
    world.add_mob(Mob {
        entity: 8,
        position: GridPosition(GridTransform::new(2, 2)),
        last_position: LastGridPosition(GridTransform::new(2, 2)),
        facing: GridDirection::default(),
        cooldown: MovementCooldown::default(),
    });
    world.register_tile(
        grid_quest::world::TileEntity {
            entity: 50,
            blocks_walking: true,
            triggers_on_move_onto: false,
            triggers_on_interact: false,
            blocks_sight: false,
        },
        GridTransform::new(3, 3),
    );
    world.clear_for_transition(Some(7));
    assert_eq!(world.mobs.len(), 1);
    assert_eq!(world.mobs[0].entity, 7);
    assert_eq!(world.tiles.len(), 0);
    assert_eq!(world.watchers.len(), 0);
    assert_eq!(world.index.get(GridTransform::new(1, 1)), vec![7u64]);
    assert_eq!(world.index.get(GridTransform::new(2, 2)), Vec::<u64>::new());
    assert_eq!(world.index.get(GridTransform::new(3, 3)), Vec::<u64>::new());
}
