use grid_quest::cooldown::{Cooldown, MovementCooldown, SightTriggerCooldown};
use grid_quest::grid_transform::GridTransform;
use grid_quest::world::{GridDirection, GridPosition, GridWorld, LastGridPosition, Mob, SightWatcher, TileEntity};

const PLAYER: u64 = 1;
const WATCHER: u64 = 9;

fn world_with_watcher() -> GridWorld {
    let mut world = GridWorld::new();
    world.add_watcher(SightWatcher {
        entity: WATCHER,
        position: GridTransform::new(0, 0),
        facing: GridTransform::east(),
        cooldown: SightTriggerCooldown(Cooldown { elapsed_ms: 2000, duration_ms: 2000 }),
    });
    world
}

fn place_player(world: &mut GridWorld, x: i16, y: i16) {
    world.add_mob(Mob {
        entity: PLAYER,
        position: GridPosition(GridTransform::new(x, y)),
        last_position: LastGridPosition(GridTransform::new(x, y)),
        facing: GridDirection::default(),
        cooldown: MovementCooldown::default(),
    });
}

#[test]
fn target_at_step_five_is_detected() {
    let mut world = world_with_watcher();
    place_player(&mut world, 5, 0);
    let events = world.resolve_sight(PLAYER, 16);
    assert_eq!(events.len(), 1);
    assert_eq!(events[0].triggering, PLAYER);
    assert_eq!(events[0].triggered, WATCHER);
    // a detection resets the sight cooldown
    assert_eq!(world.watchers[0].cooldown.0.elapsed_ms, 0);
}

#[test]
fn blocker_at_step_three_occludes_the_target() {
    let mut world = world_with_watcher();
    world.register_tile(
        TileEntity {
            entity: 30,
            blocks_walking: false,
            triggers_on_move_onto: false,
            triggers_on_interact: false,
            blocks_sight: true,
        },
        GridTransform::new(3, 0),
    );
    place_player(&mut world, 5, 0);
    let events = world.resolve_sight(PLAYER, 16);
    assert_eq!(events.len(), 0);
    // no detection: the cooldown keeps ticking instead of resetting
    assert_eq!(world.watchers[0].cooldown.0.elapsed_ms, 2000);
}

#[test]
fn blocker_on_the_target_tile_hides_the_target() {
    // the target is indexed on the shared tile before the blocker: the
    // blocker still takes priority, whatever the occupant order
    let mut world = world_with_watcher();
    place_player(&mut world, 4, 0);
    world.register_tile(
        TileEntity {
            entity: 31,
            blocks_walking: false,
            triggers_on_move_onto: false,
            triggers_on_interact: false,
            blocks_sight: true,
        },
        GridTransform::new(4, 0),
    );
    let events = world.resolve_sight(PLAYER, 16);
    assert_eq!(events.len(), 0);
    assert_eq!(world.watchers[0].cooldown.0.elapsed_ms, 2000);
}

#[test]
fn blocker_indexed_before_the_target_on_its_tile_hides_it_too() {
    let mut world = world_with_watcher();
    world.register_tile(
        TileEntity {
            entity: 31,
            blocks_walking: false,
            triggers_on_move_onto: false,
            triggers_on_interact: false,
            blocks_sight: true,
        },
        GridTransform::new(4, 0),
    );
    place_player(&mut world, 4, 0);
    let events = world.resolve_sight(PLAYER, 16);
    assert_eq!(events.len(), 0);
}

#[test]
fn target_beyond_range_is_not_seen() {
    let mut world = world_with_watcher();
    place_player(&mut world, 17, 0);
    let events = world.resolve_sight(PLAYER, 16);
    assert_eq!(events.len(), 0);
}

#[test]
fn target_at_full_range_is_seen() {
    let mut world = world_with_watcher();
    place_player(&mut world, 16, 0);
    let events = world.resolve_sight(PLAYER, 16);
    assert_eq!(events.len(), 1);
}

#[test]
fn cold_watcher_does_not_scan() {
    let mut world = GridWorld::new();
    world.add_watcher(SightWatcher {
        entity: WATCHER,
        position: GridTransform::new(0, 0),
        facing: GridTransform::east(),
        cooldown: SightTriggerCooldown::default(),
    });
    place_player(&mut world, 2, 0);
    let events = world.resolve_sight(PLAYER, 16);
    assert_eq!(events.len(), 0);
    // the pass still advanced the watcher's cooldown
    assert_eq!(world.watchers[0].cooldown.0.elapsed_ms, 16);
}

#[test]
fn off_ray_target_is_not_seen() {
    let mut world = world_with_watcher();
    place_player(&mut world, 5, 1);
    let events = world.resolve_sight(PLAYER, 16);
    assert_eq!(events.len(), 0);
}
