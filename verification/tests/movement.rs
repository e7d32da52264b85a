use grid_quest::cooldown::{Cooldown, MovementCooldown};
use grid_quest::grid_transform::GridTransform;
use grid_quest::mob::{MobInteractEvent, MobMoveEvent};
use grid_quest::world::{GridDirection, GridPosition, GridWorld, LastGridPosition, Mob, TileEntity};

fn mob_at(entity: u64, x: i16, y: i16) -> Mob {
    Mob {
        entity,
        position: GridPosition(GridTransform::new(x, y)),
        last_position: LastGridPosition(GridTransform::new(x, y)),
        facing: GridDirection::default(),
        cooldown: MovementCooldown::default(),
    }
}

fn tile(entity: u64, blocks_walking: bool, on_move: bool, on_interact: bool, blocks_sight: bool) -> TileEntity {
    TileEntity {
        entity,
        blocks_walking,
        triggers_on_move_onto: on_move,
        triggers_on_interact: on_interact,
        blocks_sight,
    }
}

#[test]
fn accepted_move_updates_everything_together() {
    let mut world = GridWorld::new();
    world.add_mob(mob_at(1, 2, 2));
    let events = world.resolve_move(MobMoveEvent { entity: 1, movement: GridTransform::east() });
    assert_eq!(events.len(), 0);
    let m = world.get_mob(1).unwrap();
    assert_eq!(m.position.0, GridTransform::new(3, 2));
    assert_eq!(m.last_position.0, GridTransform::new(2, 2));
    assert_eq!(m.facing.0, GridTransform::east());
    assert!(!m.cooldown.0.finished());
    assert_eq!(m.cooldown.0.elapsed_ms, 0);
    assert_eq!(world.index.get(GridTransform::new(3, 2)), vec![1u64]);
    assert_eq!(world.index.get(GridTransform::new(2, 2)), Vec::<u64>::new());
}

#[test]
fn cooling_intent_changes_nothing() {
    let mut world = GridWorld::new();
    let mut m = mob_at(1, 2, 2);
    m.cooldown = MovementCooldown(Cooldown::new(400));
    world.add_mob(m);
    let events = world.resolve_move(MobMoveEvent { entity: 1, movement: GridTransform::north() });
    assert_eq!(events.len(), 0);
    let after = world.get_mob(1).unwrap();
    assert_eq!(after.position.0, GridTransform::new(2, 2));
    assert_eq!(after.facing.0, GridTransform::south());
    assert_eq!(after.cooldown.0.elapsed_ms, 0);
    assert_eq!(after.cooldown.0.duration_ms, 400);
    assert!(!after.cooldown.0.finished());
}

#[test]
fn intent_for_unknown_entity_is_ignored() {
    let mut world = GridWorld::new();
    world.add_mob(mob_at(1, 0, 0));
    let events = world.resolve_move(MobMoveEvent { entity: 99, movement: GridTransform::north() });
    assert_eq!(events.len(), 0);
    assert_eq!(world.get_mob(1).unwrap().position.0, GridTransform::new(0, 0));
}

#[test]
fn blocked_move_spins_in_place() {
    let mut world = GridWorld::new();
    world.add_mob(mob_at(1, 2, 2));
    world.register_tile(tile(50, true, false, false, false), GridTransform::new(2, 3));
    let events = world.resolve_move(MobMoveEvent { entity: 1, movement: GridTransform::north() });
    assert_eq!(events.len(), 0);
    let m = world.get_mob(1).unwrap();
    // position and last position unchanged, cooldown not reset, facing updated
    assert_eq!(m.position.0, GridTransform::new(2, 2));
    assert_eq!(m.last_position.0, GridTransform::new(2, 2));
    assert!(m.cooldown.0.finished());
    assert_eq!(m.facing.0, GridTransform::north());
    assert_eq!(world.index.get(GridTransform::new(2, 2)), vec![1u64]);
}

#[test]
fn blocked_move_then_interact_uses_the_new_facing() {
    let mut world = GridWorld::new();
    world.add_mob(mob_at(1, 2, 2));
    // a blocker with an interact trigger north of the mob
    world.register_tile(tile(50, true, false, true, false), GridTransform::new(2, 3));
    // an interact trigger south of the mob, where it faced before
    world.register_tile(tile(51, false, false, true, false), GridTransform::new(2, 1));
    let moves = world.resolve_move(MobMoveEvent { entity: 1, movement: GridTransform::north() });
    assert_eq!(moves.len(), 0);
    let triggers = world.resolve_interact(MobInteractEvent { entity: 1 });
    assert_eq!(triggers.len(), 1);
    assert_eq!(triggers[0].triggering, 1);
    assert_eq!(triggers[0].triggered, 50);
}

#[test]
fn move_acceptance_fires_one_trigger_per_tagged_occupant() {
    let mut world = GridWorld::new();
    world.add_mob(mob_at(1, 0, 0));
    world.register_tile(tile(60, false, true, false, false), GridTransform::new(1, 0));
    world.register_tile(tile(61, false, true, false, false), GridTransform::new(1, 0));
    world.register_tile(tile(62, false, false, false, false), GridTransform::new(1, 0));
    let events = world.resolve_move(MobMoveEvent { entity: 1, movement: GridTransform::east() });
    assert_eq!(events.len(), 2);
    assert_eq!(events[0].moved, 1);
    assert_eq!(events[0].triggered, 60);
    assert_eq!(events[1].moved, 1);
    assert_eq!(events[1].triggered, 61);
    assert_eq!(world.get_mob(1).unwrap().position.0, GridTransform::new(1, 0));
}

#[test]
fn move_onto_untagged_occupants_fires_nothing() {
    let mut world = GridWorld::new();
    world.add_mob(mob_at(1, 0, 0));
    world.register_tile(tile(62, false, false, true, false), GridTransform::new(0, 1));
    let events = world.resolve_move(MobMoveEvent { entity: 1, movement: GridTransform::north() });
    assert_eq!(events.len(), 0);
    assert_eq!(world.get_mob(1).unwrap().position.0, GridTransform::new(0, 1));
}

#[test]
fn cooldowns_tick_once_per_pass() {
    let mut world = GridWorld::new();
    let mut m = mob_at(1, 0, 0);
    m.cooldown = MovementCooldown(Cooldown::new(400));
    world.add_mob(m);
    world.tick_cooldowns(150);
    assert_eq!(world.get_mob(1).unwrap().cooldown.0.elapsed_ms, 150);
    world.tick_cooldowns(300);
    let c = world.get_mob(1).unwrap().cooldown.0;
    assert_eq!(c.elapsed_ms, 400);
    assert!(c.finished());
}

#[test]
fn fresh_cooldown_blocks_until_a_later_pass() {
    // a mob that just moved cannot move again in the same pass even if the
    // tick would finish its cooldown
    let mut world = GridWorld::new();
    world.add_mob(mob_at(1, 0, 0));
    let first = world.resolve_move(MobMoveEvent { entity: 1, movement: GridTransform::east() });
    assert_eq!(first.len(), 0);
    let second = world.resolve_move(MobMoveEvent { entity: 1, movement: GridTransform::east() });
    assert_eq!(second.len(), 0);
    assert_eq!(world.get_mob(1).unwrap().position.0, GridTransform::new(1, 0));
    world.tick_cooldowns(400);
    let third = world.resolve_move(MobMoveEvent { entity: 1, movement: GridTransform::east() });
    assert_eq!(third.len(), 0);
    assert_eq!(world.get_mob(1).unwrap().position.0, GridTransform::new(2, 0));
}

#[test]
fn interact_is_gated_by_the_movement_cooldown() {
    let mut world = GridWorld::new();
    let mut m = mob_at(1, 2, 2);
    m.cooldown = MovementCooldown(Cooldown::new(400));
    world.add_mob(m);
    world.register_tile(tile(51, false, false, true, false), GridTransform::new(2, 1));
    let gated = world.resolve_interact(MobInteractEvent { entity: 1 });
    assert_eq!(gated.len(), 0);
    world.tick_cooldowns(400);
    let fired = world.resolve_interact(MobInteractEvent { entity: 1 });
    assert_eq!(fired.len(), 1);
    assert_eq!(fired[0].triggered, 51);
}

#[test]
fn two_mobs_may_share_a_tile() {
    let mut world = GridWorld::new();
    world.add_mob(mob_at(1, 0, 0));
    world.add_mob(mob_at(2, 1, 0));
    world.resolve_move(MobMoveEvent { entity: 1, movement: GridTransform::east() });
    let occupants = world.index.get(GridTransform::new(1, 0));
    assert_eq!(occupants.len(), 2);
    assert!(occupants.contains(&1));
    assert!(occupants.contains(&2));
}
