//! The player: spawn placement and the control-to-intent glue.
//!
//! Spawn resolution places the player one tile away from the matched marker,
//! against the entrance direction, and answers with a synthetic movement
//! intent back toward the marker, so the first visible action is stepping
//! onto it rather than appearing on it.

use vstd::prelude::*;
use crate::cooldown::Cooldown;
use crate::grid_transform::GridTransform;
use crate::map::{MapAndPlayerLoading, PlayerSpawnEvent};
use crate::mob::{lemma_mobs_update_frame, MobInteractEvent, MobMoveEvent};
use crate::control::{select_movement, selected_movement, wants_interact, select_interact, GameControlEvent};
use crate::world::{GridDirection, GridPosition, GridWorld, LastGridPosition, Mob};

verus! {

/// Applies a player spawn event to the world.
///
/// The player is placed at the marker's location displaced by the entrance
/// direction. An existing player mob is relocated there — last position
/// included — and its cooldown forced finished, so the entrance step is
/// never blocked by stale pacing; without one, a fresh player mob spawns
/// there under the identity `new_entity`, its cooldown already finished.
/// Loading ends, and the returned synthetic intent walks the player back
/// onto the marker.
pub fn spawn_player(
    world: &mut GridWorld,
    player: Option<u64>,
    new_entity: u64,
    event: &PlayerSpawnEvent,
    loading: &mut MapAndPlayerLoading,
) -> (intent: MobMoveEvent)
    requires
        old(world).wf(),
        event.direction.is_cardinal() || event.direction == GridTransform::spec_zero(),
        i16::MIN <= event.location.x + event.direction.x <= i16::MAX,
        i16::MIN <= event.location.y + event.direction.y <= i16::MAX,
        player matches Some(e) ==> old(world).has_mob(e),
        player matches Option::<u64>::None ==> !old(world).has_mob(new_entity),
    ensures
        final(world).wf(),
        final(loading).0 == false,
        final(world).tiles == old(world).tiles,
        final(world).watchers == old(world).watchers,
        ({
            let placed = event.location.spec_add(event.direction);
            match player {
                Some(e) => {
                    &&& intent == (MobMoveEvent { entity: e, movement: event.direction.spec_neg() })
                    &&& final(world).has_mob(e)
                    &&& final(world).mob_of(e) == (Mob {
                        position: GridPosition(placed),
                        last_position: LastGridPosition(placed),
                        cooldown: crate::cooldown::MovementCooldown(
                            Cooldown {
                                elapsed_ms: old(world).mob_of(e).cooldown.0.duration_ms,
                                duration_ms: old(world).mob_of(e).cooldown.0.duration_ms,
                            },
                        ),
                        ..old(world).mob_of(e)
                    })
                    &&& final(world).mob_of(e).cooldown.0.spec_finished()
                    &&& forall|x: u64| final(world).has_mob(x) == old(world).has_mob(x)
                    &&& forall|x: u64| x != e && old(world).has_mob(x)
                        ==> final(world).mob_of(x) == old(world).mob_of(x)
                    &&& final(world).index@ == old(world).index@.insert(e, placed)
                },
                None => {
                    &&& intent == (MobMoveEvent {
                        entity: new_entity,
                        movement: event.direction.spec_neg(),
                    })
                    &&& final(world).mobs@ == old(world).mobs@.push(
                        final(world).mob_of(new_entity),
                    )
                    &&& final(world).has_mob(new_entity)
                    &&& final(world).mob_of(new_entity).position.0 == placed
                    &&& final(world).mob_of(new_entity).last_position.0 == placed
                    &&& final(world).mob_of(new_entity).facing.0 == GridTransform::spec_south()
                    &&& final(world).mob_of(new_entity).cooldown.0.spec_finished()
                    &&& final(world).index@ == old(world).index@.insert(new_entity, placed)
                },
            }
        }),
{
    let placed = event.location.add(event.direction);
    loading.0 = false;
    match player {
        Some(e) => {
            let mi = match world.find_mob(e) {
                Some(mi) => mi,
                None => {
                    proof {
                        assert(false);
                    }
                    vstd::pervasive::unreached()
                },
            };
            proof {
                world.lemma_mob_index_of(mi as int);
            }
            let m0 = world.mobs[mi];
            let mut cooldown = m0.cooldown;
            cooldown.0.finish();
            let m1 = Mob {
                entity: m0.entity,
                position: GridPosition(placed),
                last_position: LastGridPosition(placed),
                facing: m0.facing,
                cooldown,
            };
            let ghost w0 = *world;
            world.mobs[mi] = m1;
            world.index.update(e, placed);
            proof {
                world.lemma_mob_index_of(mi as int);
                lemma_mobs_update_frame(w0, *world, mi as int);
                assert forall|i: int| 0 <= i < world.mobs@.len() implies {
                    &&& world.index@.dom().contains((#[trigger] world.mobs@[i]).entity)
                    &&& world.index@[world.mobs@[i].entity] == world.mobs@[i].position.0
                } by {
                    if i != mi {
                        assert(world.mobs@[i] == w0.mobs@[i]);
                        assert(w0.mobs@[i].entity != e) by {
                            if i < mi {
                                assert(w0.mobs@[i].entity != w0.mobs@[mi as int].entity);
                            } else {
                                assert(w0.mobs@[mi as int].entity != w0.mobs@[i].entity);
                            }
                        }
                    }
                }
            }
            MobMoveEvent { entity: e, movement: event.direction.neg() }
        },
        None => {
            let mob = Mob {
                entity: new_entity,
                position: GridPosition(placed),
                last_position: LastGridPosition(placed),
                facing: GridDirection::default(),
                cooldown: crate::cooldown::MovementCooldown::default(),
            };
            world.add_mob(mob);
            MobMoveEvent { entity: new_entity, movement: event.direction.neg() }
        },
    }
}

/// Turns the tick's control events into the player's movement intent, if
/// any: the last held movement direction, aimed at the player.
pub fn player_move_control(events: &Vec<GameControlEvent>, player: Option<u64>) -> (r: Option<
    MobMoveEvent,
>)
    ensures
        r == match player {
            Some(e) => match selected_movement(events@) {
                Some(d) => Some(MobMoveEvent { entity: e, movement: d }),
                None => None::<MobMoveEvent>,
            },
            None => None::<MobMoveEvent>,
        },
        r matches Some(intent) ==> intent.movement.is_cardinal(),
{
    let e = match player {
        Some(e) => e,
        None => {
            return None;
        },
    };
    match select_movement(events) {
        Some(d) => Some(MobMoveEvent { entity: e, movement: d }),
        None => None,
    }
}

/// Turns the tick's control events into the player's interact intent, if
/// any: a just-pressed interact control, aimed at the player.
pub fn player_interact_control(events: &Vec<GameControlEvent>, player: Option<u64>) -> (r: Option<
    MobInteractEvent,
>)
    ensures
        r == match player {
            Some(e) => if wants_interact(events@) {
                Some(MobInteractEvent { entity: e })
            } else {
                None::<MobInteractEvent>
            },
            None => None::<MobInteractEvent>,
        },
{
    let e = match player {
        Some(e) => e,
        None => {
            return None;
        },
    };
    if select_interact(events) {
        Some(MobInteractEvent { entity: e })
    } else {
        None
    }
}

} // verus!
