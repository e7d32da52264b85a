use grid_quest::cooldown::{Cooldown, MovementCooldown};
use grid_quest::grid_transform::GridTransform;
use grid_quest::map::{
    change_map, map_exits, mark_player_spawn, spawn_direction_from_name, transition_alpha,
    update_map_changed, ChangeMapEvent, ChangeMapQueue, CurrentMap, CurrentSpawn, ExitData,
    MapAndPlayerLoading, MapChangedSinceMove, SpawnData,
};
use grid_quest::mob::TriggerOnMoveOntoEvent;

fn cooldown_with_fraction(elapsed_ms: u32, duration_ms: u32) -> MovementCooldown {
    MovementCooldown(Cooldown { elapsed_ms, duration_ms })
}

#[test]
fn latest_queued_request_wins() {
    let mut queue = ChangeMapQueue::default();
    queue.request_change(ChangeMapEvent { map: String::from("a"), spawn: String::from("spawn_a") });
    queue.request_change(ChangeMapEvent { map: String::from("b"), spawn: String::from("spawn_b") });
    let mut current_map = CurrentMap::default();
    let mut current_spawn = CurrentSpawn::default();
    let mut map_changed = MapChangedSinceMove::default();
    let mut loading = MapAndPlayerLoading::default();
    let selected = change_map(
        &mut queue,
        &mut current_map,
        &mut current_spawn,
        &mut map_changed,
        &mut loading,
        None,
    );
    let event = selected.unwrap();
    assert_eq!(event.map, "b");
    assert_eq!(event.spawn, "spawn_b");
    assert_eq!(current_map.0.as_deref(), Some("b"));
    assert_eq!(current_spawn.0.as_deref(), Some("spawn_b"));
    assert!(queue.0.is_empty());
    assert!(map_changed.0);
    assert!(loading.0);
}

#[test]
fn change_waits_for_the_mover_cooldown() {
    let mut queue = ChangeMapQueue::default();
    queue.request_change(ChangeMapEvent { map: String::from("a"), spawn: String::from("s") });
    let mut current_map = CurrentMap::default();
    let mut current_spawn = CurrentSpawn::default();
    let mut map_changed = MapChangedSinceMove::default();
    let mut loading = MapAndPlayerLoading::default();
    let held = change_map(
        &mut queue,
        &mut current_map,
        &mut current_spawn,
        &mut map_changed,
        &mut loading,
        Some(cooldown_with_fraction(100, 400)),
    );
    assert!(held.is_none());
    assert_eq!(queue.0.len(), 1);
    assert!(current_map.0.is_none());
    assert!(!map_changed.0);
    let resolved = change_map(
        &mut queue,
        &mut current_map,
        &mut current_spawn,
        &mut map_changed,
        &mut loading,
        Some(cooldown_with_fraction(400, 400)),
    );
    assert!(resolved.is_some());
    assert!(queue.0.is_empty());
}

#[test]
fn fade_alpha_scenarios() {
    // fraction-elapsed 0.4, queue non-empty, not loading, mover present:
    // raw 0.4 scales to 0.5
    let alpha = transition_alpha(false, false, false, Some(cooldown_with_fraction(160, 400)));
    assert_eq!(alpha, 500);
    // fraction 0.9 clamps to full cover
    let alpha = transition_alpha(false, false, false, Some(cooldown_with_fraction(360, 400)));
    assert_eq!(alpha, 1000);
    // loading always covers fully
    let alpha = transition_alpha(false, true, true, Some(cooldown_with_fraction(0, 400)));
    assert_eq!(alpha, 1000);
    // no mover covers fully
    let alpha = transition_alpha(false, false, false, None);
    assert_eq!(alpha, 1000);
    // queue empty, map changed: fade back in with 1 - fraction
    let alpha = transition_alpha(true, true, false, Some(cooldown_with_fraction(240, 400)));
    assert_eq!(alpha, 500);
    // at rest the cover is fully clear
    let alpha = transition_alpha(true, false, false, Some(cooldown_with_fraction(160, 400)));
    assert_eq!(alpha, 0);
}

#[test]
fn map_changed_clears_only_after_loading() {
    let mut map_changed = MapChangedSinceMove(true);
    update_map_changed(
        &mut map_changed,
        &MapAndPlayerLoading(true),
        Some(cooldown_with_fraction(400, 400)),
    );
    assert!(map_changed.0);
    update_map_changed(
        &mut map_changed,
        &MapAndPlayerLoading(false),
        Some(cooldown_with_fraction(100, 400)),
    );
    assert!(map_changed.0);
    update_map_changed(
        &mut map_changed,
        &MapAndPlayerLoading(false),
        Some(cooldown_with_fraction(400, 400)),
    );
    assert!(!map_changed.0);
    update_map_changed(&mut map_changed, &MapAndPlayerLoading(false), None);
    assert!(map_changed.0);
}

#[test]
fn player_exit_triggers_queue_changes() {
    let exits = vec![
        (40u64, ExitData { map: String::from("clearing"), spawn: String::from("start") }),
    ];
    let events = vec![
        // the player stepping onto the exit queues a request
        TriggerOnMoveOntoEvent { moved: 1, triggered: 40 },
        // another mob stepping onto it does not
        TriggerOnMoveOntoEvent { moved: 2, triggered: 40 },
        // the player stepping onto something without exit data does not
        TriggerOnMoveOntoEvent { moved: 1, triggered: 41 },
    ];
    let mut queue = ChangeMapQueue::default();
    map_exits(&events, 1, &exits, &mut queue);
    assert_eq!(queue.0.len(), 1);
    assert_eq!(queue.0[0].map, "clearing");
    assert_eq!(queue.0[0].spawn, "start");
}

#[test]
fn spawn_directions_parse_exactly() {
    assert_eq!(
        spawn_direction_from_name(&String::from("north")),
        Ok(GridTransform::north()),
    );
    assert_eq!(spawn_direction_from_name(&String::from("east")), Ok(GridTransform::east()));
    assert_eq!(spawn_direction_from_name(&String::from("south")), Ok(GridTransform::south()));
    assert_eq!(spawn_direction_from_name(&String::from("west")), Ok(GridTransform::west()));
    assert_eq!(spawn_direction_from_name(&String::from("center")), Ok(GridTransform::zero()));
    assert!(spawn_direction_from_name(&String::from("North")).is_err());
    assert!(spawn_direction_from_name(&String::from("up")).is_err());
    assert!(spawn_direction_from_name(&String::from("")).is_err());
}

#[test]
fn only_the_requested_marker_spawns() {
    let marker = SpawnData { name: String::from("start"), from_direction: String::from("north") };
    let none = mark_player_spawn(&marker, GridTransform::new(5, 5), &CurrentSpawn(None));
    assert_eq!(none, Ok(None));
    let other = mark_player_spawn(
        &marker,
        GridTransform::new(5, 5),
        &CurrentSpawn(Some(String::from("door"))),
    );
    assert_eq!(other, Ok(None));
    let matched = mark_player_spawn(
        &marker,
        GridTransform::new(5, 5),
        &CurrentSpawn(Some(String::from("start"))),
    );
    let event = matched.unwrap().unwrap();
    assert_eq!(event.location, GridTransform::new(5, 5));
    assert_eq!(event.direction, GridTransform::north());
}

#[test]
fn bad_spawn_direction_is_a_configuration_error() {
    let marker = SpawnData { name: String::from("start"), from_direction: String::from("sideways") };
    let r = mark_player_spawn(
        &marker,
        GridTransform::new(5, 5),
        &CurrentSpawn(Some(String::from("start"))),
    );
    assert!(r.is_err());
}
