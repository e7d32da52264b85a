use grid_quest::cooldown::{Cooldown, MovementCooldown, SightTriggerCooldown};
use grid_quest::dialog::{trigger_dialog, CurrentDialog, DialogReference};
use grid_quest::game_text::{Dialog, GameText, Page, Span};
use grid_quest::grid_transform::GridTransform;
use grid_quest::map::{
    change_map, map_exits, ChangeMapQueue, CurrentMap, CurrentSpawn, ExitData,
    MapAndPlayerLoading, MapChangedSinceMove,
};
use grid_quest::mob::MobMoveEvent;
use grid_quest::state_stack::{GameState, StateStack};
use grid_quest::world::{
    GridDirection, GridPosition, GridWorld, LastGridPosition, Mob, SightWatcher, TileEntity,
};

const PLAYER: u64 = 1;
const EXIT: u64 = 40;
const WATCHER: u64 = 9;

#[test]
fn stepping_onto_an_exit_changes_the_map_once_the_cooldown_clears() {
    let mut world = GridWorld::new();
    world.add_mob(Mob {
        entity: PLAYER,
        position: GridPosition(GridTransform::new(0, 0)),
        last_position: LastGridPosition(GridTransform::new(0, 0)),
        facing: GridDirection::default(),
        cooldown: MovementCooldown::default(),
    });
    world.register_tile(
        TileEntity {
            entity: EXIT,
            blocks_walking: false,
            triggers_on_move_onto: true,
            triggers_on_interact: false,
            blocks_sight: false,
        },
        GridTransform::new(1, 0),
    );
    let exits = vec![(EXIT, ExitData { map: String::from("clearing"), spawn: String::from("start") })];

    // the step onto the exit fires its trigger and queues the change
    let move_triggers =
        world.resolve_move(MobMoveEvent { entity: PLAYER, movement: GridTransform::east() });
    assert_eq!(move_triggers.len(), 1);
    let mut queue = ChangeMapQueue::default();
    map_exits(&move_triggers, PLAYER, &exits, &mut queue);
    assert_eq!(queue.0.len(), 1);

    // the change waits while the step's cooldown still runs
    let mut current_map = CurrentMap::default();
    let mut current_spawn = CurrentSpawn::default();
    let mut map_changed = MapChangedSinceMove::default();
    let mut loading = MapAndPlayerLoading::default();
    let cooldown = world.get_mob(PLAYER).unwrap().cooldown;
    let held = change_map(
        &mut queue,
        &mut current_map,
        &mut current_spawn,
        &mut map_changed,
        &mut loading,
        Some(cooldown),
    );
    assert!(held.is_none());
    assert_eq!(queue.0.len(), 1);

    // once the cooldown finishes, the swap resolves and the world is torn
    // down around the player
    world.tick_cooldowns(400);
    let cooldown = world.get_mob(PLAYER).unwrap().cooldown;
    let resolved = change_map(
        &mut queue,
        &mut current_map,
        &mut current_spawn,
        &mut map_changed,
        &mut loading,
        Some(cooldown),
    );
    assert_eq!(resolved.unwrap().map, "clearing");
    assert_eq!(current_spawn.0.as_deref(), Some("start"));
    assert!(map_changed.0);
    assert!(loading.0);
    world.clear_for_transition(Some(PLAYER));
    assert_eq!(world.tiles.len(), 0);
    assert_eq!(world.mobs.len(), 1);
    assert_eq!(world.index.get(GridTransform::new(1, 0)), vec![PLAYER]);
}

#[test]
fn a_watcher_spotting_the_player_opens_its_dialog() {
    let mut world = GridWorld::new();
    world.add_mob(Mob {
        entity: PLAYER,
        position: GridPosition(GridTransform::new(0, 3)),
        last_position: LastGridPosition(GridTransform::new(0, 3)),
        facing: GridDirection::default(),
        cooldown: MovementCooldown::default(),
    });
    world.add_watcher(SightWatcher {
        entity: WATCHER,
        position: GridTransform::new(0, 0),
        facing: GridTransform::north(),
        cooldown: SightTriggerCooldown(Cooldown { elapsed_ms: 2000, duration_ms: 2000 }),
    });
    let sight_triggers = world.resolve_sight(PLAYER, 16);
    assert_eq!(sight_triggers.len(), 1);

    let text = GameText {
        entries: vec![(
            String::from("spotted"),
            Dialog(vec![Page {
                speaker: String::from("guard"),
                mood: String::from("alert"),
                spans: vec![Span { text: String::from("Hey, you!"), pausebefore: 0 }],
            }]),
        )],
    };
    let refs = vec![(WATCHER, DialogReference { reference: String::from("spotted") })];
    let mut current = CurrentDialog::default();
    let mut stack = StateStack::default();
    stack.push(GameState::Playing);
    let next = trigger_dialog(&sight_triggers, &refs, &text, &mut current, &mut stack);
    assert_eq!(next, Ok(Some(GameState::Dialog)));
    assert_eq!(current.0.as_ref().unwrap().0[0].spans[0].text, "Hey, you!");
}
