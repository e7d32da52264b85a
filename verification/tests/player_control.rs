use grid_quest::control::{ControlStatus, GameControl, GameControlEvent};
use grid_quest::grid_transform::GridTransform;
use grid_quest::mob::{MobInteractEvent, MobMoveEvent};
use grid_quest::player::{player_interact_control, player_move_control};

fn held(control: GameControl) -> GameControlEvent {
    GameControlEvent { control, status: ControlStatus::Pressed }
}

fn just(control: GameControl) -> GameControlEvent {
    GameControlEvent { control, status: ControlStatus::JustPressed }
}

#[test]
fn movement_intent_follows_the_last_held_direction() {
    let events = vec![held(GameControl::Up), held(GameControl::Right)];
    let intent = player_move_control(&events, Some(5));
    assert_eq!(intent, Some(MobMoveEvent { entity: 5, movement: GridTransform::east() }));
}

#[test]
fn no_player_means_no_intent() {
    let events = vec![held(GameControl::Up)];
    assert_eq!(player_move_control(&events, None), None);
    assert_eq!(player_interact_control(&vec![just(GameControl::Interact)], None), None);
}

#[test]
fn held_interact_does_not_move() {
    let events = vec![held(GameControl::Interact)];
    assert_eq!(player_move_control(&events, Some(5)), None);
    // interacting needs a fresh press, not a held key
    assert_eq!(player_interact_control(&events, Some(5)), None);
}

#[test]
fn just_pressed_interact_aims_at_the_player() {
    let events = vec![held(GameControl::Up), just(GameControl::Interact)];
    assert_eq!(
        player_interact_control(&events, Some(5)),
        Some(MobInteractEvent { entity: 5 }),
    );
}
