use grid_quest::control::{
    map_inputs_to_control_events, set_movement_actions, select_movement, ControlStatus,
    GameControl, GameControlEvent, Input, InputMap,
};
use grid_quest::cooldown::MenuMovementCooldown;
use grid_quest::dialog::{
    change_page, dialog_control, trigger_dialog, CurrentDialog, CurrentPageIndex,
    CurrentPageText, DialogAction, DialogReference, PageEvent,
};
use grid_quest::game_text::{locale_asset_path, page_text, Dialog, GameText, Page, Span};
use grid_quest::grid_transform::GridTransform;
use grid_quest::menu::{cursor_seek, menu_interact_control, menu_move_control, MenuBox, MenuCursor};
use grid_quest::mob::TriggerEvent;
use grid_quest::state_stack::{GameState, StateStack};

fn just(control: GameControl) -> GameControlEvent {
    GameControlEvent { control, status: ControlStatus::JustPressed }
}

fn held(control: GameControl) -> GameControlEvent {
    GameControlEvent { control, status: ControlStatus::Pressed }
}

fn menu_with_gap() -> MenuBox {
    // entries at (0,0) and (0,-2); nothing at (0,-1)
    let mut menu_box = MenuBox::new();
    menu_box.set_element(GridTransform::new(0, 0), 100);
    menu_box.set_element(GridTransform::new(0, -2), 102);
    menu_box.recompute_bounds();
    menu_box
}

#[test]
fn cursor_seeks_across_a_gap() {
    let menu_box = menu_with_gap();
    let landing = cursor_seek(&menu_box, GridTransform::new(0, -1), GridTransform::south());
    assert_eq!(landing, Some(GridTransform::new(0, -2)));
}

#[test]
fn cursor_stops_at_the_bounds() {
    let menu_box = menu_with_gap();
    let landing = cursor_seek(&menu_box, GridTransform::new(0, 1), GridTransform::north());
    assert_eq!(landing, None);
}

#[test]
fn menu_movement_skips_the_gap_and_restarts_pacing() {
    let menu_box = menu_with_gap();
    let mut cursor = MenuCursor { menu_focus: 200, menu_grid_position: GridTransform::new(0, 0) };
    let mut cooldown = MenuMovementCooldown::default();
    let events = vec![just(GameControl::Down)];
    menu_move_control(&menu_box, &mut cursor, &mut cooldown, &events, 30);
    assert_eq!(cursor.menu_grid_position, GridTransform::new(0, -2));
    assert_eq!(cooldown.0.elapsed_ms, 0);
}

#[test]
fn menu_movement_against_the_edge_stays_put() {
    let menu_box = menu_with_gap();
    let mut cursor = MenuCursor { menu_focus: 200, menu_grid_position: GridTransform::new(0, 0) };
    let mut cooldown = MenuMovementCooldown::default();
    let events = vec![just(GameControl::Up)];
    menu_move_control(&menu_box, &mut cursor, &mut cooldown, &events, 30);
    assert_eq!(cursor.menu_grid_position, GridTransform::new(0, 0));
    // no move: the pacing timer just ticked
    assert_eq!(cooldown.0.elapsed_ms, 30);
}

#[test]
fn menu_interact_triggers_the_tagged_element_under_the_cursor() {
    let menu_box = menu_with_gap();
    let tagged = vec![100u64];
    let events = vec![just(GameControl::Interact)];
    let fired = menu_interact_control(7, GridTransform::new(0, 0), &menu_box, &tagged, &events);
    assert_eq!(fired, Some(TriggerEvent { triggering: 7, triggered: 100 }));
    // an untagged element does not react
    let silent = menu_interact_control(7, GridTransform::new(0, -2), &menu_box, &tagged, &events);
    assert_eq!(silent, None);
    // without a just-pressed interact nothing fires
    let unasked = menu_interact_control(7, GridTransform::new(0, 0), &menu_box, &tagged, &vec![]);
    assert_eq!(unasked, None);
}

#[test]
fn set_element_relocates_and_overwrites() {
    let mut menu_box = MenuBox::new();
    menu_box.set_element(GridTransform::new(0, 0), 1);
    menu_box.set_element(GridTransform::new(0, 1), 2);
    // relocating element 1 frees its old position
    menu_box.set_element(GridTransform::new(1, 0), 1);
    assert_eq!(menu_box.element_at(GridTransform::new(0, 0)), None);
    assert_eq!(menu_box.element_at(GridTransform::new(1, 0)), Some(1));
    // placing element 2 over element 1 replaces it
    menu_box.set_element(GridTransform::new(1, 0), 2);
    assert_eq!(menu_box.element_at(GridTransform::new(1, 0)), Some(2));
    assert_eq!(menu_box.element_at(GridTransform::new(0, 1)), None);
}

#[test]
fn last_held_movement_wins() {
    let events = vec![held(GameControl::Up), held(GameControl::Left), just(GameControl::Down)];
    // the just-pressed event is not a held movement; the last held one wins
    assert_eq!(select_movement(&events), Some(GridTransform::west()));
    assert_eq!(select_movement(&vec![]), None);
}

#[test]
fn held_direction_priority() {
    assert_eq!(set_movement_actions(true, true, true, true), Some(GridTransform::east()));
    assert_eq!(set_movement_actions(true, true, true, false), Some(GridTransform::west()));
    assert_eq!(set_movement_actions(true, true, false, false), Some(GridTransform::south()));
    assert_eq!(set_movement_actions(true, false, false, false), Some(GridTransform::north()));
    assert_eq!(set_movement_actions(false, false, false, false), None);
}

#[test]
fn input_map_turns_keys_into_control_events() {
    let mut input_map = InputMap::default();
    input_map.bind(Input::Keyboard(17), GameControl::Up);
    input_map.bind(Input::Keyboard(31), GameControl::Down);
    input_map.bind(Input::Keyboard(57), GameControl::Interact);
    let pressed = vec![Input::Keyboard(17), Input::Keyboard(99)];
    let just_pressed = vec![Input::Keyboard(57)];
    let events = map_inputs_to_control_events(&input_map, &pressed, &just_pressed);
    assert_eq!(events.len(), 2);
    assert_eq!(events[0], held(GameControl::Up));
    assert_eq!(events[1], just(GameControl::Interact));
}

fn sample_text() -> GameText {
    GameText {
        entries: vec![(
            String::from("intro"),
            Dialog(vec![
                Page {
                    speaker: String::from("sign"),
                    mood: String::from("plain"),
                    spans: vec![
                        Span { text: String::from("Hello, "), pausebefore: 0 },
                        Span { text: String::from("world."), pausebefore: 120 },
                    ],
                },
                Page {
                    speaker: String::from("sign"),
                    mood: String::from("plain"),
                    spans: vec![Span { text: String::from("Bye."), pausebefore: 0 }],
                },
            ]),
        )],
    }
}

#[test]
fn page_text_joins_the_spans() {
    let text = sample_text();
    assert_eq!(page_text(&text.entries[0].1 .0[0]), "Hello, world.");
    assert_eq!(page_text(&text.entries[0].1 .0[1]), "Bye.");
}

#[test]
fn trigger_opens_the_referenced_dialog() {
    let text = sample_text();
    let refs = vec![(40u64, DialogReference { reference: String::from("intro") })];
    let events = vec![
        TriggerEvent { triggering: 1, triggered: 40 },
        TriggerEvent { triggering: 1, triggered: 41 },
    ];
    let mut current = CurrentDialog::default();
    let mut stack = StateStack::default();
    stack.push(GameState::Playing);
    let next = trigger_dialog(&events, &refs, &text, &mut current, &mut stack);
    assert_eq!(next, Ok(Some(GameState::Dialog)));
    let dialog = current.0.as_ref().unwrap();
    assert_eq!(dialog.0.len(), 2);
    assert_eq!(dialog.0[0].spans[0].text, "Hello, ");
    assert_eq!(stack.back(), GameState::Playing);
}

#[test]
fn unknown_dialog_reference_fails() {
    let text = sample_text();
    let refs = vec![(40u64, DialogReference { reference: String::from("missing") })];
    let events = vec![TriggerEvent { triggering: 1, triggered: 40 }];
    let mut current = CurrentDialog::default();
    let mut stack = StateStack::default();
    let next = trigger_dialog(&events, &refs, &text, &mut current, &mut stack);
    assert!(next.is_err());
}

#[test]
fn untargeted_triggers_open_nothing() {
    let text = sample_text();
    let refs = vec![(40u64, DialogReference { reference: String::from("intro") })];
    let events = vec![TriggerEvent { triggering: 1, triggered: 41 }];
    let mut current = CurrentDialog::default();
    let mut stack = StateStack::default();
    let next = trigger_dialog(&events, &refs, &text, &mut current, &mut stack);
    assert_eq!(next, Ok(None));
    assert!(current.0.is_none());
}

#[test]
fn change_page_prepares_the_requested_page() {
    let text = sample_text();
    let mut dialog = CurrentDialog::default();
    dialog.0 = Some(Dialog(vec![Page {
        speaker: String::from("sign"),
        mood: String::from("plain"),
        spans: vec![Span { text: String::from("Hi!"), pausebefore: 0 }],
    }]));
    let _ = text;
    let mut index = CurrentPageIndex(3);
    let mut page = CurrentPageText { full_text: String::from("old"), current_index: 2 };
    change_page(&PageEvent(0), &mut index, &mut page, &dialog);
    assert_eq!(index.0, 0);
    assert_eq!(page.full_text, "Hi!");
    assert_eq!(page.current_index, 0);
}

#[test]
fn dialog_interact_reveals_then_turns_then_closes() {
    assert_eq!(dialog_control(2, 0, 13, 4), DialogAction::RevealAll);
    assert_eq!(dialog_control(2, 0, 13, 13), DialogAction::NextPage(1));
    assert_eq!(dialog_control(2, 1, 4, 4), DialogAction::Close);
    assert_eq!(dialog_control(1, 0, 0, 0), DialogAction::Close);
}

#[test]
fn locale_path_wraps_the_locale() {
    assert_eq!(locale_asset_path("en-US"), "locales/en-US.ron");
    assert_eq!(locale_asset_path("de"), "locales/de.ron");
}

#[test]
fn state_stack_nests_and_unwinds() {
    let mut stack = StateStack::default();
    assert_eq!(stack.push(GameState::Menu), GameState::Menu);
    assert_eq!(stack.push(GameState::Playing), GameState::Playing);
    assert_eq!(stack.push(GameState::Dialog), GameState::Dialog);
    assert_eq!(stack.back(), GameState::Playing);
    assert_eq!(stack.back(), GameState::Menu);
}
