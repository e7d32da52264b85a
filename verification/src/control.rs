//! Abstract game controls and the mapping from raw input to control events.
//!
//! The surrounding input layer reports which keys are down and which were
//! just pressed, as plain key identifiers. A binding table turns them into
//! game-control events; per tick, only the last held movement direction and
//! the presence of a just-pressed interact are honored.

use vstd::prelude::*;
use crate::grid_transform::GridTransform;

verus! {

/// A raw input source, identified by a plain key code.
#[derive(Clone, Copy, Debug, PartialEq, Eq, Hash, Structural)]
pub enum Input {
    Keyboard(u32),
}

/// The abstract controls of the game.
#[derive(Clone, Copy, Debug, PartialEq, Eq, Structural)]
pub enum GameControl {
    Up,
    Down,
    Left,
    Right,
    Interact,
}

/// Whether a control is reported as held or as freshly pressed.
#[derive(Clone, Copy, Debug, PartialEq, Eq, Structural)]
pub enum ControlStatus {
    Pressed,
    JustPressed,
}

/// One control observation of one tick.
#[derive(Clone, Copy, Debug, PartialEq, Eq, Structural)]
pub struct GameControlEvent {
    pub control: GameControl,
    pub status: ControlStatus,
}

impl GameControlEvent {
    pub open spec fn spec_pressed(&self) -> bool {
        self.status == ControlStatus::Pressed
    }

    /// Whether the control is reported as held.
    #[verifier::when_used_as_spec(spec_pressed)]
    pub fn pressed(&self) -> (r: bool)
        ensures
            r == self.spec_pressed(),
    {
        self.status == ControlStatus::Pressed
    }

    pub open spec fn spec_just_pressed(&self) -> bool {
        self.status == ControlStatus::JustPressed
    }

    /// Whether the control is reported as freshly pressed.
    #[verifier::when_used_as_spec(spec_just_pressed)]
    pub fn just_pressed(&self) -> (r: bool)
        ensures
            r == self.spec_just_pressed(),
    {
        self.status == ControlStatus::JustPressed
    }

    pub open spec fn spec_is_movement(&self) -> bool {
        self.control != GameControl::Interact
    }

    /// Whether the control asks for movement rather than interaction.
    #[verifier::when_used_as_spec(spec_is_movement)]
    pub fn is_movement(&self) -> (r: bool)
        ensures
            r == self.spec_is_movement(),
    {
        match self.control {
            GameControl::Up => true,
            GameControl::Down => true,
            GameControl::Left => true,
            GameControl::Right => true,
            GameControl::Interact => false,
        }
    }
}

/// The cardinal unit vector a movement control stands for; the interact
/// control stands for none.
pub open spec fn spec_movement_direction(control: GameControl) -> Option<GridTransform> {
    match control {
        GameControl::Up => Some(GridTransform::spec_north()),
        GameControl::Down => Some(GridTransform::spec_south()),
        GameControl::Left => Some(GridTransform::spec_west()),
        GameControl::Right => Some(GridTransform::spec_east()),
        GameControl::Interact => None,
    }
}

/// The cardinal unit vector a movement control stands for.
#[verifier::when_used_as_spec(spec_movement_direction)]
pub fn movement_direction(control: GameControl) -> (r: Option<GridTransform>)
    ensures
        r == spec_movement_direction(control),
{
    match control {
        GameControl::Up => Some(GridTransform::north()),
        GameControl::Down => Some(GridTransform::south()),
        GameControl::Left => Some(GridTransform::west()),
        GameControl::Right => Some(GridTransform::east()),
        GameControl::Interact => None,
    }
}

/// The movement a set of held direction controls asks for, with right
/// winning over left, left over down, and down over up; nothing held asks
/// for nothing.
pub fn set_movement_actions(up: bool, down: bool, left: bool, right: bool) -> (r: Option<
    GridTransform,
>)
    ensures
        r == if right {
            Some(GridTransform::spec_east())
        } else if left {
            Some(GridTransform::spec_west())
        } else if down {
            Some(GridTransform::spec_south())
        } else if up {
            Some(GridTransform::spec_north())
        } else {
            None::<GridTransform>
        },
{
    let mut movement: GridTransform = GridTransform::zero();
    if up {
        movement = GridTransform::north();
    }
    if down {
        movement = GridTransform::south();
    }
    if left {
        movement = GridTransform::west();
    }
    if right {
        movement = GridTransform::east();
    }
    if movement == GridTransform::zero() {
        None
    } else {
        Some(movement)
    }
}

/// Some binding maps the key `k`.
pub open spec fn has_binding(bindings: Seq<(Input, GameControl)>, k: Input) -> bool {
    exists|i: int| 0 <= i < bindings.len() && (#[trigger] bindings[i]).0 == k
}

/// Index of a binding mapping the key `k`.
pub open spec fn binding_index(bindings: Seq<(Input, GameControl)>, k: Input) -> int {
    choose|i: int| 0 <= i < bindings.len() && (#[trigger] bindings[i]).0 == k
}

/// No two bindings map the same key.
pub open spec fn distinct_bindings(bindings: Seq<(Input, GameControl)>) -> bool {
    forall|i: int, j: int| 0 <= i < j < bindings.len()
        ==> (#[trigger] bindings[i]).0 != (#[trigger] bindings[j]).0
}

/// The binding table from raw inputs to game controls.
#[derive(Debug)]
pub struct InputMap(pub Vec<(Input, GameControl)>);

impl Default for InputMap {
    fn default() -> (r: Self)
        ensures
            r.0@ == Seq::<(Input, GameControl)>::empty(),
    {
        InputMap(Vec::new())
    }
}

impl InputMap {
    pub open spec fn wf(self) -> bool {
        distinct_bindings(self.0@)
    }

    /// Adds a binding for a key not yet bound.
    pub fn bind(&mut self, key: Input, control: GameControl)
        requires
            old(self).wf(),
            !has_binding(old(self).0@, key),
        ensures
            final(self).wf(),
            final(self).0@ == old(self).0@.push((key, control)),
    {
        self.0.push((key, control));
        proof {
            let s = self.0@;
            let n = s.len() - 1;
            assert forall|i: int, j: int| 0 <= i < j < s.len()
                implies (#[trigger] s[i]).0 != (#[trigger] s[j]).0 by {
                if j < n {
                    assert(old(self).0@[i] == s[i] && old(self).0@[j] == s[j]);
                } else {
                    assert(s[i] == old(self).0@[i]);
                    if old(self).0@[i].0 == key {
                        assert(has_binding(old(self).0@, key));
                    }
                }
            }
        }
    }

    /// The control bound to a key, if any.
    pub fn get(&self, key: Input) -> (r: Option<GameControl>)
        requires
            self.wf(),
        ensures
            match r {
                Some(c) => has_binding(self.0@, key) && c == self.0@[binding_index(self.0@, key)].1,
                None => !has_binding(self.0@, key),
            },
    {
        let n = self.0.len();
        let mut i: usize = 0;
        while i < n
            invariant
                self.wf(),
                i <= n,
                n == self.0@.len(),
                forall|j: int| 0 <= j < i ==> (#[trigger] self.0@[j]).0 != key,
            decreases n - i,
        {
            if self.0[i].0 == key {
                proof {
                    assert(has_binding(self.0@, key));
                    let k = binding_index(self.0@, key);
                    if k < i {
                        assert(self.0@[k].0 != self.0@[i as int].0);
                    } else if i < k {
                        assert(self.0@[i as int].0 != self.0@[k].0);
                    }
                }
                return Some(self.0[i].1);
            }
            i = i + 1;
        }
        None
    }
}

/// The control events a list of keys produces under a binding table, in key
/// order, all with the given status; unbound keys produce nothing.
pub open spec fn control_events_for(
    bindings: Seq<(Input, GameControl)>,
    keys: Seq<Input>,
    status: ControlStatus,
) -> Seq<GameControlEvent>
    decreases keys.len(),
{
    if keys.len() == 0 {
        Seq::empty()
    } else {
        let rest = control_events_for(bindings, keys.drop_last(), status);
        if has_binding(bindings, keys.last()) {
            rest.push(
                GameControlEvent {
                    control: bindings[binding_index(bindings, keys.last())].1,
                    status,
                },
            )
        } else {
            rest
        }
    }
}

/// Turns the keys held and the keys just pressed this tick into control
/// events: one per bound held key, then one per bound just-pressed key.
pub fn map_inputs_to_control_events(
    input_map: &InputMap,
    pressed: &Vec<Input>,
    just_pressed: &Vec<Input>,
) -> (r: Vec<GameControlEvent>)
    requires
        input_map.wf(),
    ensures
        r@ == control_events_for(input_map.0@, pressed@, ControlStatus::Pressed)
            + control_events_for(input_map.0@, just_pressed@, ControlStatus::JustPressed),
{
    let mut r: Vec<GameControlEvent> = Vec::new();
    let n = pressed.len();
    let mut i: usize = 0;
    while i < n
        invariant
            input_map.wf(),
            i <= n,
            n == pressed@.len(),
            r@ == control_events_for(
                input_map.0@,
                pressed@.subrange(0, i as int),
                ControlStatus::Pressed,
            ),
        decreases n - i,
    {
        proof {
            let pre = pressed@.subrange(0, i as int);
            let cur = pressed@.subrange(0, i + 1);
            assert(cur.drop_last() =~= pre);
            assert(cur.last() == pressed@[i as int]);
        }
        match input_map.get(pressed[i]) {
            Some(c) => {
                r.push(GameControlEvent { control: c, status: ControlStatus::Pressed });
            },
            None => {},
        }
        i = i + 1;
    }
    proof {
        assert(pressed@.subrange(0, n as int) =~= pressed@);
    }
    let m = just_pressed.len();
    let mut j: usize = 0;
    while j < m
        invariant
            input_map.wf(),
            j <= m,
            m == just_pressed@.len(),
            r@ == control_events_for(input_map.0@, pressed@, ControlStatus::Pressed)
                + control_events_for(
                input_map.0@,
                just_pressed@.subrange(0, j as int),
                ControlStatus::JustPressed,
            ),
        decreases m - j,
    {
        proof {
            let pre = just_pressed@.subrange(0, j as int);
            let cur = just_pressed@.subrange(0, j + 1);
            assert(cur.drop_last() =~= pre);
            assert(cur.last() == just_pressed@[j as int]);
        }
        match input_map.get(just_pressed[j]) {
            Some(c) => {
                r.push(GameControlEvent { control: c, status: ControlStatus::JustPressed });
            },
            None => {},
        }
        j = j + 1;
    }
    proof {
        assert(just_pressed@.subrange(0, m as int) =~= just_pressed@);
    }
    r
}

/// The movement the events of one tick ask for: the direction of the last
/// held movement control, if any. Simultaneous directions are not combined —
/// the last one wins.
pub open spec fn selected_movement(events: Seq<GameControlEvent>) -> Option<GridTransform>
    decreases events.len(),
{
    if events.len() == 0 {
        None
    } else if events.last().spec_pressed() && events.last().spec_is_movement() {
        spec_movement_direction(events.last().control)
    } else {
        selected_movement(events.drop_last())
    }
}

/// Picks the movement direction the events of one tick ask for.
pub fn select_movement(events: &Vec<GameControlEvent>) -> (r: Option<GridTransform>)
    ensures
        r == selected_movement(events@),
        r matches Some(d) ==> d.is_cardinal(),
{
    let mut r: Option<GridTransform> = None;
    let n = events.len();
    let mut i: usize = 0;
    while i < n
        invariant
            i <= n,
            n == events@.len(),
            r == selected_movement(events@.subrange(0, i as int)),
            r matches Some(d) ==> d.is_cardinal(),
        decreases n - i,
    {
        proof {
            let pre = events@.subrange(0, i as int);
            let cur = events@.subrange(0, i + 1);
            assert(cur.drop_last() =~= pre);
            assert(cur.last() == events@[i as int]);
        }
        let ev = events[i];
        if ev.pressed() && ev.is_movement() {
            r = movement_direction(ev.control);
        }
        i = i + 1;
    }
    proof {
        assert(events@.subrange(0, n as int) =~= events@);
    }
    r
}

/// Whether the events of one tick ask for an interaction: some interact
/// control was just pressed.
pub open spec fn wants_interact(events: Seq<GameControlEvent>) -> bool {
    exists|i: int| 0 <= i < events.len() && (#[trigger] events[i]).spec_just_pressed()
        && events[i].control == GameControl::Interact
}

/// Whether the events of one tick ask for an interaction.
pub fn select_interact(events: &Vec<GameControlEvent>) -> (r: bool)
    ensures
        r == wants_interact(events@),
{
    let n = events.len();
    let mut i: usize = 0;
    while i < n
        invariant
            i <= n,
            n == events@.len(),
            forall|j: int| 0 <= j < i ==> !((#[trigger] events@[j]).spec_just_pressed()
                && events@[j].control == GameControl::Interact),
        decreases n - i,
    {
        let ev = events[i];
        if ev.just_pressed() {
            match ev.control {
                GameControl::Interact => {
                    return true;
                },
                _ => {},
            }
        }
        i = i + 1;
    }
    false
}

} // verus!
