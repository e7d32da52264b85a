//! The menu grid: bounds, the element index of a menu box, and cursor
//! movement.
//!
//! Menu entries sit on grid positions inside a bounding box. A movement
//! control sends the cursor stepping in its direction until it lands on a
//! position holding an element or leaves the bounds; only landing on an
//! element moves the cursor. An interact control triggers the element under
//! the cursor, if it carries the menu-interact tag.

use vstd::prelude::*;
use crate::cooldown::{Cooldown, MenuMovementCooldown};
use crate::control::{spec_movement_direction, movement_direction, wants_interact, GameControlEvent};
use crate::grid_transform::GridTransform;
use crate::mob::TriggerEvent;

verus! {

/// An inclusive axis-aligned box of grid positions.
#[derive(Clone, Copy, Debug, PartialEq, Eq, Structural)]
pub struct GridBounds {
    pub min_x: i16,
    pub max_x: i16,
    pub min_y: i16,
    pub max_y: i16,
}

impl Default for GridBounds {
    fn default() -> (r: Self)
        ensures
            r == (GridBounds { min_x: 0, max_x: 0, min_y: 0, max_y: 0 }),
    {
        GridBounds { min_x: 0, max_x: 0, min_y: 0, max_y: 0 }
    }
}

impl GridBounds {
    /// The bounds holding exactly one position.
    pub fn from_position(pos: GridTransform) -> (r: Self)
        ensures
            r == (GridBounds { min_x: pos.x, max_x: pos.x, min_y: pos.y, max_y: pos.y }),
    {
        GridBounds { min_x: pos.x, max_x: pos.x, min_y: pos.y, max_y: pos.y }
    }

    pub open spec fn spec_includes(&self, pos: GridTransform) -> bool {
        self.min_x <= pos.x <= self.max_x && self.min_y <= pos.y <= self.max_y
    }

    /// Whether a position lies inside these bounds.
    #[verifier::when_used_as_spec(spec_includes)]
    pub fn includes(&self, pos: GridTransform) -> (r: bool)
        ensures
            r == self.spec_includes(pos),
    {
        pos.x >= self.min_x && pos.x <= self.max_x && pos.y >= self.min_y && pos.y <= self.max_y
    }

    /// Grows the bounds to take a position in.
    pub fn add_position(&mut self, pos: GridTransform)
        ensures
            *final(self) == (GridBounds {
                min_x: if pos.x < old(self).min_x { pos.x } else { old(self).min_x },
                max_x: if pos.x > old(self).max_x { pos.x } else { old(self).max_x },
                min_y: if pos.y < old(self).min_y { pos.y } else { old(self).min_y },
                max_y: if pos.y > old(self).max_y { pos.y } else { old(self).max_y },
            }),
    {
        if pos.x < self.min_x {
            self.min_x = pos.x;
        }
        if pos.x > self.max_x {
            self.max_x = pos.x;
        }
        if pos.y < self.min_y {
            self.min_y = pos.y;
        }
        if pos.y > self.max_y {
            self.max_y = pos.y;
        }
    }
}

/// Some element stands at position `pos`.
pub open spec fn has_element(elems: Seq<(GridTransform, u64)>, pos: GridTransform) -> bool {
    exists|i: int| 0 <= i < elems.len() && (#[trigger] elems[i]).0 == pos
}

/// Index of an element entry at position `pos`.
pub open spec fn element_index(elems: Seq<(GridTransform, u64)>, pos: GridTransform) -> int {
    choose|i: int| 0 <= i < elems.len() && (#[trigger] elems[i]).0 == pos
}

/// The element at position `pos`.
pub open spec fn element_at(elems: Seq<(GridTransform, u64)>, pos: GridTransform) -> u64 {
    elems[element_index(elems, pos)].1
}

/// A menu box: its elements indexed by grid position, and the bounds they
/// span.
#[derive(Debug)]
pub struct MenuBox {
    pub elements_index: Vec<(GridTransform, u64)>,
    pub grid_bounds: GridBounds,
}

impl MenuBox {
    /// No two entries share a position, and no two entries hold the same
    /// element.
    pub open spec fn wf(self) -> bool {
        &&& forall|i: int, j: int| 0 <= i < j < self.elements_index@.len()
            ==> (#[trigger] self.elements_index@[i]).0 != (#[trigger] self.elements_index@[j]).0
        &&& forall|i: int, j: int| 0 <= i < j < self.elements_index@.len()
            ==> (#[trigger] self.elements_index@[i]).1 != (#[trigger] self.elements_index@[j]).1
    }

    /// An empty menu box.
    pub fn new() -> (r: Self)
        ensures
            r.wf(),
            r.elements_index@ == Seq::<(GridTransform, u64)>::empty(),
            r.grid_bounds == (GridBounds { min_x: 0, max_x: 0, min_y: 0, max_y: 0 }),
    {
        MenuBox { elements_index: Vec::new(), grid_bounds: GridBounds::default() }
    }

    /// The element standing at a position, if any.
    pub fn element_at(&self, pos: GridTransform) -> (r: Option<u64>)
        requires
            self.wf(),
        ensures
            match r {
                Some(e) => has_element(self.elements_index@, pos)
                    && e == element_at(self.elements_index@, pos),
                None => !has_element(self.elements_index@, pos),
            },
    {
        let n = self.elements_index.len();
        let mut i: usize = 0;
        while i < n
            invariant
                self.wf(),
                i <= n,
                n == self.elements_index@.len(),
                forall|j: int| 0 <= j < i ==> (#[trigger] self.elements_index@[j]).0 != pos,
            decreases n - i,
        {
            if self.elements_index[i].0 == pos {
                proof {
                    assert(has_element(self.elements_index@, pos));
                    let k = element_index(self.elements_index@, pos);
                    if k < i {
                        assert(self.elements_index@[k].0 != self.elements_index@[i as int].0);
                    } else if i < k {
                        assert(self.elements_index@[i as int].0 != self.elements_index@[k].0);
                    }
                }
                return Some(self.elements_index[i].1);
            }
            i = i + 1;
        }
        None
    }

    /// Records that `element` now stands at `pos`: its old entry, wherever
    /// it was, disappears, and it replaces whatever stood at `pos`.
    pub fn set_element(&mut self, pos: GridTransform, element: u64)
        requires
            old(self).wf(),
        ensures
            final(self).wf(),
            final(self).grid_bounds == old(self).grid_bounds,
            has_element(final(self).elements_index@, pos),
            element_at(final(self).elements_index@, pos) == element,
            forall|q: GridTransform| q != pos ==> (has_element(final(self).elements_index@, q)
                <==> has_element(old(self).elements_index@, q)
                    && element_at(old(self).elements_index@, q) != element),
            forall|q: GridTransform| q != pos && has_element(final(self).elements_index@, q)
                ==> element_at(final(self).elements_index@, q)
                    == element_at(old(self).elements_index@, q),
    {
        let ghost s0 = self.elements_index@;
        // take the element's old entry out
        let ghost mut removed = false;
        let ghost mut ri: int = 0;
        match self.find_element(element) {
            Some(i) => {
                self.elements_index.remove(i);
                proof {
                    s0.remove_ensures(i as int);
                    removed = true;
                    ri = i as int;
                }
            },
            None => {},
        }
        let ghost s1 = self.elements_index@;
        proof {
            // after the removal no entry holds the element
            assert forall|j: int| 0 <= j < s1.len()
                implies (#[trigger] s1[j]).1 != element by {
                if removed {
                    let j0: int = if j < ri { j } else { j + 1 };
                    assert(s1[j] == s0[j0]);
                    if j0 > ri {
                        assert(s0[ri].1 != s0[j0].1);
                    } else if j0 < ri {
                        assert(s0[j0].1 != s0[ri].1);
                    }
                }
            }
            // entries keep both distinctness properties
            assert forall|a: int, b: int| 0 <= a < b < s1.len()
                implies (#[trigger] s1[a]).0 != (#[trigger] s1[b]).0
                    && (#[trigger] s1[a]).1 != (#[trigger] s1[b]).1 by {
                if removed {
                    let a0: int = if a < ri { a } else { a + 1 };
                    let b0: int = if b < ri { b } else { b + 1 };
                    assert(s1[a] == s0[a0] && s1[b] == s0[b0]);
                }
            }
            // positions other than the removed entry's keep their elements
            assert forall|q: GridTransform| has_element(s1, q)
                implies has_element(s0, q) && element_at(s1, q) == element_at(s0, q) by {
                let j = element_index(s1, q);
                assert(0 <= j < s1.len() && s1[j].0 == q);
                let j0: int = if removed && j >= ri { j + 1 } else { j };
                assert(s1[j] == s0[j0]);
                assert(has_element(s0, q));
                lemma_element_index_of(s1, j);
                lemma_element_index_of(s0, j0);
            }
            assert forall|q: GridTransform| has_element(s0, q) && element_at(s0, q) != element
                implies has_element(s1, q) by {
                let j0 = element_index(s0, q);
                assert(0 <= j0 < s0.len() && s0[j0].0 == q);
                lemma_element_index_of(s0, j0);
                if removed {
                    assert(j0 != ri);
                    let j: int = if j0 < ri { j0 } else { j0 - 1 };
                    assert(s1[j] == s0[j0]);
                    assert(has_element(s1, q));
                }
            }
        }
        // put the element in at its new position
        match self.find_position(pos) {
            Some(k) => {
                self.elements_index[k] = (pos, element);
                proof {
                    let s2 = self.elements_index@;
                    assert forall|a: int, b: int| 0 <= a < b < s2.len()
                        implies (#[trigger] s2[a]).0 != (#[trigger] s2[b]).0
                            && (#[trigger] s2[a]).1 != (#[trigger] s2[b]).1 by {
                        assert(s2[a].0 == s1[a].0 && s2[b].0 == s1[b].0);
                        if a != k && b != k {
                            assert(s2[a] == s1[a] && s2[b] == s1[b]);
                        } else if a == k {
                            assert(s2[b] == s1[b]);
                            assert(s1[b].1 != element);
                        } else {
                            assert(s2[a] == s1[a]);
                            assert(s1[a].1 != element);
                        }
                    }
                    lemma_element_index_of(s2, k as int);
                    assert forall|q: GridTransform| q != pos
                        implies (has_element(s2, q) <==> has_element(s1, q))
                            && (has_element(s2, q) ==> element_at(s2, q) == element_at(s1, q)) by {
                        if has_element(s2, q) {
                            let j = element_index(s2, q);
                            assert(0 <= j < s2.len() && s2[j].0 == q);
                            assert(j != k);
                            assert(s2[j] == s1[j]);
                            lemma_element_index_of(s2, j);
                            lemma_element_index_of(s1, j);
                        }
                        if has_element(s1, q) {
                            let j = element_index(s1, q);
                            assert(0 <= j < s1.len() && s1[j].0 == q);
                            assert(j != k);
                            assert(s2[j] == s1[j]);
                            assert(has_element(s2, q));
                        }
                    }
                }
            },
            None => {
                self.elements_index.push((pos, element));
                proof {
                    let s2 = self.elements_index@;
                    let m = s2.len() - 1;
                    assert forall|a: int, b: int| 0 <= a < b < s2.len()
                        implies (#[trigger] s2[a]).0 != (#[trigger] s2[b]).0
                            && (#[trigger] s2[a]).1 != (#[trigger] s2[b]).1 by {
                        if b < m {
                            assert(s2[a] == s1[a] && s2[b] == s1[b]);
                        } else {
                            assert(s2[b] == (pos, element) && s2[a] == s1[a]);
                            if s1[a].0 == pos {
                                assert(has_element(s1, pos));
                            }
                        }
                    }
                    lemma_element_index_of(s2, m);
                    assert forall|q: GridTransform| q != pos
                        implies (has_element(s2, q) <==> has_element(s1, q))
                            && (has_element(s2, q) ==> element_at(s2, q) == element_at(s1, q)) by {
                        if has_element(s2, q) {
                            let j = element_index(s2, q);
                            assert(0 <= j < s2.len() && s2[j].0 == q);
                            assert(j != m);
                            assert(s2[j] == s1[j]);
                            lemma_element_index_of(s2, j);
                            lemma_element_index_of(s1, j);
                        }
                        if has_element(s1, q) {
                            let j = element_index(s1, q);
                            assert(s2[j] == s1[j]);
                            assert(has_element(s2, q));
                        }
                    }
                }
            },
        }
    }

    /// Index of the entry holding an element, if any.
    fn find_element(&self, element: u64) -> (r: Option<usize>)
        ensures
            match r {
                Some(i) => i < self.elements_index@.len()
                    && self.elements_index@[i as int].1 == element,
                None => forall|j: int| 0 <= j < self.elements_index@.len()
                    ==> (#[trigger] self.elements_index@[j]).1 != element,
            },
    {
        let n = self.elements_index.len();
        let mut i: usize = 0;
        while i < n
            invariant
                i <= n,
                n == self.elements_index@.len(),
                forall|j: int| 0 <= j < i ==> (#[trigger] self.elements_index@[j]).1 != element,
            decreases n - i,
        {
            if self.elements_index[i].1 == element {
                return Some(i);
            }
            i = i + 1;
        }
        None
    }

    /// Index of the entry at a position, if any.
    fn find_position(&self, pos: GridTransform) -> (r: Option<usize>)
        ensures
            match r {
                Some(i) => i < self.elements_index@.len()
                    && self.elements_index@[i as int].0 == pos,
                None => !has_element(self.elements_index@, pos),
            },
    {
        let n = self.elements_index.len();
        let mut i: usize = 0;
        while i < n
            invariant
                i <= n,
                n == self.elements_index@.len(),
                forall|j: int| 0 <= j < i ==> (#[trigger] self.elements_index@[j]).0 != pos,
            decreases n - i,
        {
            if self.elements_index[i].0 == pos {
                return Some(i);
            }
            i = i + 1;
        }
        None
    }

    /// Recomputes the bounds from the elements' positions: the empty box
    /// collapses to the origin.
    pub fn recompute_bounds(&mut self)
        requires
            old(self).wf(),
        ensures
            final(self).wf(),
            final(self).elements_index == old(self).elements_index,
            final(self).grid_bounds == bounds_of(old(self).elements_index@),
    {
        let n = self.elements_index.len();
        if n == 0 {
            self.grid_bounds = GridBounds::default();
            return;
        }
        let mut bounds = GridBounds::from_position(self.elements_index[0].0);
        let mut i: usize = 1;
        proof {
            assert(self.elements_index@.subrange(0, 1).drop_last()
                =~= Seq::<(GridTransform, u64)>::empty());
            assert(bounds == bounds_of(self.elements_index@.subrange(0, 1)));
        }
        while i < n
            invariant
                1 <= i <= n,
                n == self.elements_index@.len(),
                bounds == bounds_of(self.elements_index@.subrange(0, i as int)),
            decreases n - i,
        {
            proof {
                let pre = self.elements_index@.subrange(0, i as int);
                let cur = self.elements_index@.subrange(0, i + 1);
                assert(cur.drop_last() =~= pre);
                assert(cur.last() == self.elements_index@[i as int]);
            }
            bounds.add_position(self.elements_index[i].0);
            i = i + 1;
        }
        proof {
            assert(self.elements_index@.subrange(0, n as int) =~= self.elements_index@);
        }
        self.grid_bounds = bounds;
    }
}

/// The bounds spanned by element positions, built up entry by entry from
/// the first; no entries collapse to the origin.
pub open spec fn bounds_of(elems: Seq<(GridTransform, u64)>) -> GridBounds
    decreases elems.len(),
{
    if elems.len() == 0 {
        GridBounds { min_x: 0, max_x: 0, min_y: 0, max_y: 0 }
    } else if elems.len() == 1 {
        GridBounds { min_x: elems[0].0.x, max_x: elems[0].0.x, min_y: elems[0].0.y, max_y: elems[0].0.y }
    } else {
        let b = bounds_of(elems.drop_last());
        let pos = elems.last().0;
        GridBounds {
            min_x: if pos.x < b.min_x { pos.x } else { b.min_x },
            max_x: if pos.x > b.max_x { pos.x } else { b.max_x },
            min_y: if pos.y < b.min_y { pos.y } else { b.min_y },
            max_y: if pos.y > b.max_y { pos.y } else { b.max_y },
        }
    }
}

/// Whether the bounds stay clear of the coordinate extremes, so a cursor
/// inside them always has room to step.
pub open spec fn bounds_have_margin(bounds: GridBounds) -> bool {
    i16::MIN < bounds.min_x && bounds.max_x < i16::MAX && i16::MIN < bounds.min_y && bounds.max_y
        < i16::MAX
}

/// How many steps a seek from `pos` can still take before leaving the
/// bounds.
pub open spec fn cursor_measure(
    bounds: GridBounds,
    pos: GridTransform,
    movement: GridTransform,
) -> int {
    if bounds.spec_includes(pos) {
        1 + if movement == GridTransform::spec_east() {
            bounds.max_x - pos.x
        } else if movement == GridTransform::spec_west() {
            pos.x - bounds.min_x
        } else if movement == GridTransform::spec_north() {
            bounds.max_y - pos.y
        } else {
            pos.y - bounds.min_y
        }
    } else {
        0
    }
}

/// Where a seek from `pos` in direction `movement` comes to rest: the first
/// position holding an element, or nowhere if the seek leaves the bounds
/// first.
pub open spec fn cursor_scan(
    bounds: GridBounds,
    elems: Seq<(GridTransform, u64)>,
    pos: GridTransform,
    movement: GridTransform,
) -> Option<GridTransform>
    decreases cursor_measure(bounds, pos, movement)
        when movement.is_cardinal() && bounds_have_margin(bounds)
{
    if !bounds.spec_includes(pos) {
        None
    } else if has_element(elems, pos) {
        Some(pos)
    } else {
        cursor_scan(bounds, elems, pos.spec_add(movement), movement)
    }
}

/// Steps from `from` in direction `movement` until an element or the edge
/// of the bounds is met.
pub fn cursor_seek(menu_box: &MenuBox, from: GridTransform, movement: GridTransform) -> (r: Option<
    GridTransform,
>)
    requires
        menu_box.wf(),
        movement.is_cardinal(),
        bounds_have_margin(menu_box.grid_bounds),
    ensures
        r == cursor_scan(menu_box.grid_bounds, menu_box.elements_index@, from, movement),
        r matches Some(t) ==> menu_box.grid_bounds.spec_includes(t)
            && has_element(menu_box.elements_index@, t),
{
    let mut next_pos = from;
    while menu_box.grid_bounds.includes(next_pos) && menu_box.element_at(next_pos).is_none()
        invariant
            menu_box.wf(),
            movement.is_cardinal(),
            bounds_have_margin(menu_box.grid_bounds),
            cursor_scan(menu_box.grid_bounds, menu_box.elements_index@, from, movement)
                == cursor_scan(menu_box.grid_bounds, menu_box.elements_index@, next_pos, movement),
        decreases cursor_measure(menu_box.grid_bounds, next_pos, movement),
    {
        next_pos = next_pos.add(movement);
    }
    if menu_box.grid_bounds.includes(next_pos) {
        match menu_box.element_at(next_pos) {
            Some(_) => Some(next_pos),
            None => {
                proof {
                    assert(false);
                }
                None
            },
        }
    } else {
        None
    }
}

/// The cursor of a menu box.
#[derive(Clone, Copy, Debug, PartialEq, Eq, Structural)]
pub struct MenuCursor {
    pub menu_focus: u64,
    pub menu_grid_position: GridTransform,
}

/// The cursor position after one tick's control events, and whether any of
/// them moved it: each just-pressed movement control seeks from the current
/// position, and only a seek that lands on an element moves the cursor.
pub open spec fn cursor_after(
    bounds: GridBounds,
    elems: Seq<(GridTransform, u64)>,
    events: Seq<GameControlEvent>,
    pos: GridTransform,
) -> (GridTransform, bool)
    decreases events.len(),
{
    if events.len() == 0 {
        (pos, false)
    } else {
        let (p1, moved) = cursor_after(bounds, elems, events.drop_last(), pos);
        let ev = events.last();
        if ev.spec_just_pressed() && ev.spec_is_movement() {
            match spec_movement_direction(ev.control) {
                Some(d) => match cursor_scan(bounds, elems, p1.spec_add(d), d) {
                    Some(t) => (t, true),
                    None => (p1, moved),
                },
                None => (p1, moved),
            }
        } else {
            (p1, moved)
        }
    }
}

/// A position safely away from the coordinate extremes, so one step in any
/// direction stays representable.
pub open spec fn position_has_margin(pos: GridTransform) -> bool {
    i16::MIN < pos.x < i16::MAX && i16::MIN < pos.y < i16::MAX
}

/// Applies one tick's control events to the menu cursor: each just-pressed
/// movement control sends the cursor seeking in its direction, and a seek
/// that finds an element moves the cursor there and restarts the pacing
/// timer. The timer advances by the frame time first; it does not gate the
/// movement.
pub fn menu_move_control(
    menu_box: &MenuBox,
    cursor: &mut MenuCursor,
    cooldown: &mut MenuMovementCooldown,
    events: &Vec<GameControlEvent>,
    delta_ms: u32,
)
    requires
        menu_box.wf(),
        bounds_have_margin(menu_box.grid_bounds),
        position_has_margin(old(cursor).menu_grid_position),
        old(cooldown).0.wf(),
    ensures
        final(cursor).menu_focus == old(cursor).menu_focus,
        final(cursor).menu_grid_position == cursor_after(
            menu_box.grid_bounds,
            menu_box.elements_index@,
            events@,
            old(cursor).menu_grid_position,
        ).0,
        final(cooldown).0 == if cursor_after(
            menu_box.grid_bounds,
            menu_box.elements_index@,
            events@,
            old(cursor).menu_grid_position,
        ).1 {
            Cooldown { elapsed_ms: 0, duration_ms: old(cooldown).0.duration_ms }
        } else {
            old(cooldown).0.spec_ticked(delta_ms)
        },
        final(cooldown).0.wf(),
        position_has_margin(final(cursor).menu_grid_position),
{
    cooldown.0.tick(delta_ms);
    let mut moved = false;
    let n = events.len();
    let mut i: usize = 0;
    while i < n
        invariant
            menu_box.wf(),
            bounds_have_margin(menu_box.grid_bounds),
            i <= n,
            n == events@.len(),
            cursor.menu_focus == old(cursor).menu_focus,
            position_has_margin(cursor.menu_grid_position),
            (cursor.menu_grid_position, moved) == cursor_after(
                menu_box.grid_bounds,
                menu_box.elements_index@,
                events@.subrange(0, i as int),
                old(cursor).menu_grid_position,
            ),
            cooldown.0 == if moved {
                Cooldown { elapsed_ms: 0, duration_ms: old(cooldown).0.duration_ms }
            } else {
                old(cooldown).0.spec_ticked(delta_ms)
            },
            cooldown.0.wf(),
        decreases n - i,
    {
        proof {
            let pre = events@.subrange(0, i as int);
            let cur = events@.subrange(0, i + 1);
            assert(cur.drop_last() =~= pre);
            assert(cur.last() == events@[i as int]);
        }
        let ev = events[i];
        if ev.just_pressed() && ev.is_movement() {
            match movement_direction(ev.control) {
                Some(d) => {
                    let start = cursor.menu_grid_position.add(d);
                    match cursor_seek(menu_box, start, d) {
                        Some(t) => {
                            cursor.menu_grid_position = t;
                            cooldown.0.reset();
                            moved = true;
                        },
                        None => {},
                    }
                },
                None => {
                    proof {
                        assert(false);
                    }
                },
            }
        }
        i = i + 1;
    }
    proof {
        assert(events@.subrange(0, n as int) =~= events@);
    }
}

/// Whether a vector holds the entity `e`.
pub fn contains_entity(v: &Vec<u64>, e: u64) -> (r: bool)
    ensures
        r == v@.contains(e),
{
    let n = v.len();
    let mut i: usize = 0;
    while i < n
        invariant
            i <= n,
            n == v@.len(),
            forall|j: int| 0 <= j < i ==> v@[j] != e,
        decreases n - i,
    {
        if v[i] == e {
            return true;
        }
        i = i + 1;
    }
    proof {
        if v@.contains(e) {
            let j = choose|j: int| 0 <= j < v@.len() && v@[j] == e;
            assert(v@[j] != e);
        }
    }
    false
}

/// The trigger a just-pressed interact control fires in a menu: the element
/// under the cursor, provided it carries the menu-interact tag.
pub fn menu_interact_control(
    cursor_entity: u64,
    cursor_pos: GridTransform,
    menu_box: &MenuBox,
    tagged: &Vec<u64>,
    events: &Vec<GameControlEvent>,
) -> (r: Option<TriggerEvent>)
    requires
        menu_box.wf(),
    ensures
        r == if wants_interact(events@) && has_element(menu_box.elements_index@, cursor_pos)
            && tagged@.contains(element_at(menu_box.elements_index@, cursor_pos)) {
            Some(
                TriggerEvent {
                    triggering: cursor_entity,
                    triggered: element_at(menu_box.elements_index@, cursor_pos),
                },
            )
        } else {
            None::<TriggerEvent>
        },
{
    if !crate::control::select_interact(events) {
        return None;
    }
    match menu_box.element_at(cursor_pos) {
        Some(element) => {
            if contains_entity(tagged, element) {
                Some(TriggerEvent { triggering: cursor_entity, triggered: element })
            } else {
                None
            }
        },
        None => None,
    }
}

/// Whether any of the given trigger events set off one of the tagged
/// entities; map-exit and game-start content reacts this way.
pub fn any_triggered(events: &Vec<TriggerEvent>, tagged: &Vec<u64>) -> (r: bool)
    ensures
        r == exists|i: int| 0 <= i < events@.len()
            && tagged@.contains((#[trigger] events@[i]).triggered),
{
    let n = events.len();
    let mut i: usize = 0;
    while i < n
        invariant
            i <= n,
            n == events@.len(),
            forall|j: int| 0 <= j < i ==> !tagged@.contains((#[trigger] events@[j]).triggered),
        decreases n - i,
    {
        if contains_entity(tagged, events[i].triggered) {
            return true;
        }
        i = i + 1;
    }
    false
}

/// On a list with distinct positions, the element index of the position of
/// entry `i` is `i` itself.
proof fn lemma_element_index_of(elems: Seq<(GridTransform, u64)>, i: int)
    requires
        forall|a: int, b: int| 0 <= a < b < elems.len()
            ==> (#[trigger] elems[a]).0 != (#[trigger] elems[b]).0,
        0 <= i < elems.len(),
    ensures
        has_element(elems, elems[i].0),
        element_index(elems, elems[i].0) == i,
        element_at(elems, elems[i].0) == elems[i].1,
{
    assert(has_element(elems, elems[i].0));
    let j = element_index(elems, elems[i].0);
    if i < j {
        assert(elems[i].0 != elems[j].0);
    } else if j < i {
        assert(elems[j].0 != elems[i].0);
    }
}

} // verus!
