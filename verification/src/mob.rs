//! Movement and interaction resolution for grid-bound mobs.
//!
//! A movement intent is resolved in one step: the mob turns to face the
//! requested direction whether or not it can move (spin-in-place), the step
//! is rejected if any occupant of the destination blocks walking, and an
//! accepted step updates position, last position, cooldown and the spatial
//! index together and reports one trigger event per occupant of the
//! destination that reacts to being stepped on. An interact intent reaches
//! one tile ahead of the mob's facing and reports one trigger event per
//! occupant there that reacts to interaction. Both are gated by the same
//! movement cooldown; a gated intent is dropped without any effect.

use vstd::prelude::*;
use crate::cooldown::Cooldown;
use crate::grid_transform::GridTransform;
use crate::world::{GridDirection, GridPosition, GridWorld, LastGridPosition, Mob};

verus! {

/// A request that a mob step one tile in a cardinal direction. A zero
/// movement (the entrance step of a spawn entered at its center) resolves
/// like any other: onto the mob's own tile.
#[derive(Clone, Copy, Debug, PartialEq, Eq, Structural)]
pub struct MobMoveEvent {
    pub entity: u64,
    pub movement: GridTransform,
}

/// A request that a mob interact with whatever it faces.
#[derive(Clone, Copy, Debug, PartialEq, Eq, Structural)]
pub struct MobInteractEvent {
    pub entity: u64,
}

/// Entity `moved` stepped onto the tile of entity `triggered`.
#[derive(Clone, Copy, Debug, PartialEq, Eq, Structural)]
pub struct TriggerOnMoveOntoEvent {
    pub moved: u64,
    pub triggered: u64,
}

/// Entity `triggering` set off entity `triggered`.
#[derive(Clone, Copy, Debug, PartialEq, Eq, Structural)]
pub struct TriggerEvent {
    pub triggering: u64,
    pub triggered: u64,
}

/// Which animation frame a mob shows; stored with the mob, read only by the
/// display layer.
#[derive(Clone, Copy, Debug, PartialEq, Eq, Structural)]
pub struct AnimationIndex {
    pub current: u16,
    pub max: u16,
    pub move_only: bool,
}

impl AnimationIndex {
    pub fn new(max: u16, move_only: bool) -> (r: Self)
        ensures
            r == (AnimationIndex { current: 0, max, move_only }),
    {
        AnimationIndex { current: 0, max, move_only }
    }
}

impl Default for AnimationIndex {
    fn default() -> (r: Self)
        ensures
            r == (AnimationIndex { current: 0, max: 4, move_only: true }),
    {
        AnimationIndex { current: 0, max: 4, move_only: true }
    }
}

/// How many of the given events name `x` as the triggered entity.
pub open spec fn count_move_events_for(events: Seq<TriggerOnMoveOntoEvent>, x: u64) -> int
    decreases events.len(),
{
    if events.len() == 0 {
        0
    } else {
        count_move_events_for(events.drop_last(), x)
            + if events.last().triggered == x { 1int } else { 0int }
    }
}

impl GridWorld {
    /// The move-onto trigger events for `moved` arriving among the given
    /// occupants: one per occupant carrying the tag, in occupant order.
    pub open spec fn move_trigger_events(
        self,
        moved: u64,
        occupants: Seq<u64>,
    ) -> Seq<TriggerOnMoveOntoEvent>
        decreases occupants.len(),
    {
        if occupants.len() == 0 {
            Seq::empty()
        } else {
            let rest = self.move_trigger_events(moved, occupants.drop_last());
            if self.triggers_on_move_onto(occupants.last()) {
                rest.push(TriggerOnMoveOntoEvent { moved, triggered: occupants.last() })
            } else {
                rest
            }
        }
    }

    /// The move-onto trigger events a mob arriving on tile `p` sets off.
    pub open spec fn move_events_at(self, moved: u64, p: GridTransform) -> Seq<
        TriggerOnMoveOntoEvent,
    > {
        self.move_trigger_events(moved, self.index.occupants(p))
    }

    /// The interact trigger events for `triggering` reaching the given
    /// occupants: one per occupant carrying the tag, in occupant order.
    pub open spec fn interact_trigger_events(
        self,
        triggering: u64,
        occupants: Seq<u64>,
    ) -> Seq<TriggerEvent>
        decreases occupants.len(),
    {
        if occupants.len() == 0 {
            Seq::empty()
        } else {
            let rest = self.interact_trigger_events(triggering, occupants.drop_last());
            if self.triggers_on_interact(occupants.last()) {
                rest.push(TriggerEvent { triggering, triggered: occupants.last() })
            } else {
                rest
            }
        }
    }

    /// The interact trigger events a mob sets off on the tile it faces.
    pub open spec fn interact_events_at(self, triggering: u64) -> Seq<TriggerEvent>
        recommends
            self.has_mob(triggering),
    {
        self.interact_trigger_events(
            triggering,
            self.index.occupants(self.interact_tile(triggering)),
        )
    }

    /// Whether any of the given occupants blocks walking.
    fn any_blocks_walking(&self, occupants: &Vec<u64>) -> (r: bool)
        requires
            self.wf(),
        ensures
            r == exists|i: int| 0 <= i < occupants@.len()
                && self.blocks_walking(#[trigger] occupants@[i]),
    {
        let n = occupants.len();
        let mut i: usize = 0;
        while i < n
            invariant
                self.wf(),
                i <= n,
                n == occupants@.len(),
                forall|j: int| 0 <= j < i ==> !self.blocks_walking(#[trigger] occupants@[j]),
            decreases n - i,
        {
            if self.is_blocker(occupants[i]) {
                return true;
            }
            i = i + 1;
        }
        false
    }

    /// Collects the move-onto trigger events among the given occupants.
    fn collect_move_triggers(&self, moved: u64, occupants: &Vec<u64>) -> (r: Vec<
        TriggerOnMoveOntoEvent,
    >)
        requires
            self.wf(),
        ensures
            r@ == self.move_trigger_events(moved, occupants@),
    {
        let n = occupants.len();
        let mut r: Vec<TriggerOnMoveOntoEvent> = Vec::new();
        let mut i: usize = 0;
        while i < n
            invariant
                self.wf(),
                i <= n,
                n == occupants@.len(),
                r@ == self.move_trigger_events(moved, occupants@.subrange(0, i as int)),
            decreases n - i,
        {
            proof {
                let pre = occupants@.subrange(0, i as int);
                let cur = occupants@.subrange(0, i + 1);
                assert(cur.drop_last() =~= pre);
                assert(cur.last() == occupants@[i as int]);
            }
            if self.is_move_trigger(occupants[i]) {
                r.push(TriggerOnMoveOntoEvent { moved, triggered: occupants[i] });
            }
            i = i + 1;
        }
        proof {
            assert(occupants@.subrange(0, n as int) =~= occupants@);
        }
        r
    }

    /// Collects the interact trigger events among the given occupants.
    fn collect_interact_triggers(&self, triggering: u64, occupants: &Vec<u64>) -> (r: Vec<
        TriggerEvent,
    >)
        requires
            self.wf(),
        ensures
            r@ == self.interact_trigger_events(triggering, occupants@),
    {
        let n = occupants.len();
        let mut r: Vec<TriggerEvent> = Vec::new();
        let mut i: usize = 0;
        while i < n
            invariant
                self.wf(),
                i <= n,
                n == occupants@.len(),
                r@ == self.interact_trigger_events(triggering, occupants@.subrange(0, i as int)),
            decreases n - i,
        {
            proof {
                let pre = occupants@.subrange(0, i as int);
                let cur = occupants@.subrange(0, i + 1);
                assert(cur.drop_last() =~= pre);
                assert(cur.last() == occupants@[i as int]);
            }
            if self.is_interact_trigger(occupants[i]) {
                r.push(TriggerEvent { triggering, triggered: occupants[i] });
            }
            i = i + 1;
        }
        proof {
            assert(occupants@.subrange(0, n as int) =~= occupants@);
        }
        r
    }

    /// Resolves one movement intent.
    ///
    /// An intent for an entity without a mob record, or whose cooldown has
    /// not finished, is dropped without any effect — in particular it never
    /// moves the mob and never resets the cooldown. Otherwise the mob always
    /// turns to face the requested direction; if any occupant of the
    /// destination blocks walking the step is rejected with position, last
    /// position and cooldown untouched, and a later interact resolves one
    /// tile ahead along the new facing. An accepted step records the old
    /// position as last position, moves the mob, resets its cooldown,
    /// re-records it in the spatial index, and reports the move-onto trigger
    /// events of the destination's occupants.
    pub fn resolve_move(&mut self, event: MobMoveEvent) -> (trigger_events: Vec<
        TriggerOnMoveOntoEvent,
    >)
        requires
            old(self).wf(),
            event.movement.is_cardinal() || event.movement == GridTransform::spec_zero(),
            old(self).has_mob(event.entity) ==> {
                let p = old(self).mob_of(event.entity).position.0;
                &&& i16::MIN <= p.x + event.movement.x <= i16::MAX
                &&& i16::MIN <= p.y + event.movement.y <= i16::MAX
            },
        ensures
            final(self).wf(),
            final(self).tiles == old(self).tiles,
            final(self).watchers == old(self).watchers,
            forall|x: u64| final(self).has_mob(x) == old(self).has_mob(x),
            !old(self).has_mob(event.entity) ==> final(self).mobs == old(self).mobs
                && final(self).index == old(self).index
                && trigger_events@ == Seq::<TriggerOnMoveOntoEvent>::empty(),
            old(self).has_mob(event.entity)
                && !old(self).mob_of(event.entity).cooldown.0.finished()
                ==> final(self).mobs == old(self).mobs
                    && final(self).index == old(self).index
                    && trigger_events@ == Seq::<TriggerOnMoveOntoEvent>::empty(),
            old(self).has_mob(event.entity)
                && old(self).mob_of(event.entity).cooldown.0.finished() ==> {
                let m0 = old(self).mob_of(event.entity);
                let dest = m0.position.0.spec_add(event.movement);
                &&& final(self).mob_of(event.entity).entity == event.entity
                &&& final(self).mob_of(event.entity).facing.0 == event.movement
                &&& forall|x: u64| x != event.entity && old(self).has_mob(x)
                    ==> final(self).mob_of(x) == old(self).mob_of(x)
                &&& if old(self).blocked_at(dest) {
                    &&& final(self).mob_of(event.entity).position == m0.position
                    &&& final(self).mob_of(event.entity).last_position == m0.last_position
                    &&& final(self).mob_of(event.entity).cooldown == m0.cooldown
                    &&& final(self).index == old(self).index
                    &&& trigger_events@ == Seq::<TriggerOnMoveOntoEvent>::empty()
                    &&& final(self).interact_tile(event.entity) == dest
                } else {
                    &&& final(self).mob_of(event.entity).position.0 == dest
                    &&& final(self).mob_of(event.entity).last_position.0 == m0.position.0
                    &&& final(self).mob_of(event.entity).cooldown.0 == (Cooldown {
                        elapsed_ms: 0,
                        duration_ms: m0.cooldown.0.duration_ms,
                    })
                    &&& final(self).index@ == old(self).index@.insert(event.entity, dest)
                    &&& trigger_events@ == old(self).move_events_at(event.entity, dest)
                }
            },
    {
        let mi = match self.find_mob(event.entity) {
            Some(mi) => mi,
            None => {
                return Vec::new();
            },
        };
        proof {
            self.lemma_mob_index_of(mi as int);
        }
        let m0 = self.mobs[mi];
        if !m0.cooldown.0.finished() {
            return Vec::new();
        }
        let dest = m0.position.0.add(event.movement);
        let occupants = self.index.get(dest);
        let ghost w0 = *self;
        if self.any_blocks_walking(&occupants) {
            self.mobs[mi] = Mob { facing: GridDirection(event.movement), ..m0 };
            proof {
                self.lemma_mob_index_of(mi as int);
                lemma_mobs_update_frame(w0, *self, mi as int);
                assert(w0.blocked_at(dest));
            }
            return Vec::new();
        }
        let trigger_events = self.collect_move_triggers(event.entity, &occupants);
        let m1 = Mob {
            entity: m0.entity,
            position: GridPosition(dest),
            last_position: LastGridPosition(m0.position.0),
            facing: GridDirection(event.movement),
            cooldown: crate::cooldown::MovementCooldown(
                Cooldown { elapsed_ms: 0, duration_ms: m0.cooldown.0.duration_ms },
            ),
        };
        self.mobs[mi] = m1;
        proof {
            assert(!w0.blocked_at(dest));
        }
        self.index.update(event.entity, dest);
        proof {
            self.lemma_mob_index_of(mi as int);
            lemma_mobs_update_frame(w0, *self, mi as int);
            assert forall|i: int| 0 <= i < self.mobs@.len() implies {
                &&& self.index@.dom().contains((#[trigger] self.mobs@[i]).entity)
                &&& self.index@[self.mobs@[i].entity] == self.mobs@[i].position.0
            } by {
                if i != mi {
                    assert(self.mobs@[i] == w0.mobs@[i]);
                    assert(w0.mobs@[i].entity != event.entity) by {
                        if i < mi {
                            assert(w0.mobs@[i].entity != w0.mobs@[mi as int].entity);
                        } else {
                            assert(w0.mobs@[mi as int].entity != w0.mobs@[i].entity);
                        }
                    }
                }
            }
        }
        trigger_events
    }

    /// Advances every mob's movement cooldown by the elapsed frame time.
    /// This runs once per resolution pass, after intent processing, so a
    /// cooldown finishing becomes visible only on a later pass.
    pub fn tick_cooldowns(&mut self, delta_ms: u32)
        requires
            old(self).wf(),
        ensures
            final(self).wf(),
            final(self).index == old(self).index,
            final(self).tiles == old(self).tiles,
            final(self).watchers == old(self).watchers,
            final(self).mobs@.len() == old(self).mobs@.len(),
            forall|i: int| 0 <= i < old(self).mobs@.len()
                ==> (#[trigger] final(self).mobs@[i]) == (Mob {
                    cooldown: crate::cooldown::MovementCooldown(
                        old(self).mobs@[i].cooldown.0.spec_ticked(delta_ms),
                    ),
                    ..old(self).mobs@[i]
                }),
    {
        let n = self.mobs.len();
        let mut i: usize = 0;
        while i < n
            invariant
                old(self).wf(),
                i <= n,
                n == self.mobs@.len(),
                n == old(self).mobs@.len(),
                self.index == old(self).index,
                self.tiles == old(self).tiles,
                self.watchers == old(self).watchers,
                forall|j: int| i <= j < n
                    ==> (#[trigger] self.mobs@[j]) == old(self).mobs@[j],
                forall|j: int| 0 <= j < i
                    ==> (#[trigger] self.mobs@[j]) == (Mob {
                        cooldown: crate::cooldown::MovementCooldown(
                            old(self).mobs@[j].cooldown.0.spec_ticked(delta_ms),
                        ),
                        ..old(self).mobs@[j]
                    }),
            decreases n - i,
        {
            let mut m = self.mobs[i];
            m.cooldown.0.tick(delta_ms);
            self.mobs[i] = m;
            i = i + 1;
        }
        proof {
            assert forall|a: int, b: int| 0 <= a < b < self.mobs@.len()
                implies (#[trigger] self.mobs@[a]).entity
                    != (#[trigger] self.mobs@[b]).entity by {
                assert(self.mobs@[a].entity == old(self).mobs@[a].entity);
                assert(self.mobs@[b].entity == old(self).mobs@[b].entity);
            }
            assert forall|a: int| 0 <= a < self.mobs@.len() implies {
                &&& (#[trigger] self.mobs@[a]).cooldown.0.wf()
                &&& self.index@.dom().contains(self.mobs@[a].entity)
                &&& self.index@[self.mobs@[a].entity] == self.mobs@[a].position.0
            } by {
                assert(self.mobs@[a].entity == old(self).mobs@[a].entity);
                assert(self.mobs@[a].position == old(self).mobs@[a].position);
            }
        }
    }

    /// Resolves one interact intent. An intent for an entity without a mob
    /// record, or whose cooldown has not finished, yields nothing; otherwise
    /// it yields the interact trigger events of the occupants of the tile
    /// one step ahead of the mob's facing. Nothing in the world changes.
    pub fn resolve_interact(&self, event: MobInteractEvent) -> (trigger_events: Vec<TriggerEvent>)
        requires
            self.wf(),
            self.has_mob(event.entity) ==> {
                let m = self.mob_of(event.entity);
                &&& i16::MIN <= m.position.0.x + m.facing.0.x <= i16::MAX
                &&& i16::MIN <= m.position.0.y + m.facing.0.y <= i16::MAX
            },
        ensures
            !self.has_mob(event.entity)
                ==> trigger_events@ == Seq::<TriggerEvent>::empty(),
            self.has_mob(event.entity) && !self.mob_of(event.entity).cooldown.0.finished()
                ==> trigger_events@ == Seq::<TriggerEvent>::empty(),
            self.has_mob(event.entity) && self.mob_of(event.entity).cooldown.0.finished()
                ==> trigger_events@ == self.interact_events_at(event.entity),
    {
        let mi = match self.find_mob(event.entity) {
            Some(mi) => mi,
            None => {
                return Vec::new();
            },
        };
        proof {
            self.lemma_mob_index_of(mi as int);
        }
        let m = self.mobs[mi];
        if !m.cooldown.0.finished() {
            return Vec::new();
        }
        let target = m.position.0.add(m.facing.0);
        let occupants = self.index.get(target);
        self.collect_interact_triggers(event.entity, &occupants)
    }
}

/// Two worlds differing in one mob record agree on every tag-derived spec
/// and on which entities have mobs.
pub(crate) proof fn lemma_mobs_update_frame(w0: GridWorld, w1: GridWorld, mi: int)
    requires
        0 <= mi < w0.mobs@.len(),
        w1.mobs@.len() == w0.mobs@.len(),
        w1.mobs@[mi].entity == w0.mobs@[mi].entity,
        forall|i: int| 0 <= i < w0.mobs@.len() && i != mi
            ==> (#[trigger] w1.mobs@[i]) == w0.mobs@[i],
        forall|a: int, b: int| 0 <= a < b < w0.mobs@.len()
            ==> (#[trigger] w0.mobs@[a]).entity != (#[trigger] w0.mobs@[b]).entity,
    ensures
        forall|x: u64| w1.has_mob(x) == w0.has_mob(x),
        forall|a: int, b: int| 0 <= a < b < w1.mobs@.len()
            ==> (#[trigger] w1.mobs@[a]).entity != (#[trigger] w1.mobs@[b]).entity,
        forall|x: u64| x != w0.mobs@[mi].entity && w0.has_mob(x)
            ==> w1.mob_of(x) == w0.mob_of(x),
{
    assert forall|a: int, b: int| 0 <= a < b < w1.mobs@.len()
        implies (#[trigger] w1.mobs@[a]).entity != (#[trigger] w1.mobs@[b]).entity by {
        assert(w1.mobs@[a].entity == w0.mobs@[a].entity);
        assert(w1.mobs@[b].entity == w0.mobs@[b].entity);
    }
    assert forall|x: u64| w1.has_mob(x) == w0.has_mob(x) by {
        if w0.has_mob(x) {
            let i = choose|i: int| 0 <= i < w0.mobs@.len() && (#[trigger] w0.mobs@[i]).entity == x;
            assert(w1.mobs@[i].entity == x);
        }
        if w1.has_mob(x) {
            let i = choose|i: int| 0 <= i < w1.mobs@.len() && (#[trigger] w1.mobs@[i]).entity == x;
            assert(w0.mobs@[i].entity == x);
        }
    }
    assert forall|x: u64| x != w0.mobs@[mi].entity && w0.has_mob(x)
        implies w1.mob_of(x) == w0.mob_of(x) by {
        let i = w0.mob_index(x);
        assert(0 <= i < w0.mobs@.len() && w0.mobs@[i].entity == x);
        assert(i != mi);
        assert(w1.mobs@[i] == w0.mobs@[i]);
        w1.lemma_mob_index_of(i);
        w0.lemma_mob_index_of(i);
    }
}

/// What the move trigger events hold: every event names the arriving mob and
/// a tagged occupant.
pub proof fn lemma_move_trigger_event_fields(w: GridWorld, moved: u64, occupants: Seq<u64>)
    ensures
        forall|i: int| 0 <= i < w.move_trigger_events(moved, occupants).len() ==> {
            let ev = #[trigger] w.move_trigger_events(moved, occupants)[i];
            &&& ev.moved == moved
            &&& occupants.contains(ev.triggered)
            &&& w.triggers_on_move_onto(ev.triggered)
        },
    decreases occupants.len(),
{
    if occupants.len() > 0 {
        let front = occupants.drop_last();
        lemma_move_trigger_event_fields(w, moved, front);
        let events = w.move_trigger_events(moved, occupants);
        let front_events = w.move_trigger_events(moved, front);
        assert forall|i: int| 0 <= i < events.len() implies {
            let ev = #[trigger] events[i];
            &&& ev.moved == moved
            &&& occupants.contains(ev.triggered)
            &&& w.triggers_on_move_onto(ev.triggered)
        } by {
            if w.triggers_on_move_onto(occupants.last()) {
                assert(events == front_events.push(
                    TriggerOnMoveOntoEvent { moved, triggered: occupants.last() },
                ));
                if i < front_events.len() {
                    assert(events[i] == front_events[i]);
                    let x = front_events[i].triggered;
                    assert(front.contains(x));
                    let j = choose|j: int| 0 <= j < front.len() && front[j] == x;
                    assert(occupants[j] == x);
                } else {
                    assert(events[i]
                        == (TriggerOnMoveOntoEvent { moved, triggered: occupants.last() }));
                    assert(occupants[occupants.len() - 1] == occupants.last());
                }
            } else {
                assert(events == front_events);
                let x = front_events[i].triggered;
                assert(front.contains(x));
                let j = choose|j: int| 0 <= j < front.len() && front[j] == x;
                assert(occupants[j] == x);
            }
        }
    }
}

/// A duplicate-free occupant list sets off each tagged occupant exactly
/// once, and an untagged or absent entity never.
pub proof fn lemma_move_trigger_events_count(
    w: GridWorld,
    moved: u64,
    occupants: Seq<u64>,
    x: u64,
)
    requires
        occupants.no_duplicates(),
    ensures
        count_move_events_for(w.move_trigger_events(moved, occupants), x)
            == if occupants.contains(x) && w.triggers_on_move_onto(x) { 1int } else { 0int },
    decreases occupants.len(),
{
    if occupants.len() == 0 {
        assert(!occupants.contains(x));
    } else {
        let front = occupants.drop_last();
        let last = occupants.last();
        assert(front.no_duplicates());
        lemma_move_trigger_events_count(w, moved, front, x);
        let events = w.move_trigger_events(moved, occupants);
        let front_events = w.move_trigger_events(moved, front);
        if w.triggers_on_move_onto(last) {
            assert(events == front_events.push(
                TriggerOnMoveOntoEvent { moved, triggered: last },
            ));
            assert(events.drop_last() =~= front_events);
        } else {
            assert(events == front_events);
        }
        if x == last {
            assert(occupants.contains(x)) by {
                assert(occupants[occupants.len() - 1] == x);
            }
            assert(!front.contains(x)) by {
                if front.contains(x) {
                    let i = choose|i: int| 0 <= i < front.len() && front[i] == x;
                    assert(occupants[i] == occupants[occupants.len() - 1]);
                }
            }
        } else {
            assert(front.contains(x) == occupants.contains(x)) by {
                if occupants.contains(x) {
                    let i = choose|i: int| 0 <= i < occupants.len() && occupants[i] == x;
                    assert(i != occupants.len() - 1);
                    assert(front[i] == x);
                }
                if front.contains(x) {
                    let i = choose|i: int| 0 <= i < front.len() && front[i] == x;
                    assert(occupants[i] == x);
                }
            }
        }
    }
}

/// Move acceptance emits exactly one trigger event per occupant of the
/// destination that carries the move-onto tag, and zero events naming any
/// other entity.
pub proof fn lemma_move_acceptance_triggers(w: GridWorld, moved: u64, dest: GridTransform)
    requires
        w.wf(),
    ensures
        forall|x: u64| #[trigger] count_move_events_for(w.move_events_at(moved, dest), x)
            == if w.index.occupants(dest).contains(x) && w.triggers_on_move_onto(x) {
                1int
            } else {
                0int
            },
        forall|i: int| 0 <= i < w.move_events_at(moved, dest).len()
            ==> (#[trigger] w.move_events_at(moved, dest)[i]).moved == moved,
{
    w.index.lemma_occupants_characterization(dest);
    lemma_move_trigger_event_fields(w, moved, w.index.occupants(dest));
    assert forall|x: u64| #[trigger] count_move_events_for(w.move_events_at(moved, dest), x)
        == if w.index.occupants(dest).contains(x) && w.triggers_on_move_onto(x) {
            1int
        } else {
            0int
        } by {
        lemma_move_trigger_events_count(w, moved, w.index.occupants(dest), x);
    }
}

/// Spin-in-place: after a rejected move the mob still faces the requested
/// direction, so a subsequent interact reaches the tile the rejected step
/// aimed at — the new facing, not the old one.
pub proof fn lemma_spin_in_place(w0: GridWorld, w1: GridWorld, e: u64, d: GridTransform)
    requires
        w0.wf(),
        w0.has_mob(e),
        w0.mob_of(e).cooldown.0.finished(),
        w0.blocked_at(w0.mob_of(e).position.0.spec_add(d)),
        w1.has_mob(e),
        w1.mob_of(e).position == w0.mob_of(e).position,
        w1.mob_of(e).facing.0 == d,
    ensures
        w1.interact_tile(e) == w0.mob_of(e).position.0.spec_add(d),
{
}

} // verus!
