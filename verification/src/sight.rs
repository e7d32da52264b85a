//! Line-of-sight scanning: watchers spot a target along their facing
//! direction.
//!
//! Each tick, every watcher whose sight cooldown has finished scans outward
//! from its position, one tile at a time up to a fixed range. On each tile
//! all occupants are inspected: any occupant that blocks sight ends the scan
//! blind — even when the target stands on the same tile — while the target
//! on a tile free of sight blockers ends it with a detection, which resets
//! the watcher's cooldown and emits a trigger event. Scanning itself is not
//! gated — only re-triggering after a detection is.

use vstd::prelude::*;
use crate::cooldown::{Cooldown, SightTriggerCooldown};
use crate::grid_transform::GridTransform;
use crate::mob::TriggerEvent;
use crate::world::{GridWorld, SightWatcher};

verus! {

/// How many tiles outward a watcher can see.
pub const SIGHT_RANGE: u16 = 16;

/// What inspecting one tile's occupants tells the scan.
#[derive(Clone, Copy, Debug, PartialEq, Eq, Structural)]
pub enum TileSight {
    /// Some occupant blocks sight: the scan stops blind, whether or not the
    /// target stands here too.
    Occluded,
    /// The target stands here and nothing blocks sight: detection.
    Target,
    /// Nothing decisive: the scan moves outward.
    Clear,
}

/// The tile `step` tiles from `origin` along `dir`.
pub open spec fn ray_tile(origin: GridTransform, dir: GridTransform, step: int) -> GridTransform {
    GridTransform { x: (origin.x + dir.x * step) as i16, y: (origin.y + dir.y * step) as i16 }
}

/// A cardinal ray of at most `SIGHT_RANGE` steps stays within coordinate
/// bounds whenever its far end does.
proof fn lemma_cardinal_ray_bounds(origin: GridTransform, dir: GridTransform, s: int)
    requires
        dir.is_cardinal(),
        1 <= s <= SIGHT_RANGE,
        i16::MIN <= origin.x + dir.x * (SIGHT_RANGE as int) <= i16::MAX,
        i16::MIN <= origin.y + dir.y * (SIGHT_RANGE as int) <= i16::MAX,
    ensures
        i16::MIN <= dir.x * s <= i16::MAX,
        i16::MIN <= dir.y * s <= i16::MAX,
        i16::MIN <= origin.x + dir.x * s <= i16::MAX,
        i16::MIN <= origin.y + dir.y * s <= i16::MAX,
{
    assert(dir.x == 0 ==> dir.x * s == 0) by (nonlinear_arith);
    assert(dir.x == 1 ==> dir.x * s == s) by (nonlinear_arith);
    assert(dir.x == -1 ==> dir.x * s == -s) by (nonlinear_arith);
    assert(dir.y == 0 ==> dir.y * s == 0) by (nonlinear_arith);
    assert(dir.y == 1 ==> dir.y * s == s) by (nonlinear_arith);
    assert(dir.y == -1 ==> dir.y * s == -s) by (nonlinear_arith);
    assert(dir.x == 0 ==> dir.x * (SIGHT_RANGE as int) == 0) by (nonlinear_arith);
    assert(dir.x == 1 ==> dir.x * (SIGHT_RANGE as int) == SIGHT_RANGE as int)
        by (nonlinear_arith);
    assert(dir.x == -1 ==> dir.x * (SIGHT_RANGE as int) == -(SIGHT_RANGE as int))
        by (nonlinear_arith);
    assert(dir.y == 0 ==> dir.y * (SIGHT_RANGE as int) == 0) by (nonlinear_arith);
    assert(dir.y == 1 ==> dir.y * (SIGHT_RANGE as int) == SIGHT_RANGE as int)
        by (nonlinear_arith);
    assert(dir.y == -1 ==> dir.y * (SIGHT_RANGE as int) == -(SIGHT_RANGE as int))
        by (nonlinear_arith);
}

/// How many of the given events name `x` as the triggered entity.
pub open spec fn count_sight_events_for(events: Seq<TriggerEvent>, x: u64) -> int
    decreases events.len(),
{
    if events.len() == 0 {
        0
    } else {
        count_sight_events_for(events.drop_last(), x)
            + if events.last().triggered == x { 1int } else { 0int }
    }
}

impl GridWorld {
    /// Whether one watcher detects the target this pass: its ticked cooldown
    /// has finished and its ray reaches the target.
    pub open spec fn watcher_detects(self, w: SightWatcher, target: u64, delta_ms: u32) -> bool {
        w.cooldown.0.spec_ticked(delta_ms).finished() && self.sees_target(
            w.position,
            w.facing,
            target,
        )
    }

    /// What scanning one tile's occupants yields. A sight blocker among them
    /// takes priority over the target: the two on the same tile mean the
    /// tile occludes.
    pub open spec fn tile_scan(self, occupants: Seq<u64>, target: u64) -> TileSight {
        if exists|j: int| 0 <= j < occupants.len() && self.blocks_sight(#[trigger] occupants[j]) {
            TileSight::Occluded
        } else if occupants.contains(target) {
            TileSight::Target
        } else {
            TileSight::Clear
        }
    }

    /// Whether some occupant of tile `p` blocks sight.
    pub open spec fn sight_blocked_at(self, p: GridTransform) -> bool {
        exists|i: int| 0 <= i < self.index.occupants(p).len()
            && self.blocks_sight(#[trigger] self.index.occupants(p)[i])
    }

    /// Whether a scan outward from `origin` along `dir`, beginning at
    /// `step`, detects the target within range.
    pub open spec fn sight_scan_from(
        self,
        origin: GridTransform,
        dir: GridTransform,
        target: u64,
        step: int,
    ) -> bool
        recommends
            1 <= step,
        decreases SIGHT_RANGE as int + 1 - step,
    {
        if step > SIGHT_RANGE as int {
            false
        } else {
            match self.tile_scan(self.index.occupants(ray_tile(origin, dir, step)), target) {
                TileSight::Occluded => false,
                TileSight::Target => true,
                TileSight::Clear => self.sight_scan_from(origin, dir, target, step + 1),
            }
        }
    }

    /// Whether a watcher at `origin` facing `dir` sees the target.
    pub open spec fn sees_target(
        self,
        origin: GridTransform,
        dir: GridTransform,
        target: u64,
    ) -> bool {
        self.sight_scan_from(origin, dir, target, 1)
    }

    /// The detection events of one pass over the given watchers: one per
    /// watcher whose ticked cooldown has finished and who sees the target,
    /// in watcher order.
    pub open spec fn sight_events(
        self,
        watchers: Seq<SightWatcher>,
        target: u64,
        delta_ms: u32,
    ) -> Seq<TriggerEvent>
        decreases watchers.len(),
    {
        if watchers.len() == 0 {
            Seq::empty()
        } else {
            let rest = self.sight_events(watchers.drop_last(), target, delta_ms);
            let w = watchers.last();
            if self.watcher_detects(w, target, delta_ms) {
                rest.push(TriggerEvent { triggering: target, triggered: w.entity })
            } else {
                rest
            }
        }
    }

    /// Inspects one tile's occupants: all of them for a sight blocker first,
    /// then for the target.
    fn scan_tile(&self, occupants: &Vec<u64>, target: u64) -> (r: TileSight)
        requires
            self.wf(),
        ensures
            r == self.tile_scan(occupants@, target),
    {
        let n = occupants.len();
        let mut i: usize = 0;
        while i < n
            invariant
                self.wf(),
                i <= n,
                n == occupants@.len(),
                forall|j: int| 0 <= j < i ==> !self.blocks_sight(#[trigger] occupants@[j]),
            decreases n - i,
        {
            if self.is_sight_blocker(occupants[i]) {
                return TileSight::Occluded;
            }
            i = i + 1;
        }
        let mut k: usize = 0;
        while k < n
            invariant
                self.wf(),
                k <= n,
                n == occupants@.len(),
                forall|j: int| 0 <= j < n ==> !self.blocks_sight(#[trigger] occupants@[j]),
                forall|j: int| 0 <= j < k ==> occupants@[j] != target,
            decreases n - k,
        {
            if occupants[k] == target {
                return TileSight::Target;
            }
            k = k + 1;
        }
        proof {
            if occupants@.contains(target) {
                let j = choose|j: int| 0 <= j < occupants@.len() && occupants@[j] == target;
                assert(occupants@[j] != target);
            }
        }
        TileSight::Clear
    }

    /// Scans outward from `origin` along `dir` for the target.
    fn scan_ray(&self, origin: GridTransform, dir: GridTransform, target: u64) -> (r: bool)
        requires
            self.wf(),
            dir.is_cardinal(),
            i16::MIN <= origin.x + dir.x * (SIGHT_RANGE as int) <= i16::MAX,
            i16::MIN <= origin.y + dir.y * (SIGHT_RANGE as int) <= i16::MAX,
        ensures
            r == self.sees_target(origin, dir, target),
    {
        let mut step: u16 = 1;
        while step <= SIGHT_RANGE
            invariant
                self.wf(),
                dir.is_cardinal(),
                i16::MIN <= origin.x + dir.x * (SIGHT_RANGE as int) <= i16::MAX,
                i16::MIN <= origin.y + dir.y * (SIGHT_RANGE as int) <= i16::MAX,
                1 <= step <= SIGHT_RANGE + 1,
                self.sees_target(origin, dir, target)
                    == self.sight_scan_from(origin, dir, target, step as int),
            decreases SIGHT_RANGE + 1 - step,
        {
            proof {
                lemma_cardinal_ray_bounds(origin, dir, step as int);
            }
            let offset = dir.mult(step as i16);
            let check_pos = origin.add(offset);
            proof {
                assert(check_pos == ray_tile(origin, dir, step as int));
            }
            let occupants = self.index.get(check_pos);
            match self.scan_tile(&occupants, target) {
                TileSight::Occluded => {
                    return false;
                },
                TileSight::Target => {
                    return true;
                },
                TileSight::Clear => {},
            }
            step = step + 1;
        }
        false
    }

    /// One line-of-sight pass: ticks every watcher's sight cooldown, lets
    /// each watcher whose cooldown has finished scan for the target, resets
    /// the cooldown of each watcher that sees it, and reports one trigger
    /// event per detection, in watcher order.
    pub fn resolve_sight(&mut self, target: u64, delta_ms: u32) -> (trigger_events: Vec<
        TriggerEvent,
    >)
        requires
            old(self).wf(),
            forall|i: int| 0 <= i < old(self).watchers@.len() ==> {
                let w = #[trigger] old(self).watchers@[i];
                &&& w.facing.is_cardinal()
                &&& i16::MIN <= w.position.x + w.facing.x * (SIGHT_RANGE as int) <= i16::MAX
                &&& i16::MIN <= w.position.y + w.facing.y * (SIGHT_RANGE as int) <= i16::MAX
            },
        ensures
            final(self).wf(),
            final(self).index == old(self).index,
            final(self).tiles == old(self).tiles,
            final(self).mobs == old(self).mobs,
            final(self).watchers@.len() == old(self).watchers@.len(),
            forall|i: int| 0 <= i < old(self).watchers@.len() ==> {
                let w = #[trigger] old(self).watchers@[i];
                let t = w.cooldown.0.spec_ticked(delta_ms);
                final(self).watchers@[i] == (SightWatcher {
                    cooldown: SightTriggerCooldown(
                        if t.finished() && old(self).sees_target(w.position, w.facing, target) {
                            Cooldown { elapsed_ms: 0, duration_ms: t.duration_ms }
                        } else {
                            t
                        },
                    ),
                    ..w
                })
            },
            trigger_events@ == old(self).sight_events(old(self).watchers@, target, delta_ms),
    {
        let n = self.watchers.len();
        let mut events: Vec<TriggerEvent> = Vec::new();
        let mut i: usize = 0;
        while i < n
            invariant
                old(self).wf(),
                self.wf(),
                forall|j: int| 0 <= j < old(self).watchers@.len() ==> {
                    let w = #[trigger] old(self).watchers@[j];
                    &&& w.facing.is_cardinal()
                    &&& i16::MIN <= w.position.x + w.facing.x * (SIGHT_RANGE as int) <= i16::MAX
                    &&& i16::MIN <= w.position.y + w.facing.y * (SIGHT_RANGE as int) <= i16::MAX
                },
                i <= n,
                n == self.watchers@.len(),
                n == old(self).watchers@.len(),
                self.index == old(self).index,
                self.tiles == old(self).tiles,
                self.mobs == old(self).mobs,
                forall|j: int| i <= j < n
                    ==> (#[trigger] self.watchers@[j]) == old(self).watchers@[j],
                forall|j: int| 0 <= j < i ==> {
                    let w = #[trigger] old(self).watchers@[j];
                    let t = w.cooldown.0.spec_ticked(delta_ms);
                    self.watchers@[j] == (SightWatcher {
                        cooldown: SightTriggerCooldown(
                            if t.finished()
                                && old(self).sees_target(w.position, w.facing, target) {
                                Cooldown { elapsed_ms: 0, duration_ms: t.duration_ms }
                            } else {
                                t
                            },
                        ),
                        ..w
                    })
                },
                events@ == old(self).sight_events(
                    old(self).watchers@.subrange(0, i as int),
                    target,
                    delta_ms,
                ),
            decreases n - i,
        {
            proof {
                let pre = old(self).watchers@.subrange(0, i as int);
                let cur = old(self).watchers@.subrange(0, i + 1);
                assert(cur.drop_last() =~= pre);
                assert(cur.last() == old(self).watchers@[i as int]);
            }
            let mut w = self.watchers[i];
            w.cooldown.0.tick(delta_ms);
            let mut detected = false;
            if w.cooldown.0.finished() {
                detected = self.scan_ray(w.position, w.facing, target);
                proof {
                    lemma_sight_scan_frame(*self, *old(self), w.position, w.facing, target, 1);
                }
                if detected {
                    w.cooldown.0.reset();
                    events.push(TriggerEvent { triggering: target, triggered: w.entity });
                }
            }
            self.watchers[i] = w;
            proof {
                assert forall|a: int, b: int| 0 <= a < b < self.watchers@.len()
                    implies (#[trigger] self.watchers@[a]).entity
                        != (#[trigger] self.watchers@[b]).entity by {
                    assert(self.watchers@[a].entity == old(self).watchers@[a].entity);
                    assert(self.watchers@[b].entity == old(self).watchers@[b].entity);
                }
                assert forall|a: int| 0 <= a < self.watchers@.len()
                    implies (#[trigger] self.watchers@[a]).cooldown.0.wf() by {
                    if a > i {
                        assert(self.watchers@[a] == old(self).watchers@[a]);
                    }
                }
            }
            i = i + 1;
        }
        proof {
            assert(old(self).watchers@.subrange(0, n as int) =~= old(self).watchers@);
            assert forall|a: int, b: int| 0 <= a < b < self.watchers@.len()
                implies (#[trigger] self.watchers@[a]).entity
                    != (#[trigger] self.watchers@[b]).entity by {
                assert(self.watchers@[a].entity == old(self).watchers@[a].entity);
                assert(self.watchers@[b].entity == old(self).watchers@[b].entity);
            }
            assert forall|a: int| 0 <= a < self.watchers@.len()
                implies (#[trigger] self.watchers@[a]).cooldown.0.wf() by {
                let w = old(self).watchers@[a];
                assert(w.cooldown.0.wf());
            }
        }
        events
    }
}

/// Two worlds with the same tags agree on which entities block sight.
proof fn lemma_blocks_sight_frame(w0: GridWorld, w1: GridWorld)
    requires
        w0.tiles == w1.tiles,
        forall|i: int, j: int| 0 <= i < j < w0.tiles@.len()
            ==> (#[trigger] w0.tiles@[i]).entity != (#[trigger] w0.tiles@[j]).entity,
    ensures
        forall|x: u64| #[trigger] w0.blocks_sight(x) == w1.blocks_sight(x),
{
    assert forall|x: u64| #[trigger] w0.blocks_sight(x) == w1.blocks_sight(x) by {
        if w0.has_tile(x) {
            let i = w0.tile_index(x);
            assert(0 <= i < w0.tiles@.len() && w0.tiles@[i].entity == x);
            w0.lemma_tile_index_of(i);
            w1.lemma_tile_index_of(i);
        }
        if w1.has_tile(x) {
            let i = w1.tile_index(x);
            assert(0 <= i < w1.tiles@.len() && w1.tiles@[i].entity == x);
            w0.lemma_tile_index_of(i);
            w1.lemma_tile_index_of(i);
        }
    }
}

/// Two worlds with the same tags scan a tile alike.
proof fn lemma_tile_scan_frame(
    w0: GridWorld,
    w1: GridWorld,
    occupants: Seq<u64>,
    target: u64,
)
    requires
        w0.tiles == w1.tiles,
        forall|i: int, j: int| 0 <= i < j < w0.tiles@.len()
            ==> (#[trigger] w0.tiles@[i]).entity != (#[trigger] w0.tiles@[j]).entity,
    ensures
        w0.tile_scan(occupants, target) == w1.tile_scan(occupants, target),
{
    lemma_blocks_sight_frame(w0, w1);
    if exists|j: int| 0 <= j < occupants.len() && w0.blocks_sight(#[trigger] occupants[j]) {
        let j = choose|j: int| 0 <= j < occupants.len() && w0.blocks_sight(
            #[trigger] occupants[j],
        );
        assert(w1.blocks_sight(occupants[j]));
    } else if exists|j: int| 0 <= j < occupants.len() && w1.blocks_sight(
        #[trigger] occupants[j],
    ) {
        let j = choose|j: int| 0 <= j < occupants.len() && w1.blocks_sight(
            #[trigger] occupants[j],
        );
        assert(w0.blocks_sight(occupants[j]));
    }
}

/// Two worlds with the same index and the same tags see alike.
proof fn lemma_sight_scan_frame(
    w0: GridWorld,
    w1: GridWorld,
    origin: GridTransform,
    dir: GridTransform,
    target: u64,
    step: int,
)
    requires
        w0.tiles == w1.tiles,
        w0.index == w1.index,
        forall|i: int, j: int| 0 <= i < j < w0.tiles@.len()
            ==> (#[trigger] w0.tiles@[i]).entity != (#[trigger] w0.tiles@[j]).entity,
        1 <= step <= SIGHT_RANGE as int + 1,
    ensures
        w0.sight_scan_from(origin, dir, target, step)
            == w1.sight_scan_from(origin, dir, target, step),
    decreases SIGHT_RANGE as int + 1 - step,
{
    if step <= SIGHT_RANGE as int {
        let occ = w0.index.occupants(ray_tile(origin, dir, step));
        lemma_tile_scan_frame(w0, w1, occ, target);
        if w0.tile_scan(occ, target) == TileSight::Clear {
            lemma_sight_scan_frame(w0, w1, origin, dir, target, step + 1);
        }
    }
}

/// A tile none of whose occupants blocks sight or is the target is clear.
proof fn lemma_tile_scan_clear(w: GridWorld, occupants: Seq<u64>, target: u64)
    requires
        forall|j: int| 0 <= j < occupants.len()
            ==> !w.blocks_sight(#[trigger] occupants[j]) && occupants[j] != target,
    ensures
        w.tile_scan(occupants, target) == TileSight::Clear,
{
    if occupants.contains(target) {
        let j = choose|j: int| 0 <= j < occupants.len() && occupants[j] == target;
        assert(occupants[j] != target);
    }
}

/// A tile holding a sight blocker occludes the scan, whatever else stands on
/// it.
proof fn lemma_tile_scan_blocked(w: GridWorld, occupants: Seq<u64>, target: u64)
    requires
        exists|j: int| 0 <= j < occupants.len() && w.blocks_sight(#[trigger] occupants[j]),
    ensures
        w.tile_scan(occupants, target) == TileSight::Occluded,
{
}

/// A scan beginning at `step` whose tiles up to `k` are clear behaves as a
/// scan beginning at `k`.
proof fn lemma_sight_scan_skips_clear(
    w: GridWorld,
    origin: GridTransform,
    dir: GridTransform,
    target: u64,
    step: int,
    k: int,
)
    requires
        1 <= step <= k <= SIGHT_RANGE as int,
        forall|s: int| step <= s < k
            ==> w.tile_scan(w.index.occupants(ray_tile(origin, dir, s)), target)
                == TileSight::Clear,
    ensures
        w.sight_scan_from(origin, dir, target, step) == w.sight_scan_from(
            origin,
            dir,
            target,
            k,
        ),
    decreases k - step,
{
    if step < k {
        assert(w.tile_scan(w.index.occupants(ray_tile(origin, dir, step)), target)
            == TileSight::Clear);
        lemma_sight_scan_skips_clear(w, origin, dir, target, step + 1, k);
    }
}

/// A scan beginning at `step` detects the target when it stands at step `k`
/// and no tile from `step` through `k` holds a sight blocker — whether or
/// not the target also stands somewhere nearer on the ray.
proof fn lemma_scan_reaches_target(
    w: GridWorld,
    origin: GridTransform,
    dir: GridTransform,
    target: u64,
    step: int,
    k: int,
)
    requires
        1 <= step <= k <= SIGHT_RANGE as int,
        forall|s: int| step <= s <= k ==> !w.sight_blocked_at(#[trigger] ray_tile(origin, dir, s)),
        w.index.occupants(ray_tile(origin, dir, k)).contains(target),
    ensures
        w.sight_scan_from(origin, dir, target, step),
    decreases k - step,
{
    let occ = w.index.occupants(ray_tile(origin, dir, step));
    assert(!w.sight_blocked_at(ray_tile(origin, dir, step)));
    if occ.contains(target) {
        assert(w.tile_scan(occ, target) == TileSight::Target);
    } else {
        assert(step < k);
        assert(w.tile_scan(occ, target) == TileSight::Clear);
        lemma_scan_reaches_target(w, origin, dir, target, step + 1, k);
    }
}

/// A successful scan beginning at `step` names a step at which the target
/// stands, with no sight blocker on any tile from `step` up to it.
proof fn lemma_scan_names_witness(
    w: GridWorld,
    origin: GridTransform,
    dir: GridTransform,
    target: u64,
    step: int,
)
    requires
        1 <= step,
        w.sight_scan_from(origin, dir, target, step),
    ensures
        exists|k: int| {
            &&& step <= k <= SIGHT_RANGE as int
            &&& w.index.occupants(#[trigger] ray_tile(origin, dir, k)).contains(target)
            &&& forall|j: int| step <= j <= k
                ==> !w.sight_blocked_at(#[trigger] ray_tile(origin, dir, j))
        },
    decreases SIGHT_RANGE as int + 1 - step,
{
    assert(step <= SIGHT_RANGE as int);
    let occ = w.index.occupants(ray_tile(origin, dir, step));
    match w.tile_scan(occ, target) {
        TileSight::Occluded => {
            assert(false);
        },
        TileSight::Target => {
            assert(!w.sight_blocked_at(ray_tile(origin, dir, step)));
            assert(w.index.occupants(ray_tile(origin, dir, step)).contains(target));
        },
        TileSight::Clear => {
            assert(!w.sight_blocked_at(ray_tile(origin, dir, step)));
            lemma_scan_names_witness(w, origin, dir, target, step + 1);
            let k = choose|k: int| {
                &&& step + 1 <= k <= SIGHT_RANGE as int
                &&& w.index.occupants(#[trigger] ray_tile(origin, dir, k)).contains(target)
                &&& forall|j: int| step + 1 <= j <= k
                    ==> !w.sight_blocked_at(#[trigger] ray_tile(origin, dir, j))
            };
            assert(w.index.occupants(ray_tile(origin, dir, k)).contains(target));
            assert(forall|j: int| step <= j <= k
                ==> !w.sight_blocked_at(#[trigger] ray_tile(origin, dir, j)));
        },
    }
}

/// What a watcher sees, exactly: the target is detected if and only if it
/// stands at some step of the ray within range and no tile of the ray up to
/// and including that step holds a sight blocker.
pub proof fn lemma_sight_characterization(
    w: GridWorld,
    origin: GridTransform,
    dir: GridTransform,
    target: u64,
)
    ensures
        w.sees_target(origin, dir, target) <==> exists|k: int| {
            &&& 1 <= k <= SIGHT_RANGE as int
            &&& w.index.occupants(#[trigger] ray_tile(origin, dir, k)).contains(target)
            &&& forall|j: int| 1 <= j <= k
                ==> !w.sight_blocked_at(#[trigger] ray_tile(origin, dir, j))
        },
{
    if w.sees_target(origin, dir, target) {
        lemma_scan_names_witness(w, origin, dir, target, 1);
    }
    if exists|k: int| {
        &&& 1 <= k <= SIGHT_RANGE as int
        &&& w.index.occupants(#[trigger] ray_tile(origin, dir, k)).contains(target)
        &&& forall|j: int| 1 <= j <= k
            ==> !w.sight_blocked_at(#[trigger] ray_tile(origin, dir, j))
    } {
        let k = choose|k: int| {
            &&& 1 <= k <= SIGHT_RANGE as int
            &&& w.index.occupants(#[trigger] ray_tile(origin, dir, k)).contains(target)
            &&& forall|j: int| 1 <= j <= k
                ==> !w.sight_blocked_at(#[trigger] ray_tile(origin, dir, j))
        };
        lemma_scan_reaches_target(w, origin, dir, target, 1, k);
    }
}

/// A pass over watchers with distinct entities emits at most one detection
/// event per watcher: exactly one naming each watcher that detects the
/// target this pass, and none naming anything else.
pub proof fn lemma_sight_events_count(
    w: GridWorld,
    watchers: Seq<SightWatcher>,
    target: u64,
    delta_ms: u32,
    x: u64,
)
    requires
        forall|i: int, j: int| 0 <= i < j < watchers.len()
            ==> (#[trigger] watchers[i]).entity != (#[trigger] watchers[j]).entity,
    ensures
        count_sight_events_for(w.sight_events(watchers, target, delta_ms), x)
            == if exists|i: int| 0 <= i < watchers.len()
                && (#[trigger] watchers[i]).entity == x
                && w.watcher_detects(watchers[i], target, delta_ms) {
                1int
            } else {
                0int
            },
    decreases watchers.len(),
{
    if watchers.len() == 0 {
    } else {
        let front = watchers.drop_last();
        let last = watchers.last();
        assert forall|i: int, j: int| 0 <= i < j < front.len()
            implies (#[trigger] front[i]).entity != (#[trigger] front[j]).entity by {
            assert(front[i] == watchers[i] && front[j] == watchers[j]);
        }
        lemma_sight_events_count(w, front, target, delta_ms, x);
        let events = w.sight_events(watchers, target, delta_ms);
        let front_events = w.sight_events(front, target, delta_ms);
        if w.watcher_detects(last, target, delta_ms) {
            assert(events == front_events.push(
                TriggerEvent { triggering: target, triggered: last.entity },
            ));
            assert(events.drop_last() =~= front_events);
        } else {
            assert(events == front_events);
        }
        if last.entity == x {
            assert(watchers[watchers.len() - 1].entity == x);
            assert(!(exists|i: int| 0 <= i < front.len() && (#[trigger] front[i]).entity == x
                && w.watcher_detects(front[i], target, delta_ms))) by {
                if exists|i: int| 0 <= i < front.len() && (#[trigger] front[i]).entity == x
                    && w.watcher_detects(front[i], target, delta_ms) {
                    let i = choose|i: int| 0 <= i < front.len()
                        && (#[trigger] front[i]).entity == x
                        && w.watcher_detects(front[i], target, delta_ms);
                    assert(watchers[i].entity != watchers[watchers.len() - 1].entity);
                }
            }
            if !w.watcher_detects(last, target, delta_ms) {
                assert forall|i: int| 0 <= i < watchers.len()
                    && (#[trigger] watchers[i]).entity == x
                    implies !w.watcher_detects(watchers[i], target, delta_ms) by {
                    if i < watchers.len() - 1 {
                        assert(watchers[i].entity != watchers[watchers.len() - 1].entity);
                    }
                }
            }
        } else {
            assert((exists|i: int| 0 <= i < watchers.len() && (#[trigger] watchers[i]).entity == x
                && w.watcher_detects(watchers[i], target, delta_ms)) == (exists|i: int|
                0 <= i < front.len() && (#[trigger] front[i]).entity == x
                && w.watcher_detects(front[i], target, delta_ms))) by {
                if exists|i: int| 0 <= i < watchers.len() && (#[trigger] watchers[i]).entity == x
                    && w.watcher_detects(watchers[i], target, delta_ms) {
                    let i = choose|i: int| 0 <= i < watchers.len()
                        && (#[trigger] watchers[i]).entity == x
                        && w.watcher_detects(watchers[i], target, delta_ms);
                    assert(i != watchers.len() - 1);
                    assert(front[i].entity == x);
                }
                if exists|i: int| 0 <= i < front.len() && (#[trigger] front[i]).entity == x
                    && w.watcher_detects(front[i], target, delta_ms) {
                    let i = choose|i: int| 0 <= i < front.len()
                        && (#[trigger] front[i]).entity == x
                        && w.watcher_detects(front[i], target, delta_ms);
                    assert(watchers[i].entity == x);
                }
            }
        }
    }
}

/// With the target on the ray at step `k` and no sight blocker on any tile
/// up to and including the target's own, the watcher detects the target.
pub proof fn lemma_sight_detects(
    w: GridWorld,
    origin: GridTransform,
    dir: GridTransform,
    target: u64,
    k: int,
)
    requires
        1 <= k <= SIGHT_RANGE as int,
        forall|s: int| 1 <= s <= k ==> !w.sight_blocked_at(#[trigger] ray_tile(origin, dir, s)),
        w.index.occupants(ray_tile(origin, dir, k)).contains(target),
    ensures
        w.sees_target(origin, dir, target),
{
    lemma_scan_reaches_target(w, origin, dir, target, 1, k);
}

/// With a sight blocker on the ray at step `k` and every nearer tile free of
/// sight blockers and of the target, the watcher detects nothing — wherever
/// the target stands, step `k` itself included.
pub proof fn lemma_sight_occluded(
    w: GridWorld,
    origin: GridTransform,
    dir: GridTransform,
    target: u64,
    k: int,
)
    requires
        1 <= k <= SIGHT_RANGE as int,
        forall|s: int| 1 <= s < k ==> {
            let occ = w.index.occupants(#[trigger] ray_tile(origin, dir, s));
            forall|j: int| 0 <= j < occ.len()
                ==> !w.blocks_sight(#[trigger] occ[j]) && occ[j] != target
        },
        w.sight_blocked_at(ray_tile(origin, dir, k)),
    ensures
        !w.sees_target(origin, dir, target),
{
    assert forall|s: int| 1 <= s < k
        implies w.tile_scan(w.index.occupants(ray_tile(origin, dir, s)), target)
            == TileSight::Clear by {
        lemma_tile_scan_clear(w, w.index.occupants(ray_tile(origin, dir, s)), target);
    }
    lemma_sight_scan_skips_clear(w, origin, dir, target, 1, k);
    lemma_tile_scan_blocked(w, w.index.occupants(ray_tile(origin, dir, k)), target);
}

} // verus!
