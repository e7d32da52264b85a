//! The grid world: the owned simulation context a tick operates on.
//!
//! It gathers the spatial index, the grid-bound animate entities (mobs), the
//! capability tags of tile content, and the sight watchers. Each resolver
//! takes the world (or the parts it reads) explicitly, so the simulation can
//! be driven and examined without any engine around it.

use vstd::prelude::*;
use crate::cooldown::{MovementCooldown, SightTriggerCooldown};
use crate::grid_index::GridIndex;
use crate::grid_transform::GridTransform;

verus! {

/// Current tile of an entity.
#[derive(Clone, Copy, Debug, PartialEq, Eq, Structural)]
pub struct GridPosition(pub GridTransform);

/// Tile an entity stood on before its last step.
#[derive(Clone, Copy, Debug, PartialEq, Eq, Structural)]
pub struct LastGridPosition(pub GridTransform);

/// Direction an entity faces, always a cardinal unit vector.
#[derive(Clone, Copy, Debug, PartialEq, Eq, Structural)]
pub struct GridDirection(pub GridTransform);

impl Default for GridPosition {
    fn default() -> (r: Self)
        ensures
            r.0 == GridTransform::zero(),
    {
        GridPosition(GridTransform::zero())
    }
}

impl Default for LastGridPosition {
    fn default() -> (r: Self)
        ensures
            r.0 == GridTransform::zero(),
    {
        LastGridPosition(GridTransform::zero())
    }
}

impl Default for GridDirection {
    fn default() -> (r: Self)
        ensures
            r.0 == GridTransform::south(),
    {
        GridDirection(GridTransform::south())
    }
}

/// A grid-bound animate entity: its identity, where it stands, where it came
/// from, where it faces, and the timer pacing its steps.
#[derive(Clone, Copy, Debug, PartialEq, Eq, Structural)]
pub struct Mob {
    pub entity: u64,
    pub position: GridPosition,
    pub last_position: LastGridPosition,
    pub facing: GridDirection,
    pub cooldown: MovementCooldown,
}

/// Capability tags of a piece of tile content. Tags are independent set
/// memberships, not a hierarchy: an entity may carry any combination.
#[derive(Clone, Copy, Debug, PartialEq, Eq, Structural)]
pub struct TileEntity {
    pub entity: u64,
    pub blocks_walking: bool,
    pub triggers_on_move_onto: bool,
    pub triggers_on_interact: bool,
    pub blocks_sight: bool,
}

/// An entity that scans for a target along its facing direction.
#[derive(Clone, Copy, Debug, PartialEq, Eq, Structural)]
pub struct SightWatcher {
    pub entity: u64,
    pub position: GridTransform,
    pub facing: GridTransform,
    pub cooldown: SightTriggerCooldown,
}

/// The whole simulation state of the loaded map.
pub struct GridWorld {
    pub index: GridIndex,
    pub mobs: Vec<Mob>,
    pub tiles: Vec<TileEntity>,
    pub watchers: Vec<SightWatcher>,
}

impl GridWorld {
    pub open spec fn has_mob(self, e: u64) -> bool {
        exists|i: int| 0 <= i < self.mobs@.len() && (#[trigger] self.mobs@[i]).entity == e
    }

    pub open spec fn mob_index(self, e: u64) -> int {
        choose|i: int| 0 <= i < self.mobs@.len() && (#[trigger] self.mobs@[i]).entity == e
    }

    pub open spec fn mob_of(self, e: u64) -> Mob {
        self.mobs@[self.mob_index(e)]
    }

    pub open spec fn has_tile(self, e: u64) -> bool {
        exists|i: int| 0 <= i < self.tiles@.len() && (#[trigger] self.tiles@[i]).entity == e
    }

    pub open spec fn tile_index(self, e: u64) -> int {
        choose|i: int| 0 <= i < self.tiles@.len() && (#[trigger] self.tiles@[i]).entity == e
    }

    pub open spec fn tile_of(self, e: u64) -> TileEntity {
        self.tiles@[self.tile_index(e)]
    }

    /// Whether entity `e` refuses to share its tile with a walker.
    pub open spec fn blocks_walking(self, e: u64) -> bool {
        self.has_tile(e) && self.tile_of(e).blocks_walking
    }

    /// Whether stepping onto entity `e`'s tile triggers it.
    pub open spec fn triggers_on_move_onto(self, e: u64) -> bool {
        self.has_tile(e) && self.tile_of(e).triggers_on_move_onto
    }

    /// Whether interacting toward entity `e`'s tile triggers it.
    pub open spec fn triggers_on_interact(self, e: u64) -> bool {
        self.has_tile(e) && self.tile_of(e).triggers_on_interact
    }

    /// Whether entity `e` occludes line of sight.
    pub open spec fn blocks_sight(self, e: u64) -> bool {
        self.has_tile(e) && self.tile_of(e).blocks_sight
    }

    /// Whether some occupant of tile `p` blocks walking.
    pub open spec fn blocked_at(self, p: GridTransform) -> bool {
        exists|i: int| 0 <= i < self.index.occupants(p).len()
            && self.blocks_walking(#[trigger] self.index.occupants(p)[i])
    }

    /// The tile a mob's interaction reaches: one step ahead of where it
    /// faces.
    pub open spec fn interact_tile(self, e: u64) -> GridTransform
        recommends
            self.has_mob(e),
    {
        self.mob_of(e).position.0.spec_add(self.mob_of(e).facing.0)
    }

    /// Consistency of the world: a well-formed index, no entity recorded as
    /// two mobs, tiles or watchers, well-formed timers, and every mob
    /// standing in the index at its own position.
    pub open spec fn wf(self) -> bool {
        &&& self.index.wf()
        &&& forall|i: int, j: int| 0 <= i < j < self.mobs@.len()
            ==> (#[trigger] self.mobs@[i]).entity != (#[trigger] self.mobs@[j]).entity
        &&& forall|i: int| 0 <= i < self.mobs@.len()
            ==> (#[trigger] self.mobs@[i]).cooldown.0.wf()
        &&& forall|i: int| 0 <= i < self.mobs@.len() ==> {
            &&& self.index@.dom().contains((#[trigger] self.mobs@[i]).entity)
            &&& self.index@[self.mobs@[i].entity] == self.mobs@[i].position.0
        }
        &&& forall|i: int, j: int| 0 <= i < j < self.tiles@.len()
            ==> (#[trigger] self.tiles@[i]).entity != (#[trigger] self.tiles@[j]).entity
        &&& forall|i: int, j: int| 0 <= i < j < self.watchers@.len()
            ==> (#[trigger] self.watchers@[i]).entity != (#[trigger] self.watchers@[j]).entity
        &&& forall|i: int| 0 <= i < self.watchers@.len()
            ==> (#[trigger] self.watchers@[i]).cooldown.0.wf()
    }

    /// An empty world over an empty index.
    pub fn new() -> (r: Self)
        ensures
            r.wf(),
            r.mobs@ == Seq::<Mob>::empty(),
            r.tiles@ == Seq::<TileEntity>::empty(),
            r.watchers@ == Seq::<SightWatcher>::empty(),
            r.index@ == Map::<u64, GridTransform>::empty(),
            forall|p: GridTransform| r.index.occupants(p) == Seq::<u64>::empty(),
    {
        GridWorld {
            index: GridIndex::new(),
            mobs: Vec::new(),
            tiles: Vec::new(),
            watchers: Vec::new(),
        }
    }

    /// Index of the mob record of entity `e`, if it has one.
    pub(crate) fn find_mob(&self, e: u64) -> (r: Option<usize>)
        ensures
            match r {
                Some(i) => i < self.mobs@.len() && self.mobs@[i as int].entity == e,
                None => !self.has_mob(e),
            },
    {
        let n = self.mobs.len();
        let mut i: usize = 0;
        while i < n
            invariant
                i <= n,
                n == self.mobs@.len(),
                forall|j: int| 0 <= j < i ==> (#[trigger] self.mobs@[j]).entity != e,
            decreases n - i,
        {
            if self.mobs[i].entity == e {
                return Some(i);
            }
            i = i + 1;
        }
        None
    }

    /// The mob record of entity `e`, if it has one.
    pub fn get_mob(&self, e: u64) -> (r: Option<Mob>)
        requires
            self.wf(),
        ensures
            match r {
                Some(m) => self.has_mob(e) && m == self.mob_of(e),
                None => !self.has_mob(e),
            },
    {
        match self.find_mob(e) {
            Some(i) => {
                proof {
                    self.lemma_mob_index_of(i as int);
                }
                Some(self.mobs[i])
            },
            None => None,
        }
    }

    /// Index of the tag record of entity `e`, if it has one.
    pub(crate) fn find_tile(&self, e: u64) -> (r: Option<usize>)
        ensures
            match r {
                Some(i) => i < self.tiles@.len() && self.tiles@[i as int].entity == e,
                None => !self.has_tile(e),
            },
    {
        let n = self.tiles.len();
        let mut i: usize = 0;
        while i < n
            invariant
                i <= n,
                n == self.tiles@.len(),
                forall|j: int| 0 <= j < i ==> (#[trigger] self.tiles@[j]).entity != e,
            decreases n - i,
        {
            if self.tiles[i].entity == e {
                return Some(i);
            }
            i = i + 1;
        }
        None
    }

    /// Whether entity `e` carries the blocks-walking tag.
    pub fn is_blocker(&self, e: u64) -> (r: bool)
        requires
            self.wf(),
        ensures
            r == self.blocks_walking(e),
    {
        match self.find_tile(e) {
            Some(i) => {
                proof {
                    self.lemma_tile_index_of(i as int);
                }
                self.tiles[i].blocks_walking
            },
            None => false,
        }
    }

    /// Whether entity `e` carries the triggers-on-move-onto tag.
    pub fn is_move_trigger(&self, e: u64) -> (r: bool)
        requires
            self.wf(),
        ensures
            r == self.triggers_on_move_onto(e),
    {
        match self.find_tile(e) {
            Some(i) => {
                proof {
                    self.lemma_tile_index_of(i as int);
                }
                self.tiles[i].triggers_on_move_onto
            },
            None => false,
        }
    }

    /// Whether entity `e` carries the triggers-on-interact tag.
    pub fn is_interact_trigger(&self, e: u64) -> (r: bool)
        requires
            self.wf(),
        ensures
            r == self.triggers_on_interact(e),
    {
        match self.find_tile(e) {
            Some(i) => {
                proof {
                    self.lemma_tile_index_of(i as int);
                }
                self.tiles[i].triggers_on_interact
            },
            None => false,
        }
    }

    /// Whether entity `e` carries the blocks-sight tag.
    pub fn is_sight_blocker(&self, e: u64) -> (r: bool)
        requires
            self.wf(),
        ensures
            r == self.blocks_sight(e),
    {
        match self.find_tile(e) {
            Some(i) => {
                proof {
                    self.lemma_tile_index_of(i as int);
                }
                self.tiles[i].blocks_sight
            },
            None => false,
        }
    }

    /// Adds a freshly spawned mob and records its position in the index.
    pub fn add_mob(&mut self, mob: Mob)
        requires
            old(self).wf(),
            !old(self).has_mob(mob.entity),
            mob.cooldown.0.wf(),
        ensures
            final(self).wf(),
            final(self).mobs@ == old(self).mobs@.push(mob),
            final(self).index@ == old(self).index@.insert(mob.entity, mob.position.0),
            final(self).index.occupants(mob.position.0) == old(self).index.occupants(
                mob.position.0,
            ).remove_value(mob.entity).push(mob.entity),
            forall|q: GridTransform| q != mob.position.0 ==> final(self).index.occupants(q)
                == old(self).index.occupants(q).remove_value(mob.entity),
            final(self).tiles == old(self).tiles,
            final(self).watchers == old(self).watchers,
            final(self).has_mob(mob.entity),
            final(self).mob_of(mob.entity) == mob,
    {
        self.index.update(mob.entity, mob.position.0);
        self.mobs.push(mob);
        proof {
            let n = self.mobs@.len() - 1;
            assert(self.mobs@[n] == mob);
            self.lemma_mob_index_of(n);
            assert forall|i: int, j: int| 0 <= i < j < self.mobs@.len()
                implies (#[trigger] self.mobs@[i]).entity != (#[trigger] self.mobs@[j]).entity by {
                if j < n {
                    assert(old(self).mobs@[i] == self.mobs@[i]);
                }
            }
        }
    }

    /// Registers a piece of tile content: places it in the index and records
    /// its capability tags.
    pub fn register_tile(&mut self, tile: TileEntity, pos: GridTransform)
        requires
            old(self).wf(),
            !old(self).has_mob(tile.entity),
            !old(self).has_tile(tile.entity),
        ensures
            final(self).wf(),
            final(self).tiles@ == old(self).tiles@.push(tile),
            final(self).index@ == old(self).index@.insert(tile.entity, pos),
            final(self).index.occupants(pos) == old(self).index.occupants(pos).remove_value(
                tile.entity,
            ).push(tile.entity),
            forall|q: GridTransform| q != pos ==> final(self).index.occupants(q)
                == old(self).index.occupants(q).remove_value(tile.entity),
            final(self).mobs == old(self).mobs,
            final(self).watchers == old(self).watchers,
            final(self).has_tile(tile.entity),
            final(self).tile_of(tile.entity) == tile,
    {
        self.index.update(tile.entity, pos);
        self.tiles.push(tile);
        proof {
            let n = self.tiles@.len() - 1;
            assert(self.tiles@[n] == tile);
            self.lemma_tile_index_of(n);
            assert forall|i: int, j: int| 0 <= i < j < self.tiles@.len()
                implies (#[trigger] self.tiles@[i]).entity != (#[trigger] self.tiles@[j]).entity by {
                if j < n {
                    assert(old(self).tiles@[i] == self.tiles@[i]);
                }
            }
        }
    }

    /// Adds a sight watcher.
    pub fn add_watcher(&mut self, watcher: SightWatcher)
        requires
            old(self).wf(),
            !(exists|i: int| 0 <= i < old(self).watchers@.len()
                && (#[trigger] old(self).watchers@[i]).entity == watcher.entity),
            watcher.cooldown.0.wf(),
        ensures
            final(self).wf(),
            final(self).watchers@ == old(self).watchers@.push(watcher),
            final(self).mobs == old(self).mobs,
            final(self).tiles == old(self).tiles,
            final(self).index == old(self).index,
    {
        self.watchers.push(watcher);
        proof {
            let n = self.watchers@.len() - 1;
            assert forall|i: int, j: int| 0 <= i < j < self.watchers@.len()
                implies (#[trigger] self.watchers@[i]).entity
                    != (#[trigger] self.watchers@[j]).entity by {
                if j < n {
                    assert(old(self).watchers@[i] == self.watchers@[i]);
                }
            }
        }
    }

    /// Tears the world down for a map transition: all tile content, all
    /// watchers and all mobs but the kept one (the player) disappear, and
    /// the index starts over holding only the kept mob.
    pub fn clear_for_transition(&mut self, keep: Option<u64>)
        requires
            old(self).wf(),
        ensures
            final(self).wf(),
            final(self).tiles@ == Seq::<TileEntity>::empty(),
            final(self).watchers@ == Seq::<SightWatcher>::empty(),
            match keep {
                Some(e) => if old(self).has_mob(e) {
                    final(self).mobs@ == seq![old(self).mob_of(e)]
                        && final(self).index@ == Map::<u64, GridTransform>::empty()
                            .insert(e, old(self).mob_of(e).position.0)
                } else {
                    final(self).mobs@ == Seq::<Mob>::empty()
                        && final(self).index@ == Map::<u64, GridTransform>::empty()
                },
                None => final(self).mobs@ == Seq::<Mob>::empty()
                    && final(self).index@ == Map::<u64, GridTransform>::empty(),
            },
    {
        let kept: Option<Mob> = match keep {
            Some(e) => {
                match self.find_mob(e) {
                    Some(i) => {
                        proof {
                            self.lemma_mob_index_of(i as int);
                        }
                        Some(self.mobs[i])
                    },
                    None => None,
                }
            },
            None => None,
        };
        self.tiles = Vec::new();
        self.watchers = Vec::new();
        self.mobs = Vec::new();
        self.index = GridIndex::new();
        match kept {
            Some(mob) => {
                self.index.update(mob.entity, mob.position.0);
                self.mobs.push(mob);
                proof {
                    assert(self.index@
                        =~= Map::<u64, GridTransform>::empty().insert(mob.entity, mob.position.0));
                    assert(self.mobs@ =~= seq![mob]);
                }
            },
            None => {
                proof {
                    assert(self.mobs@ =~= Seq::<Mob>::empty());
                }
            },
        }
        proof {
            assert(self.tiles@ =~= Seq::<TileEntity>::empty());
            assert(self.watchers@ =~= Seq::<SightWatcher>::empty());
        }
    }

    /// The chosen mob index of an entity is the index it stands at.
    pub proof fn lemma_mob_index_of(self, i: int)
        requires
            forall|a: int, b: int| 0 <= a < b < self.mobs@.len()
                ==> (#[trigger] self.mobs@[a]).entity != (#[trigger] self.mobs@[b]).entity,
            0 <= i < self.mobs@.len(),
        ensures
            self.has_mob(self.mobs@[i].entity),
            self.mob_index(self.mobs@[i].entity) == i,
            self.mob_of(self.mobs@[i].entity) == self.mobs@[i],
    {
        assert(self.has_mob(self.mobs@[i].entity));
        let j = self.mob_index(self.mobs@[i].entity);
        if i < j {
            assert(self.mobs@[i].entity != self.mobs@[j].entity);
        } else if j < i {
            assert(self.mobs@[j].entity != self.mobs@[i].entity);
        }
    }

    /// The chosen tile index of an entity is the index it stands at.
    pub proof fn lemma_tile_index_of(self, i: int)
        requires
            forall|a: int, b: int| 0 <= a < b < self.tiles@.len()
                ==> (#[trigger] self.tiles@[a]).entity != (#[trigger] self.tiles@[b]).entity,
            0 <= i < self.tiles@.len(),
        ensures
            self.has_tile(self.tiles@[i].entity),
            self.tile_index(self.tiles@[i].entity) == i,
            self.tile_of(self.tiles@[i].entity) == self.tiles@[i],
    {
        assert(self.has_tile(self.tiles@[i].entity));
        let j = self.tile_index(self.tiles@[i].entity);
        if i < j {
            assert(self.tiles@[i].entity != self.tiles@[j].entity);
        } else if j < i {
            assert(self.tiles@[j].entity != self.tiles@[i].entity);
        }
    }
}

} // verus!
