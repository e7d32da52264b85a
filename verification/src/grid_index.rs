//! The spatial index: the authoritative record of which entities occupy
//! which grid tile.
//!
//! The index keeps two association lists, one from tile to the entities on
//! it and one from entity to its recorded tile, and maintains them together:
//! an entity is in the bucket of a tile exactly when that tile is its
//! recorded position, a tile whose bucket would be empty has no bucket at
//! all, and no entity is recorded twice. Its abstract value (the view) is
//! the map from entity to recorded position.

use vstd::prelude::*;
use vstd::seq_lib::*;
use crate::grid_transform::GridTransform;

verus! {

/// No two entries carry the same entity.
pub open spec fn distinct_entities(s: Seq<(u64, GridTransform)>) -> bool {
    forall|i: int, j: int| 0 <= i < j < s.len() ==> (#[trigger] s[i]).0 != (#[trigger] s[j]).0
}

/// Some entry carries the entity `e`.
pub open spec fn has_placement(s: Seq<(u64, GridTransform)>, e: u64) -> bool {
    exists|i: int| 0 <= i < s.len() && (#[trigger] s[i]).0 == e
}

/// Index of an entry carrying the entity `e`.
pub open spec fn placement_index(s: Seq<(u64, GridTransform)>, e: u64) -> int {
    choose|i: int| 0 <= i < s.len() && (#[trigger] s[i]).0 == e
}

/// The entity-to-position map that an association list records.
pub open spec fn placements_map(s: Seq<(u64, GridTransform)>) -> Map<u64, GridTransform> {
    Map::new(|e: u64| has_placement(s, e), |e: u64| s[placement_index(s, e)].1)
}

/// No two buckets stand at the same position.
pub open spec fn distinct_positions(bs: Seq<(GridTransform, Vec<u64>)>) -> bool {
    forall|i: int, j: int| 0 <= i < j < bs.len() ==> (#[trigger] bs[i]).0 != (#[trigger] bs[j]).0
}

/// Some bucket stands at position `p`.
pub open spec fn has_bucket(bs: Seq<(GridTransform, Vec<u64>)>, p: GridTransform) -> bool {
    exists|i: int| 0 <= i < bs.len() && (#[trigger] bs[i]).0 == p
}

/// Index of a bucket standing at position `p`.
pub open spec fn bucket_index(bs: Seq<(GridTransform, Vec<u64>)>, p: GridTransform) -> int {
    choose|i: int| 0 <= i < bs.len() && (#[trigger] bs[i]).0 == p
}

/// The entities a bucket list records on tile `p`, in bucket order; empty
/// when no bucket stands there.
pub open spec fn occupants_of(bs: Seq<(GridTransform, Vec<u64>)>, p: GridTransform) -> Seq<u64> {
    if has_bucket(bs, p) {
        bs[bucket_index(bs, p)].1@
    } else {
        Seq::empty()
    }
}

/// Bidirectional map between grid positions and the entities occupying them.
pub struct GridIndex {
    transform_to_entities: Vec<(GridTransform, Vec<u64>)>,
    entity_to_transform: Vec<(u64, GridTransform)>,
}

impl View for GridIndex {
    type V = Map<u64, GridTransform>;

    closed spec fn view(&self) -> Map<u64, GridTransform> {
        placements_map(self.entity_to_transform@)
    }
}

impl GridIndex {
    /// The entities recorded on tile `p`, in bucket order.
    pub closed spec fn occupants(&self, p: GridTransform) -> Seq<u64> {
        occupants_of(self.transform_to_entities@, p)
    }

    /// The internal consistency the index maintains: unique placements,
    /// unique non-empty duplicate-free buckets, and agreement between the
    /// two directions.
    pub closed spec fn wf(&self) -> bool {
        let bs = self.transform_to_entities@;
        let pm = placements_map(self.entity_to_transform@);
        &&& distinct_entities(self.entity_to_transform@)
        &&& distinct_positions(bs)
        &&& forall|q: GridTransform| #[trigger] has_bucket(bs, q) ==> occupants_of(bs, q).len() > 0
        &&& forall|q: GridTransform| (#[trigger] occupants_of(bs, q)).no_duplicates()
        &&& forall|x: u64, q: GridTransform| #[trigger] occupants_of(bs, q).contains(x)
            ==> pm.dom().contains(x) && pm[x] == q
        &&& forall|x: u64| #[trigger] pm.dom().contains(x) ==> occupants_of(bs, pm[x]).contains(x)
    }

    /// An empty index: nothing is placed anywhere.
    pub fn new() -> (r: Self)
        ensures
            r.wf(),
            r@ == Map::<u64, GridTransform>::empty(),
            forall|p: GridTransform| r.occupants(p) == Seq::<u64>::empty(),
    {
        let r = GridIndex { transform_to_entities: Vec::new(), entity_to_transform: Vec::new() };
        proof {
            assert(r@ =~= Map::<u64, GridTransform>::empty());
            assert forall|p: GridTransform| r.occupants(p) == Seq::<u64>::empty() by {
                assert(!has_bucket(r.transform_to_entities@, p));
            }
            assert forall|q: GridTransform| (#[trigger] occupants_of(
                r.transform_to_entities@,
                q,
            )).no_duplicates() by {
                assert(!has_bucket(r.transform_to_entities@, q));
            }
        }
        r
    }

    /// Index within the placement list of the entry carrying `e`, if any.
    fn find_placement(&self, e: u64) -> (r: Option<usize>)
        ensures
            match r {
                Some(i) => i < self.entity_to_transform@.len()
                    && self.entity_to_transform@[i as int].0 == e,
                None => !has_placement(self.entity_to_transform@, e),
            },
    {
        let n = self.entity_to_transform.len();
        let mut i: usize = 0;
        while i < n
            invariant
                i <= n,
                n == self.entity_to_transform@.len(),
                forall|j: int| 0 <= j < i ==> (#[trigger] self.entity_to_transform@[j]).0 != e,
            decreases n - i,
        {
            if self.entity_to_transform[i].0 == e {
                return Some(i);
            }
            i = i + 1;
        }
        None
    }

    /// Index within the bucket list of the bucket standing at `p`, if any.
    fn find_bucket(&self, p: GridTransform) -> (r: Option<usize>)
        ensures
            match r {
                Some(i) => i < self.transform_to_entities@.len()
                    && self.transform_to_entities@[i as int].0 == p,
                None => !has_bucket(self.transform_to_entities@, p),
            },
    {
        let n = self.transform_to_entities.len();
        let mut i: usize = 0;
        while i < n
            invariant
                i <= n,
                n == self.transform_to_entities@.len(),
                forall|j: int| 0 <= j < i ==> (#[trigger] self.transform_to_entities@[j]).0 != p,
            decreases n - i,
        {
            if self.transform_to_entities[i].0 == p {
                return Some(i);
            }
            i = i + 1;
        }
        None
    }

    /// The entities on tile `p`. A tile nobody occupies yields an empty
    /// vector; the result never holds the same entity twice, and holds an
    /// entity exactly when `p` is its recorded position.
    pub fn get(&self, p: GridTransform) -> (r: Vec<u64>)
        requires
            self.wf(),
        ensures
            r@ == self.occupants(p),
            r@.no_duplicates(),
            forall|e: u64| r@.contains(e) <==> self@.dom().contains(e) && self@[e] == p,
    {
        proof {
            self.lemma_occupants_characterization(p);
        }
        match self.find_bucket(p) {
            Some(i) => {
                proof {
                    lemma_bucket_index_of(self.transform_to_entities@, i as int);
                }
                let r = clone_entities(&self.transform_to_entities[i].1);
                r
            },
            None => {
                let r: Vec<u64> = Vec::new();
                proof {
                    assert(r@ =~= Seq::<u64>::empty());
                }
                r
            },
        }
    }

    /// Records `grid_transform` as the position of `entity`, detaching it
    /// from whatever tile it was on before. The one mutating operation of
    /// the index.
    pub fn update(&mut self, entity: u64, grid_transform: GridTransform)
        requires
            old(self).wf(),
        ensures
            final(self).wf(),
            final(self)@ == old(self)@.insert(entity, grid_transform),
            final(self).occupants(grid_transform)
                == old(self).occupants(grid_transform).remove_value(entity).push(entity),
            forall|q: GridTransform| q != grid_transform
                ==> final(self).occupants(q) == old(self).occupants(q).remove_value(entity),
    {
        self.detach(entity);
        self.attach(entity, grid_transform);
        proof {
            assert(self@ =~= old(self)@.insert(entity, grid_transform));
        }
    }

    /// Removes the entity's placement and its bucket entry, if it has any.
    fn detach(&mut self, entity: u64)
        requires
            old(self).wf(),
        ensures
            final(self).wf(),
            final(self)@ == old(self)@.remove(entity),
            forall|q: GridTransform|
                final(self).occupants(q) == old(self).occupants(q).remove_value(entity),
    {
        let ghost ps0 = self.entity_to_transform@;
        let ghost bs0 = self.transform_to_entities@;
        let ghost pm0 = placements_map(ps0);
        match self.find_placement(entity) {
            None => {
                proof {
                    assert(self@ =~= old(self)@.remove(entity));
                    assert forall|q: GridTransform|
                        self.occupants(q) == old(self).occupants(q).remove_value(entity) by {
                        if occupants_of(bs0, q).contains(entity) {
                            assert(pm0.dom().contains(entity));
                        }
                        lemma_remove_value_absent(occupants_of(bs0, q), entity);
                    }
                }
            },
            Some(pi) => {
                proof {
                    lemma_placement_index_of(ps0, pi as int);
                }
                let old_pos = self.entity_to_transform[pi].1;
                self.entity_to_transform.remove(pi);
                proof {
                    lemma_placements_remove(ps0, pi as int);
                    // the entity stands in the bucket at its recorded position
                    assert(pm0.dom().contains(entity) && pm0[entity] == old_pos);
                    assert(occupants_of(bs0, old_pos).contains(entity));
                    assert(has_bucket(bs0, old_pos)) by {
                        if !has_bucket(bs0, old_pos) {
                            assert(occupants_of(bs0, old_pos) == Seq::<u64>::empty());
                        }
                    }
                }
                let bi = match self.find_bucket(old_pos) {
                    Some(bi) => bi,
                    None => {
                        proof {
                            assert(false);
                        }
                        vstd::pervasive::unreached()
                    },
                };
                proof {
                    lemma_bucket_index_of(bs0, bi as int);
                    assert(bs0[bi as int].1@ == occupants_of(bs0, old_pos));
                }
                let newvec = entities_without(&self.transform_to_entities[bi].1, entity);
                let ghost b = bs0[bi as int].1@;
                let ghost k = choose|k: int| 0 <= k < b.len() && b[k] == entity;
                proof {
                    b.remove_ensures(k);
                }
                if newvec.len() == 0 {
                    self.transform_to_entities.remove(bi);
                    proof {
                        lemma_buckets_remove(bs0, bi as int);
                        assert(b.remove_value(entity) =~= Seq::<u64>::empty());
                    }
                } else {
                    let bucket_pos = self.transform_to_entities[bi].0;
                    self.transform_to_entities[bi] = (bucket_pos, newvec);
                    proof {
                        lemma_buckets_update(bs0, bi as int, newvec);
                    }
                }
                proof {
                    let ps1 = self.entity_to_transform@;
                    let bs1 = self.transform_to_entities@;
                    let pm1 = placements_map(ps1);
                    assert(pm1 == pm0.remove(entity));
                    // entity is not what is left of its old bucket
                    assert(!b.remove_value(entity).contains(entity)) by {
                        lemma_remove_value_no_duplicates(b, entity);
                    }
                    // the occupant relation
                    assert forall|q: GridTransform|
                        occupants_of(bs1, q) == occupants_of(bs0, q).remove_value(entity) by {
                        if q != old_pos {
                            assert(occupants_of(bs1, q) == occupants_of(bs0, q));
                            if occupants_of(bs0, q).contains(entity) {
                                assert(pm0[entity] == q);
                            }
                            lemma_remove_value_absent(occupants_of(bs0, q), entity);
                        }
                    }
                    // well-formedness of the result
                    assert forall|q: GridTransform| #[trigger] has_bucket(bs1, q)
                        implies occupants_of(bs1, q).len() > 0 by {
                        let i = bucket_index(bs1, q);
                        lemma_bucket_index_of(bs1, i);
                        if q != old_pos {
                            assert(occupants_of(bs1, q) == occupants_of(bs0, q));
                            assert(has_bucket(bs0, q)) by {
                                if !has_bucket(bs0, q) {
                                    assert(occupants_of(bs0, q) == Seq::<u64>::empty());
                                    assert(occupants_of(bs1, q).len() == 0);
                                    assert(bs1[i].1@.len() == 0);
                                    lemma_no_bucket_no_occupants(bs0, q);
                                }
                            }
                        }
                    }
                    assert forall|q: GridTransform| (#[trigger] occupants_of(bs1, q)).no_duplicates() by {
                        lemma_remove_value_no_duplicates(occupants_of(bs0, q), entity);
                    }
                    assert forall|x: u64, q: GridTransform| #[trigger] occupants_of(bs1, q).contains(x)
                        implies pm1.dom().contains(x) && pm1[x] == q by {
                        lemma_remove_value_contains(occupants_of(bs0, q), entity, x);
                        assert(occupants_of(bs0, q).contains(x));
                        assert(x != entity) by {
                            if x == entity {
                                lemma_remove_value_no_duplicates(occupants_of(bs0, q), entity);
                            }
                        }
                    }
                    assert forall|x: u64| #[trigger] pm1.dom().contains(x)
                        implies occupants_of(bs1, pm1[x]).contains(x) by {
                        assert(x != entity);
                        assert(pm0.dom().contains(x) && pm0[x] == pm1[x]);
                        assert(occupants_of(bs0, pm0[x]).contains(x));
                        lemma_remove_value_keeps_others(occupants_of(bs0, pm0[x]), entity, x);
                    }
                }
            },
        }
    }

    /// Places an entity that currently has no placement onto a tile.
    fn attach(&mut self, entity: u64, p: GridTransform)
        requires
            old(self).wf(),
            !old(self)@.dom().contains(entity),
        ensures
            final(self).wf(),
            final(self)@ == old(self)@.insert(entity, p),
            final(self).occupants(p) == old(self).occupants(p).push(entity),
            forall|q: GridTransform| q != p
                ==> final(self).occupants(q) == old(self).occupants(q),
    {
        let ghost ps0 = self.entity_to_transform@;
        let ghost bs0 = self.transform_to_entities@;
        let ghost pm0 = placements_map(ps0);
        match self.find_bucket(p) {
            Some(bi) => {
                proof {
                    lemma_bucket_index_of(bs0, bi as int);
                }
                let bucket_pos = self.transform_to_entities[bi].0;
                let mut v = clone_entities(&self.transform_to_entities[bi].1);
                v.push(entity);
                self.transform_to_entities[bi] = (bucket_pos, v);
                proof {
                    lemma_buckets_update(bs0, bi as int, v);
                }
            },
            None => {
                let mut v: Vec<u64> = Vec::new();
                v.push(entity);
                self.transform_to_entities.push((p, v));
                proof {
                    lemma_buckets_push(bs0, p, v);
                    assert(v@ =~= occupants_of(bs0, p).push(entity));
                }
            },
        }
        self.entity_to_transform.push((entity, p));
        proof {
            lemma_placements_push(ps0, entity, p);
            let ps1 = self.entity_to_transform@;
            let bs1 = self.transform_to_entities@;
            let pm1 = placements_map(ps1);
            assert(pm1 == pm0.insert(entity, p));
            assert(occupants_of(bs1, p) == occupants_of(bs0, p).push(entity));
            // the entity was in no bucket before
            assert forall|q: GridTransform| !(#[trigger] occupants_of(bs0, q).contains(entity)) by {
                if occupants_of(bs0, q).contains(entity) {
                    assert(pm0.dom().contains(entity));
                }
            }
            // well-formedness of the result
            assert forall|q: GridTransform| #[trigger] has_bucket(bs1, q)
                implies occupants_of(bs1, q).len() > 0 by {
                if q != p {
                    assert(occupants_of(bs1, q) == occupants_of(bs0, q));
                    if !has_bucket(bs0, q) {
                        assert(occupants_of(bs0, q) == Seq::<u64>::empty());
                        lemma_no_bucket_no_occupants(bs0, q);
                    }
                }
            }
            assert forall|q: GridTransform| (#[trigger] occupants_of(bs1, q)).no_duplicates() by {
                if q == p {
                    let s0 = occupants_of(bs0, p);
                    let s1 = occupants_of(bs1, p);
                    assert(s1 == s0.push(entity));
                    assert(!s0.contains(entity));
                    assert forall|i: int, j: int|
                        0 <= i < s1.len() && 0 <= j < s1.len() && i != j
                        implies s1[i] != s1[j] by {
                        if i < s0.len() && j < s0.len() {
                            assert(s1[i] == s0[i] && s1[j] == s0[j]);
                        } else if i < s0.len() {
                            assert(s1[j] == entity && s1[i] == s0[i]);
                            assert(s0.contains(s0[i]));
                        } else {
                            assert(s1[i] == entity && s1[j] == s0[j]);
                            assert(s0.contains(s0[j]));
                        }
                    }
                } else {
                    assert(occupants_of(bs1, q) == occupants_of(bs0, q));
                }
            }
            assert forall|x: u64, q: GridTransform| #[trigger] occupants_of(bs1, q).contains(x)
                implies pm1.dom().contains(x) && pm1[x] == q by {
                if q == p {
                    let s0 = occupants_of(bs0, p);
                    let i = choose|i: int| 0 <= i < s0.push(entity).len() && s0.push(entity)[i] == x;
                    if i < s0.len() {
                        assert(s0.contains(x));
                    } else {
                        assert(x == entity);
                    }
                } else {
                    assert(occupants_of(bs0, q).contains(x));
                    assert(x != entity);
                }
            }
            assert forall|x: u64| #[trigger] pm1.dom().contains(x)
                implies occupants_of(bs1, pm1[x]).contains(x) by {
                if x == entity {
                    let s1 = occupants_of(bs1, p);
                    assert(s1 == occupants_of(bs0, p).push(entity));
                    assert(s1[s1.len() - 1] == entity);
                } else {
                    assert(pm0.dom().contains(x) && pm0[x] == pm1[x]);
                    assert(occupants_of(bs0, pm0[x]).contains(x));
                    if pm0[x] == p {
                        let s0 = occupants_of(bs0, p);
                        let i = choose|i: int| 0 <= i < s0.len() && s0[i] == x;
                        assert(s0.push(entity)[i] == x);
                    }
                }
            }
            assert(self@ =~= old(self)@.insert(entity, p));
        }
    }

    /// On a well-formed index, the entities a tile holds are exactly those
    /// whose recorded position is that tile, each held once.
    pub proof fn lemma_occupants_characterization(&self, p: GridTransform)
        requires
            self.wf(),
        ensures
            self.occupants(p).no_duplicates(),
            forall|e: u64| self.occupants(p).contains(e)
                <==> self@.dom().contains(e) && self@[e] == p,
    {
    }
}

/// Updating an entity twice in a row with the same position leaves the index
/// in the same observable state as updating it once: the recorded placements
/// and the occupants of every tile are unchanged by the second update.
///
/// The three index values stand for the states before the first update,
/// between the updates, and after the second; the premises are exactly what
/// `update` ensures of each step.
pub proof fn lemma_update_idempotent(
    pre: GridIndex,
    once: GridIndex,
    twice: GridIndex,
    e: u64,
    p: GridTransform,
)
    requires
        pre.wf(),
        once.wf(),
        once@ == pre@.insert(e, p),
        once.occupants(p) == pre.occupants(p).remove_value(e).push(e),
        forall|q: GridTransform| q != p ==> once.occupants(q) == pre.occupants(q).remove_value(e),
        twice.wf(),
        twice@ == once@.insert(e, p),
        twice.occupants(p) == once.occupants(p).remove_value(e).push(e),
        forall|q: GridTransform| q != p
            ==> twice.occupants(q) == once.occupants(q).remove_value(e),
    ensures
        twice@ == once@,
        forall|q: GridTransform| twice.occupants(q) == once.occupants(q),
{
    assert(twice@ =~= once@);
    let s = pre.occupants(p).remove_value(e);
    pre.lemma_occupants_characterization(p);
    lemma_remove_value_no_duplicates(pre.occupants(p), e);
    if !pre.occupants(p).contains(e) {
        lemma_remove_value_absent(pre.occupants(p), e);
    }
    assert(!s.contains(e));
    assert forall|j: int| 0 <= j < s.len() implies s.push(e)[j] != e by {
        assert(s.push(e)[j] == s[j]);
        if s[j] == e {
            assert(s.contains(e));
        }
    }
    assert(s.push(e)[s.len() as int] == e);
    lemma_remove_value_first(s.push(e), e, s.len() as int);
    s.push(e).remove_ensures(s.len() as int);
    assert(s.push(e).remove(s.len() as int) =~= s);
    assert(twice.occupants(p) == once.occupants(p));
    assert forall|q: GridTransform| twice.occupants(q) == once.occupants(q) by {
        if q != p {
            once.lemma_occupants_characterization(q);
            assert(!once.occupants(q).contains(e)) by {
                if once.occupants(q).contains(e) {
                    assert(once@[e] == q);
                }
            }
            lemma_remove_value_absent(once.occupants(q), e);
        }
    }
}

/// A copy of a bucket's entity list.
fn clone_entities(v: &Vec<u64>) -> (r: Vec<u64>)
    ensures
        r@ == v@,
{
    let r = v.clone();
    proof {
        assert forall|i: int| 0 <= i < v@.len() implies r@[i] == v@[i] by {
            assert(cloned::<u64>(v@[i], r@[i]));
        }
        assert(r@ =~= v@);
    }
    r
}

/// A copy of a bucket's entity list without the first occurrence of `e`.
fn entities_without(v: &Vec<u64>, e: u64) -> (r: Vec<u64>)
    ensures
        r@ == v@.remove_value(e),
{
    let n = v.len();
    let mut i: usize = 0;
    while i < n
        invariant
            i <= n,
            n == v@.len(),
            forall|j: int| 0 <= j < i ==> v@[j] != e,
        decreases n - i,
    {
        if v[i] == e {
            let mut r = clone_entities(v);
            r.remove(i);
            proof {
                lemma_remove_value_first(v@, e, i as int);
            }
            return r;
        }
        i = i + 1;
    }
    proof {
        assert(!v@.contains(e));
        lemma_remove_value_absent(v@, e);
    }
    clone_entities(v)
}

/// On a list with distinct entities, the placement index of the entity of
/// entry `i` is `i` itself.
proof fn lemma_placement_index_of(s: Seq<(u64, GridTransform)>, i: int)
    requires
        distinct_entities(s),
        0 <= i < s.len(),
    ensures
        has_placement(s, s[i].0),
        placement_index(s, s[i].0) == i,
{
    assert(has_placement(s, s[i].0));
    let j = placement_index(s, s[i].0);
    assert(0 <= j < s.len() && s[j].0 == s[i].0);
    if i < j {
        assert(s[i].0 != s[j].0);
    } else if j < i {
        assert(s[j].0 != s[i].0);
    }
}

/// On a list with distinct positions, the bucket index of the position of
/// bucket `i` is `i` itself.
proof fn lemma_bucket_index_of(bs: Seq<(GridTransform, Vec<u64>)>, i: int)
    requires
        distinct_positions(bs),
        0 <= i < bs.len(),
    ensures
        has_bucket(bs, bs[i].0),
        bucket_index(bs, bs[i].0) == i,
        occupants_of(bs, bs[i].0) == bs[i].1@,
{
    assert(has_bucket(bs, bs[i].0));
    let j = bucket_index(bs, bs[i].0);
    assert(0 <= j < bs.len() && bs[j].0 == bs[i].0);
    if i < j {
        assert(bs[i].0 != bs[j].0);
    } else if j < i {
        assert(bs[j].0 != bs[i].0);
    }
}

/// A tile without a bucket has no occupants.
proof fn lemma_no_bucket_no_occupants(bs: Seq<(GridTransform, Vec<u64>)>, q: GridTransform)
    requires
        !has_bucket(bs, q),
    ensures
        occupants_of(bs, q) == Seq::<u64>::empty(),
{
}

/// Removing entry `i` from a distinct-entity list removes exactly its entity
/// from the recorded map.
proof fn lemma_placements_remove(ps: Seq<(u64, GridTransform)>, i: int)
    requires
        distinct_entities(ps),
        0 <= i < ps.len(),
    ensures
        distinct_entities(ps.remove(i)),
        !has_placement(ps.remove(i), ps[i].0),
        placements_map(ps.remove(i)) == placements_map(ps).remove(ps[i].0),
{
    let ps1 = ps.remove(i);
    ps.remove_ensures(i);
    assert forall|a: int, b: int| 0 <= a < b < ps1.len()
        implies (#[trigger] ps1[a]).0 != (#[trigger] ps1[b]).0 by {
        let a0: int = if a < i { a } else { a + 1 };
        let b0: int = if b < i { b } else { b + 1 };
        assert(ps1[a] == ps[a0] && ps1[b] == ps[b0]);
    }
    assert forall|j: int| 0 <= j < ps1.len() implies (#[trigger] ps1[j]).0 != ps[i].0 by {
        let j0: int = if j < i { j } else { j + 1 };
        assert(ps1[j] == ps[j0]);
        if j0 < i {
            assert(ps[j0].0 != ps[i].0);
        } else {
            assert(ps[i].0 != ps[j0].0);
        }
    }
    assert forall|x: u64| x != ps[i].0
        implies has_placement(ps1, x) == has_placement(ps, x) by {
        if has_placement(ps1, x) {
            let j = choose|j: int| 0 <= j < ps1.len() && (#[trigger] ps1[j]).0 == x;
            let j0: int = if j < i { j } else { j + 1 };
            assert(ps[j0].0 == x);
            assert(has_placement(ps, x));
        }
        if has_placement(ps, x) {
            let j0 = choose|j: int| 0 <= j < ps.len() && (#[trigger] ps[j]).0 == x;
            let j: int = if j0 < i { j0 } else { j0 - 1 };
            assert(ps1[j].0 == x);
            assert(has_placement(ps1, x));
        }
    }
    assert forall|x: u64| has_placement(ps1, x) implies ps1[placement_index(ps1, x)].1
        == ps[placement_index(ps, x)].1 by {
        let j = placement_index(ps1, x);
        assert(0 <= j < ps1.len() && ps1[j].0 == x);
        let j0: int = if j < i { j } else { j + 1 };
        assert(ps1[j] == ps[j0]);
        lemma_placement_index_of(ps, j0);
    }
    assert(placements_map(ps1) =~= placements_map(ps).remove(ps[i].0));
}

/// Appending a fresh entity records exactly one more placement.
proof fn lemma_placements_push(ps: Seq<(u64, GridTransform)>, e: u64, p: GridTransform)
    requires
        distinct_entities(ps),
        !has_placement(ps, e),
    ensures
        distinct_entities(ps.push((e, p))),
        placements_map(ps.push((e, p))) == placements_map(ps).insert(e, p),
{
    let ps1 = ps.push((e, p));
    assert forall|a: int, b: int| 0 <= a < b < ps1.len()
        implies (#[trigger] ps1[a]).0 != (#[trigger] ps1[b]).0 by {
        if b < ps.len() {
            assert(ps1[a] == ps[a] && ps1[b] == ps[b]);
        } else {
            assert(ps1[b] == (e, p) && ps1[a] == ps[a]);
            if ps[a].0 == e {
                assert(has_placement(ps, e));
            }
        }
    }
    assert forall|x: u64| x != e
        implies has_placement(ps1, x) == has_placement(ps, x) by {
        if has_placement(ps1, x) {
            let j = choose|j: int| 0 <= j < ps1.len() && (#[trigger] ps1[j]).0 == x;
            if j < ps.len() {
                assert(ps[j].0 == x);
            }
            assert(has_placement(ps, x));
        }
        if has_placement(ps, x) {
            let j = choose|j: int| 0 <= j < ps.len() && (#[trigger] ps[j]).0 == x;
            assert(ps1[j].0 == x);
        }
    }
    assert(ps1[ps.len() as int].0 == e);
    assert(has_placement(ps1, e));
    lemma_placement_index_of(ps1, ps.len() as int);
    assert forall|x: u64| x != e && has_placement(ps, x)
        implies ps1[placement_index(ps1, x)].1 == ps[placement_index(ps, x)].1 by {
        let j = placement_index(ps, x);
        assert(0 <= j < ps.len() && ps[j].0 == x);
        assert(ps1[j] == ps[j]);
        lemma_placement_index_of(ps1, j);
    }
    assert(placements_map(ps1) =~= placements_map(ps).insert(e, p));
}

/// Replacing the contents of one bucket, keeping its position, changes the
/// occupants of that position alone.
proof fn lemma_buckets_update(bs: Seq<(GridTransform, Vec<u64>)>, i: int, v: Vec<u64>)
    requires
        distinct_positions(bs),
        0 <= i < bs.len(),
    ensures
        distinct_positions(bs.update(i, (bs[i].0, v))),
        occupants_of(bs.update(i, (bs[i].0, v)), bs[i].0) == v@,
        forall|q: GridTransform| q != bs[i].0
            ==> occupants_of(bs.update(i, (bs[i].0, v)), q) == occupants_of(bs, q)
                && has_bucket(bs.update(i, (bs[i].0, v)), q) == has_bucket(bs, q),
{
    let bs1 = bs.update(i, (bs[i].0, v));
    assert forall|a: int, b: int| 0 <= a < b < bs1.len()
        implies (#[trigger] bs1[a]).0 != (#[trigger] bs1[b]).0 by {
        assert(bs1[a].0 == bs[a].0 && bs1[b].0 == bs[b].0);
    }
    assert(bs1[i].0 == bs[i].0);
    lemma_bucket_index_of(bs1, i);
    assert forall|q: GridTransform| q != bs[i].0
        implies occupants_of(bs1, q) == occupants_of(bs, q)
            && has_bucket(bs1, q) == has_bucket(bs, q) by {
        if has_bucket(bs1, q) {
            let j = bucket_index(bs1, q);
            assert(0 <= j < bs1.len() && bs1[j].0 == q);
            assert(j != i);
            assert(bs[j].0 == q);
            assert(has_bucket(bs, q));
        }
        if has_bucket(bs, q) {
            let j = bucket_index(bs, q);
            assert(0 <= j < bs.len() && bs[j].0 == q);
            assert(j != i);
            assert(bs1[j].0 == q);
            assert(has_bucket(bs1, q));
            lemma_bucket_index_of(bs, j);
            lemma_bucket_index_of(bs1, j);
            assert(occupants_of(bs1, q) == bs1[j].1@);
            assert(occupants_of(bs, q) == bs[j].1@);
        }
    }
}

/// Removing one bucket empties the occupants of its position and changes no
/// other.
proof fn lemma_buckets_remove(bs: Seq<(GridTransform, Vec<u64>)>, i: int)
    requires
        distinct_positions(bs),
        0 <= i < bs.len(),
    ensures
        distinct_positions(bs.remove(i)),
        !has_bucket(bs.remove(i), bs[i].0),
        occupants_of(bs.remove(i), bs[i].0) == Seq::<u64>::empty(),
        forall|q: GridTransform| q != bs[i].0
            ==> occupants_of(bs.remove(i), q) == occupants_of(bs, q)
                && has_bucket(bs.remove(i), q) == has_bucket(bs, q),
{
    let bs1 = bs.remove(i);
    bs.remove_ensures(i);
    assert forall|a: int, b: int| 0 <= a < b < bs1.len()
        implies (#[trigger] bs1[a]).0 != (#[trigger] bs1[b]).0 by {
        let a0: int = if a < i { a } else { a + 1 };
        let b0: int = if b < i { b } else { b + 1 };
        assert(bs1[a] == bs[a0] && bs1[b] == bs[b0]);
    }
    assert forall|j: int| 0 <= j < bs1.len() implies (#[trigger] bs1[j]).0 != bs[i].0 by {
        let j0: int = if j < i { j } else { j + 1 };
        assert(bs1[j] == bs[j0]);
        if j0 < i {
            assert(bs[j0].0 != bs[i].0);
        } else {
            assert(bs[i].0 != bs[j0].0);
        }
    }
    assert(!has_bucket(bs1, bs[i].0));
    assert forall|q: GridTransform| q != bs[i].0
        implies occupants_of(bs1, q) == occupants_of(bs, q)
            && has_bucket(bs1, q) == has_bucket(bs, q) by {
        if has_bucket(bs1, q) {
            let j = bucket_index(bs1, q);
            assert(0 <= j < bs1.len() && bs1[j].0 == q);
            let j0: int = if j < i { j } else { j + 1 };
            assert(bs1[j] == bs[j0]);
            assert(has_bucket(bs, q));
            lemma_bucket_index_of(bs, j0);
            lemma_bucket_index_of(bs1, j);
        } else if has_bucket(bs, q) {
            let j0 = bucket_index(bs, q);
            assert(0 <= j0 < bs.len() && bs[j0].0 == q);
            assert(j0 != i);
            let j: int = if j0 < i { j0 } else { j0 - 1 };
            assert(bs1[j] == bs[j0]);
            assert(has_bucket(bs1, q));
        }
    }
}

/// Appending a bucket at a fresh position adds its occupants there and
/// changes no other position.
proof fn lemma_buckets_push(bs: Seq<(GridTransform, Vec<u64>)>, p: GridTransform, v: Vec<u64>)
    requires
        distinct_positions(bs),
        !has_bucket(bs, p),
    ensures
        distinct_positions(bs.push((p, v))),
        has_bucket(bs.push((p, v)), p),
        occupants_of(bs.push((p, v)), p) == v@,
        forall|q: GridTransform| q != p
            ==> occupants_of(bs.push((p, v)), q) == occupants_of(bs, q)
                && has_bucket(bs.push((p, v)), q) == has_bucket(bs, q),
{
    let bs1 = bs.push((p, v));
    assert forall|a: int, b: int| 0 <= a < b < bs1.len()
        implies (#[trigger] bs1[a]).0 != (#[trigger] bs1[b]).0 by {
        if b < bs.len() {
            assert(bs1[a] == bs[a] && bs1[b] == bs[b]);
        } else {
            assert(bs1[b] == (p, v) && bs1[a] == bs[a]);
            if bs[a].0 == p {
                assert(has_bucket(bs, p));
            }
        }
    }
    assert(bs1[bs.len() as int].0 == p);
    assert(has_bucket(bs1, p));
    lemma_bucket_index_of(bs1, bs.len() as int);
    assert forall|q: GridTransform| q != p
        implies occupants_of(bs1, q) == occupants_of(bs, q)
            && has_bucket(bs1, q) == has_bucket(bs, q) by {
        if has_bucket(bs1, q) {
            let j = bucket_index(bs1, q);
            assert(0 <= j < bs1.len() && bs1[j].0 == q);
            assert(j != bs.len());
            assert(bs[j].0 == q);
            assert(has_bucket(bs, q));
            lemma_bucket_index_of(bs, j);
            lemma_bucket_index_of(bs1, j);
        } else if has_bucket(bs, q) {
            let j = bucket_index(bs, q);
            assert(bs1[j].0 == q);
            assert(has_bucket(bs1, q));
        }
    }
}

/// Removing a value that is not there changes nothing.
proof fn lemma_remove_value_absent(s: Seq<u64>, e: u64)
    requires
        !s.contains(e),
    ensures
        s.remove_value(e) == s,
{
    s.index_of_first_ensures(e);
}

/// Removing the value found first at index `k` removes exactly entry `k`.
proof fn lemma_remove_value_first(s: Seq<u64>, e: u64, k: int)
    requires
        0 <= k < s.len(),
        s[k] == e,
        forall|j: int| 0 <= j < k ==> s[j] != e,
    ensures
        s.remove_value(e) == s.remove(k),
{
    assert(s.contains(e));
    s.index_of_first_ensures(e);
    let i = s.index_of_first(e)->Some_0;
    if i < k {
        assert(s[i] != e);
    } else if k < i {
        assert(s[k] != e);
    }
}

/// What removing a value leaves is duplicate-free when the sequence was, and
/// then no longer holds the value.
proof fn lemma_remove_value_no_duplicates(s: Seq<u64>, e: u64)
    requires
        s.no_duplicates(),
    ensures
        s.remove_value(e).no_duplicates(),
        s.contains(e) ==> !s.remove_value(e).contains(e),
{
    s.index_of_first_ensures(e);
    if s.contains(e) {
        let k = s.index_of_first(e)->Some_0;
        let s1 = s.remove(k);
        s.remove_ensures(k);
        assert forall|a: int, b: int|
            0 <= a < s1.len() && 0 <= b < s1.len() && a != b
            implies s1[a] != s1[b] by {
            let a0: int = if a < k { a } else { a + 1 };
            let b0: int = if b < k { b } else { b + 1 };
            assert(s1[a] == s[a0] && s1[b] == s[b0]);
        }
        assert forall|a: int| 0 <= a < s1.len() implies s1[a] != e by {
            let a0: int = if a < k { a } else { a + 1 };
            assert(s1[a] == s[a0]);
            assert(a0 != k);
            assert(s[a0] != s[k]);
        }
        if s1.contains(e) {
            let a = choose|a: int| 0 <= a < s1.len() && s1[a] == e;
            assert(s1[a] != e);
        }
    }
}

/// Whatever removing a value leaves was already there.
proof fn lemma_remove_value_contains(s: Seq<u64>, e: u64, x: u64)
    requires
        s.remove_value(e).contains(x),
    ensures
        s.contains(x),
{
    s.index_of_first_ensures(e);
    if s.contains(e) {
        let k = s.index_of_first(e)->Some_0;
        s.remove_ensures(k);
        let s1 = s.remove(k);
        let a = choose|a: int| 0 <= a < s1.len() && s1[a] == x;
        let a0: int = if a < k { a } else { a + 1 };
        assert(s1[a] == s[a0]);
    }
}

/// Removing one value keeps every other value.
proof fn lemma_remove_value_keeps_others(s: Seq<u64>, e: u64, x: u64)
    requires
        s.contains(x),
        x != e,
    ensures
        s.remove_value(e).contains(x),
{
    s.index_of_first_ensures(e);
    if s.contains(e) {
        let k = s.index_of_first(e)->Some_0;
        s.remove_ensures(k);
        let s1 = s.remove(k);
        let a0 = choose|a0: int| 0 <= a0 < s.len() && s[a0] == x;
        assert(a0 != k);
        if a0 < k {
            assert(s1[a0] == s[a0]);
            assert(s1.contains(x));
        } else {
            assert(s1[a0 - 1] == s[a0]);
            assert(s1.contains(x));
        }
    }
}

} // verus!
