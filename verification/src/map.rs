//! The map-transition state machine and spawn-marker resolution.
//!
//! Exits queue change requests; once the player's movement cooldown clears,
//! the most recent request wins, everything older in the queue is discarded,
//! and the swap begins: the caller despawns the old content, the current map
//! and spawn identifiers are replaced, and two flags drive the cross-fade —
//! "map changed since last move" and "map and player loading". The fade
//! level itself is a pure function of those flags and the cooldown's elapsed
//! fraction, in per-mille.

use vstd::prelude::*;
use crate::cooldown::MovementCooldown;
use crate::grid_transform::GridTransform;
use crate::mob::TriggerOnMoveOntoEvent;

verus! {

/// Raw fade levels below this scale up to full; at or above it they clamp.
pub const FADE_THRESHOLD_PERMILLE: u32 = 800;

/// A request to swap the world to another map, entering at a named spawn.
#[derive(Debug)]
pub struct ChangeMapEvent {
    pub map: String,
    pub spawn: String,
}

impl View for ChangeMapEvent {
    type V = (Seq<char>, Seq<char>);

    open spec fn view(&self) -> (Seq<char>, Seq<char>) {
        (self.map@, self.spawn@)
    }
}

/// The pending change requests, oldest first. Only the newest ever takes
/// effect.
#[derive(Debug)]
pub struct ChangeMapQueue(pub Vec<ChangeMapEvent>);

impl View for ChangeMapQueue {
    type V = Seq<(Seq<char>, Seq<char>)>;

    open spec fn view(&self) -> Seq<(Seq<char>, Seq<char>)> {
        self.0@.map_values(|ev: ChangeMapEvent| ev@)
    }
}

impl Default for ChangeMapQueue {
    fn default() -> (r: Self)
        ensures
            r.0@ == Seq::<ChangeMapEvent>::empty(),
    {
        ChangeMapQueue(Vec::new())
    }
}

impl ChangeMapQueue {
    /// Appends a change request. It cancels nothing by itself; older
    /// requests are discarded only when a change resolves.
    pub fn request_change(&mut self, event: ChangeMapEvent)
        ensures
            final(self).0@ == old(self).0@.push(event),
            final(self)@ == old(self)@.push((event.map@, event.spawn@)),
    {
        self.0.push(event);
        proof {
            assert(self@ =~= old(self)@.push((event.map@, event.spawn@)));
        }
    }
}

/// Identifier of the currently loaded map, unset before the first load.
#[derive(Debug)]
pub struct CurrentMap(pub Option<String>);

impl Default for CurrentMap {
    fn default() -> (r: Self)
        ensures
            r.0 matches Option::<String>::None,
    {
        CurrentMap(None)
    }
}

/// Name of the spawn point the player entered the current map by, unset
/// before the first load.
#[derive(Debug)]
pub struct CurrentSpawn(pub Option<String>);

impl Default for CurrentSpawn {
    fn default() -> (r: Self)
        ensures
            r.0 matches Option::<String>::None,
    {
        CurrentSpawn(None)
    }
}

/// Whether the map has changed since the player's last resolved move; it
/// drives the fade-in after a swap.
#[derive(Clone, Copy, Debug, PartialEq, Eq, Structural)]
pub struct MapChangedSinceMove(pub bool);

impl Default for MapChangedSinceMove {
    fn default() -> (r: Self)
        ensures
            r.0 == false,
    {
        MapChangedSinceMove(false)
    }
}

/// Whether the new map and player are still loading; it keeps the screen
/// covered until spawn resolution places the player.
#[derive(Clone, Copy, Debug, PartialEq, Eq, Structural)]
pub struct MapAndPlayerLoading(pub bool);

impl Default for MapAndPlayerLoading {
    fn default() -> (r: Self)
        ensures
            r.0 == false,
    {
        MapAndPlayerLoading(false)
    }
}

/// Whether a queued map change may resolve now: it must wait for the
/// player's movement cooldown, and waits for nothing when no player exists
/// yet.
pub open spec fn change_gate_open(player_cooldown: Option<MovementCooldown>) -> bool {
    match player_cooldown {
        Some(c) => c.0.spec_finished(),
        None => true,
    }
}

/// Resolves the pending map-change queue.
///
/// Nothing happens while the queue is empty or the mover is still cooling
/// down. Otherwise the most recent request — and only it, all earlier
/// requests are discarded — takes effect: it is returned for the caller to despawn the
/// old content and spawn the new map, the current map and spawn identifiers
/// take its values, both fade flags are raised, and the queue is cleared.
pub fn change_map(
    queue: &mut ChangeMapQueue,
    current_map: &mut CurrentMap,
    current_spawn: &mut CurrentSpawn,
    map_changed: &mut MapChangedSinceMove,
    loading: &mut MapAndPlayerLoading,
    player_cooldown: Option<MovementCooldown>,
) -> (selected: Option<ChangeMapEvent>)
    ensures
        old(queue).0@.len() > 0 && change_gate_open(player_cooldown) ==> {
            &&& selected matches Some(ev) && ev == old(queue).0@.last()
            &&& final(queue).0@ == Seq::<ChangeMapEvent>::empty()
            &&& final(current_map).0 matches Some(m) && m@ == old(queue)@.last().0
            &&& final(current_spawn).0 matches Some(s) && s@ == old(queue)@.last().1
            &&& final(map_changed).0 == true
            &&& final(loading).0 == true
        },
        !(old(queue).0@.len() > 0 && change_gate_open(player_cooldown)) ==> {
            &&& selected matches Option::<ChangeMapEvent>::None
            &&& *final(queue) == *old(queue)
            &&& *final(current_map) == *old(current_map)
            &&& *final(current_spawn) == *old(current_spawn)
            &&& *final(map_changed) == *old(map_changed)
            &&& *final(loading) == *old(loading)
        },
{
    if queue.0.len() == 0 {
        return None;
    }
    let gate_open = match player_cooldown {
        Some(c) => c.0.finished(),
        None => true,
    };
    if !gate_open {
        return None;
    }
    let event = match queue.0.pop() {
        Some(ev) => ev,
        None => {
            proof {
                assert(false);
            }
            vstd::pervasive::unreached()
        },
    };
    queue.0.clear();
    current_map.0 = Some(event.map.clone());
    current_spawn.0 = Some(event.spawn.clone());
    map_changed.0 = true;
    loading.0 = true;
    proof {
        assert(old(queue).0@.last() == event);
        assert(old(queue)@[old(queue)@.len() - 1] == event@);
    }
    Some(event)
}

/// Clears the changed-since-move flag once the player's cooldown has
/// finished and loading is over; while no player exists the flag stays
/// raised.
pub fn update_map_changed(
    map_changed: &mut MapChangedSinceMove,
    loading: &MapAndPlayerLoading,
    player_cooldown: Option<MovementCooldown>,
)
    ensures
        final(map_changed).0 == match player_cooldown {
            Some(c) => if c.0.spec_finished() && !loading.0 {
                false
            } else {
                old(map_changed).0
            },
            None => true,
        },
{
    match player_cooldown {
        Some(c) => {
            if c.0.finished() && !loading.0 {
                map_changed.0 = false;
            }
        },
        None => {
            map_changed.0 = true;
        },
    }
}

/// The fade level before rescaling, in per-mille, by the priority table:
/// with a change pending the cover follows the cooldown up to opaque; after
/// a swap it follows the cooldown back down; at rest it is clear. Loading,
/// or the lack of a mover, covers fully.
pub open spec fn raw_alpha_permille(
    queue_empty: bool,
    map_changed: bool,
    loading: bool,
    player_cooldown: Option<MovementCooldown>,
) -> int {
    if !queue_empty {
        if loading {
            1000
        } else {
            match player_cooldown {
                Some(c) => c.0.spec_fraction_permille(),
                None => 1000,
            }
        }
    } else if map_changed {
        if loading {
            1000
        } else {
            match player_cooldown {
                Some(c) => 1000 - c.0.spec_fraction_permille(),
                None => 1000,
            }
        }
    } else {
        0
    }
}

/// Rescaling of the raw fade level: levels below the threshold stretch over
/// the full range, the rest clamp to opaque.
pub open spec fn scaled_alpha_permille(raw: int) -> int {
    if raw < FADE_THRESHOLD_PERMILLE {
        raw * 1000 / FADE_THRESHOLD_PERMILLE as int
    } else {
        1000
    }
}

/// The fade cover level for one frame, in per-mille of full opacity.
pub fn transition_alpha(
    queue_empty: bool,
    map_changed: bool,
    loading: bool,
    player_cooldown: Option<MovementCooldown>,
) -> (alpha_permille: u32)
    requires
        player_cooldown matches Some(c) ==> c.0.wf(),
    ensures
        alpha_permille == scaled_alpha_permille(
            raw_alpha_permille(queue_empty, map_changed, loading, player_cooldown),
        ),
        alpha_permille <= 1000,
{
    let raw: u32 = if !queue_empty {
        if loading {
            1000
        } else {
            match player_cooldown {
                Some(c) => c.0.fraction_permille(),
                None => 1000,
            }
        }
    } else if map_changed {
        if loading {
            1000
        } else {
            match player_cooldown {
                Some(c) => 1000 - c.0.fraction_permille(),
                None => 1000,
            }
        }
    } else {
        0
    };
    if raw < FADE_THRESHOLD_PERMILLE {
        proof {
            vstd::arithmetic::div_mod::lemma_div_is_ordered(
                raw * 1000,
                (799 * 1000) as int,
                FADE_THRESHOLD_PERMILLE as int,
            );
        }
        (raw * 1000) / FADE_THRESHOLD_PERMILLE
    } else {
        1000
    }
}

/// Exit content: stepping onto it sends the player to this map and spawn.
#[derive(Debug)]
pub struct ExitData {
    pub map: String,
    pub spawn: String,
}

/// Some entry carries exit data for entity `e`.
pub open spec fn has_exit(exits: Seq<(u64, ExitData)>, e: u64) -> bool {
    exists|i: int| 0 <= i < exits.len() && (#[trigger] exits[i]).0 == e
}

/// Index of an entry carrying exit data for entity `e`.
pub open spec fn exit_index(exits: Seq<(u64, ExitData)>, e: u64) -> int {
    choose|i: int| 0 <= i < exits.len() && (#[trigger] exits[i]).0 == e
}

/// The change requests (as view pairs of map and spawn name) that a batch of
/// move-onto trigger events queues: one per event in which the player
/// stepped onto an exit, in event order.
pub open spec fn exit_requests(
    events: Seq<TriggerOnMoveOntoEvent>,
    player: u64,
    exits: Seq<(u64, ExitData)>,
) -> Seq<(Seq<char>, Seq<char>)>
    decreases events.len(),
{
    if events.len() == 0 {
        Seq::empty()
    } else {
        let rest = exit_requests(events.drop_last(), player, exits);
        let ev = events.last();
        if ev.moved == player && has_exit(exits, ev.triggered) {
            let exit = exits[exit_index(exits, ev.triggered)].1;
            rest.push((exit.map@, exit.spawn@))
        } else {
            rest
        }
    }
}

/// Finds the exit data of entity `e` among the given entries.
fn find_exit<'a>(exits: &'a Vec<(u64, ExitData)>, e: u64) -> (r: Option<&'a ExitData>)
    requires
        forall|i: int, j: int| 0 <= i < j < exits@.len()
            ==> (#[trigger] exits@[i]).0 != (#[trigger] exits@[j]).0,
    ensures
        match r {
            Some(exit) => has_exit(exits@, e) && *exit == exits@[exit_index(exits@, e)].1,
            None => !has_exit(exits@, e),
        },
{
    let n = exits.len();
    let mut i: usize = 0;
    while i < n
        invariant
            i <= n,
            n == exits@.len(),
            forall|a: int, b: int| 0 <= a < b < exits@.len()
                ==> (#[trigger] exits@[a]).0 != (#[trigger] exits@[b]).0,
            forall|j: int| 0 <= j < i ==> (#[trigger] exits@[j]).0 != e,
        decreases n - i,
    {
        if exits[i].0 == e {
            proof {
                assert(has_exit(exits@, e));
                let k = exit_index(exits@, e);
                if k < i {
                    assert(exits@[k].0 != exits@[i as int].0);
                } else if i < k {
                    assert(exits@[i as int].0 != exits@[k].0);
                }
            }
            return Some(&exits[i].1);
        }
        i = i + 1;
    }
    None
}

/// Turns each move-onto trigger in which the player stepped onto an exit
/// into a queued change request toward that exit's map and spawn, in event
/// order. Other triggers queue nothing.
pub fn map_exits(
    events: &Vec<TriggerOnMoveOntoEvent>,
    player: u64,
    exits: &Vec<(u64, ExitData)>,
    queue: &mut ChangeMapQueue,
)
    requires
        forall|i: int, j: int| 0 <= i < j < exits@.len()
            ==> (#[trigger] exits@[i]).0 != (#[trigger] exits@[j]).0,
    ensures
        final(queue)@ == old(queue)@ + exit_requests(events@, player, exits@),
{
    let n = events.len();
    let mut i: usize = 0;
    while i < n
        invariant
            i <= n,
            n == events@.len(),
            forall|a: int, b: int| 0 <= a < b < exits@.len()
                ==> (#[trigger] exits@[a]).0 != (#[trigger] exits@[b]).0,
            queue@ == old(queue)@ + exit_requests(events@.subrange(0, i as int), player, exits@),
        decreases n - i,
    {
        proof {
            let pre = events@.subrange(0, i as int);
            let cur = events@.subrange(0, i + 1);
            assert(cur.drop_last() =~= pre);
            assert(cur.last() == events@[i as int]);
        }
        let event = events[i];
        if event.moved == player {
            match find_exit(exits, event.triggered) {
                Some(exit) => {
                    queue.request_change(
                        ChangeMapEvent { map: exit.map.clone(), spawn: exit.spawn.clone() },
                    );
                },
                None => {},
            }
        }
        i = i + 1;
    }
    proof {
        assert(events@.subrange(0, n as int) =~= events@);
    }
}

/// A spawn marker as a map declares it: a name and the direction the player
/// comes in from.
#[derive(Debug)]
pub struct SpawnData {
    pub name: String,
    pub from_direction: String,
}

/// Where and how the player enters: the marker's location and the entrance
/// direction.
#[derive(Clone, Copy, Debug, PartialEq, Eq, Structural)]
pub struct PlayerSpawnEvent {
    pub location: GridTransform,
    pub direction: GridTransform,
}

/// The entrance vector a from-direction name stands for; names outside the
/// fixed vocabulary stand for nothing.
pub open spec fn spec_spawn_direction(name: Seq<char>) -> Option<GridTransform> {
    if name == "north"@ {
        Some(GridTransform::spec_north())
    } else if name == "east"@ {
        Some(GridTransform::spec_east())
    } else if name == "south"@ {
        Some(GridTransform::spec_south())
    } else if name == "west"@ {
        Some(GridTransform::spec_west())
    } else if name == "center"@ {
        Some(GridTransform::spec_zero())
    } else {
        None
    }
}

/// The from-direction vocabulary is fixed and case-sensitive; any other
/// string is a configuration error.
#[derive(Clone, Copy, Debug, PartialEq, Eq, Structural)]
pub struct InvalidSpawnDirection;

/// Parses a from-direction name into its entrance vector.
pub fn spawn_direction_from_name(name: &String) -> (r: Result<
    GridTransform,
    InvalidSpawnDirection,
>)
    ensures
        r == match spec_spawn_direction(name@) {
            Some(d) => Ok::<GridTransform, InvalidSpawnDirection>(d),
            None => Err::<GridTransform, InvalidSpawnDirection>(InvalidSpawnDirection),
        },
{
    if *name == String::from_str("north") {
        Ok(GridTransform::north())
    } else if *name == String::from_str("east") {
        Ok(GridTransform::east())
    } else if *name == String::from_str("south") {
        Ok(GridTransform::south())
    } else if *name == String::from_str("west") {
        Ok(GridTransform::west())
    } else if *name == String::from_str("center") {
        Ok(GridTransform::zero())
    } else {
        Err(InvalidSpawnDirection)
    }
}

/// Resolves one spawn marker against the requested spawn name.
///
/// A marker whose name is not the requested one — or any marker while no
/// spawn is requested — yields nothing. The matching marker yields the
/// player spawn event at the marker's location with the marker's entrance
/// direction; a from-direction outside the vocabulary is a configuration
/// error.
pub fn mark_player_spawn(
    data: &SpawnData,
    marker_pos: GridTransform,
    current_spawn: &CurrentSpawn,
) -> (r: Result<Option<PlayerSpawnEvent>, InvalidSpawnDirection>)
    ensures
        !(current_spawn.0 matches Some(req) && req@ == data.name@)
            ==> r == Ok::<Option<PlayerSpawnEvent>, InvalidSpawnDirection>(None),
        (current_spawn.0 matches Some(req) && req@ == data.name@)
            ==> r == match spec_spawn_direction(data.from_direction@) {
                Some(d) => Ok::<Option<PlayerSpawnEvent>, InvalidSpawnDirection>(
                    Some(PlayerSpawnEvent { location: marker_pos, direction: d }),
                ),
                None => Err::<Option<PlayerSpawnEvent>, InvalidSpawnDirection>(
                    InvalidSpawnDirection,
                ),
            },
{
    let requested = match &current_spawn.0 {
        Some(req) => req,
        None => {
            return Ok(None);
        },
    };
    if !(*requested == data.name) {
        return Ok(None);
    }
    match spawn_direction_from_name(&data.from_direction) {
        Ok(d) => Ok(Some(PlayerSpawnEvent { location: marker_pos, direction: d })),
        Err(e) => Err(e),
    }
}

} // verus!
