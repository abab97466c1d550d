use vstd::prelude::*;

use crate::vector::Vector3;

verus! {

/// Number of distinct aircraft ids.
pub const ID_COUNT: usize = 256;

/// The last two reported positions of one aircraft.
#[derive(Clone, Copy, PartialEq, Eq, Debug, Structural)]
pub struct Endpoints {
    pub id: u8,
    /// The second-to-last position.
    pub previous: Vector3,
    /// The last position.
    pub last: Vector3,
}

/// The trajectory of `id` in `m`; empty when `m` has none.
pub open spec fn trajectory_of(m: Map<u8, Seq<Vector3>>, id: u8) -> Seq<Vector3> {
    if m.contains_key(id) {
        m[id]
    } else {
        Seq::empty()
    }
}

/// `m` after appending `position` to the trajectory of `id`.
pub open spec fn appended(m: Map<u8, Seq<Vector3>>, id: u8, position: Vector3) -> Map<
    u8,
    Seq<Vector3>,
> {
    m.insert(id, trajectory_of(m, id).push(position))
}

/// `m` after appending each of `positions` in turn to the trajectory of `id`.
pub open spec fn appended_all(m: Map<u8, Seq<Vector3>>, id: u8, positions: Seq<Vector3>) -> Map<
    u8,
    Seq<Vector3>,
>
    decreases positions.len(),
{
    if positions.len() == 0 {
        m
    } else {
        appended_all(appended(m, id, positions[0]), id, positions.drop_first())
    }
}

/// Whether `id` has at least two positions in `m`.
pub open spec fn has_endpoints(m: Map<u8, Seq<Vector3>>, id: u8) -> bool {
    m.contains_key(id) && m[id].len() >= 2
}

/// The last two positions of `id` in `m`.
pub open spec fn endpoints_of(m: Map<u8, Seq<Vector3>>, id: u8) -> Endpoints {
    let t = m[id];
    Endpoints { id, previous: t[t.len() - 2], last: t[t.len() - 1] }
}

/// The endpoints of every aircraft below id `n` that has at least two
/// positions, in ascending order of id.
pub open spec fn endpoints_below(m: Map<u8, Seq<Vector3>>, n: nat) -> Seq<Endpoints>
    decreases n,
{
    if n == 0 {
        Seq::empty()
    } else {
        let id = (n - 1) as u8;
        let before = endpoints_below(m, (n - 1) as nat);
        if has_endpoints(m, id) {
            before.push(endpoints_of(m, id))
        } else {
            before
        }
    }
}

/// The endpoints of every aircraft with at least two positions, in ascending
/// order of id.
pub open spec fn snapshot_of(m: Map<u8, Seq<Vector3>>) -> Seq<Endpoints> {
    endpoints_below(m, 256)
}

/// `r` lists, in strictly ascending order of id, the last two positions of
/// every aircraft of `m` that has at least two, and nothing else.
pub open spec fn is_endpoint_listing(r: Seq<Endpoints>, m: Map<u8, Seq<Vector3>>) -> bool {
    &&& forall|k: int|
        0 <= k < r.len() ==> has_endpoints(m, #[trigger] r[k].id) && r[k] == endpoints_of(m, r[k].id)
    &&& forall|id: u8| has_endpoints(m, id) ==> exists|k: int| 0 <= k < r.len() && #[trigger] r[k].id == id
    &&& forall|k: int, l: int| 0 <= k < l < r.len() ==> #[trigger] r[k].id < #[trigger] r[l].id
}

proof fn lemma_endpoints_below(m: Map<u8, Seq<Vector3>>, n: nat)
    requires
        n <= 256,
    ensures
        forall|k: int|
            0 <= k < endpoints_below(m, n).len() ==> (#[trigger] endpoints_below(m, n)[k]).id < n
                && has_endpoints(m, endpoints_below(m, n)[k].id) && endpoints_below(m, n)[k]
                == endpoints_of(m, endpoints_below(m, n)[k].id),
        forall|id: u8|
            id < n && has_endpoints(m, id) ==> exists|k: int|
                0 <= k < endpoints_below(m, n).len() && #[trigger] endpoints_below(m, n)[k].id == id,
        forall|k: int, l: int|
            0 <= k < l < endpoints_below(m, n).len() ==> (#[trigger] endpoints_below(m, n)[k]).id
                < (#[trigger] endpoints_below(m, n)[l]).id,
    decreases n,
{
    if n > 0 {
        let p = (n - 1) as nat;
        lemma_endpoints_below(m, p);
        let before = endpoints_below(m, p);
        let all = endpoints_below(m, n);
        let id = p as u8;
        assert forall|x: u8| x < n && has_endpoints(m, x) implies exists|k: int|
            0 <= k < all.len() && #[trigger] all[k].id == x by {
            if x < p {
                let k = choose|k: int| 0 <= k < before.len() && #[trigger] before[k].id == x;
                assert(all[k] == before[k]);
            } else {
                assert(x == id);
                assert(all[before.len() as int].id == x);
            }
        }
        assert forall|k: int| 0 <= k < all.len() implies (#[trigger] all[k]).id < n && has_endpoints(
            m,
            all[k].id,
        ) && all[k] == endpoints_of(m, all[k].id) by {
            if k < before.len() {
                assert(all[k] == before[k]);
            }
        }
        assert forall|k: int, l: int| 0 <= k < l < all.len() implies (#[trigger] all[k]).id < (
        #[trigger] all[l]).id by {
            assert(all[k] == before[k]);
            if l < before.len() {
                assert(all[l] == before[l]);
            }
        }
    }
}

/// Appending positions one batch after another keeps all of them, in the
/// order they were appended, and leaves every other aircraft alone.
pub proof fn lemma_appends_kept_in_order(
    m: Map<u8, Seq<Vector3>>,
    id: u8,
    first: Seq<Vector3>,
    second: Seq<Vector3>,
)
    ensures
        appended_all(appended_all(m, id, first), id, second) == appended_all(m, id, first + second),
        trajectory_of(appended_all(m, id, first + second), id) == trajectory_of(m, id) + first
            + second,
        forall|other: u8|
            other != id ==> #[trigger] appended_all(m, id, first + second).contains_key(other)
                == m.contains_key(other) && trajectory_of(appended_all(m, id, first + second), other)
                == trajectory_of(m, other),
{
    lemma_appended_all_concat(m, id, first, second);
    lemma_appended_all_effect(m, id, first + second);
}

proof fn lemma_appended_all_concat(
    m: Map<u8, Seq<Vector3>>,
    id: u8,
    first: Seq<Vector3>,
    second: Seq<Vector3>,
)
    ensures
        appended_all(appended_all(m, id, first), id, second) == appended_all(m, id, first + second),
    decreases first.len(),
{
    if first.len() == 0 {
        assert(first + second =~= second);
    } else {
        assert((first + second)[0] == first[0]);
        assert((first + second).drop_first() =~= first.drop_first() + second);
        lemma_appended_all_concat(appended(m, id, first[0]), id, first.drop_first(), second);
    }
}

proof fn lemma_appended_all_effect(m: Map<u8, Seq<Vector3>>, id: u8, positions: Seq<Vector3>)
    ensures
        trajectory_of(appended_all(m, id, positions), id) == trajectory_of(m, id) + positions,
        forall|other: u8|
            other != id ==> #[trigger] appended_all(m, id, positions).contains_key(other)
                == m.contains_key(other) && trajectory_of(appended_all(m, id, positions), other)
                == trajectory_of(m, other),
    decreases positions.len(),
{
    if positions.len() == 0 {
        assert(trajectory_of(m, id) + positions =~= trajectory_of(m, id));
    } else {
        let next = appended(m, id, positions[0]);
        lemma_appended_all_effect(next, id, positions.drop_first());
        assert(trajectory_of(m, id).push(positions[0]) + positions.drop_first() =~= trajectory_of(
            m,
            id,
        ) + positions);
    }
}

/// The position history of every aircraft, keyed by aircraft id.
///
/// Trajectories grow in the order positions are appended; an aircraft is
/// present from its first appended position until it is removed.
pub struct TrajectoryStore {
    slots: Vec<Option<Vec<Vector3>>>,
}

impl View for TrajectoryStore {
    type V = Map<u8, Seq<Vector3>>;

    closed spec fn view(&self) -> Map<u8, Seq<Vector3>> {
        Map::new(
            |k: u8| self.slots@[k as int] is Some,
            |k: u8| self.slots@[k as int]->Some_0@,
        )
    }
}

/// A copy of `t`.
fn copy_positions(t: &Vec<Vector3>) -> (r: Vec<Vector3>)
    ensures
        r@ == t@,
{
    let mut r: Vec<Vector3> = Vec::new();
    let mut i: usize = 0;
    while i < t.len()
        invariant
            i <= t@.len(),
            r@ == t@.subrange(0, i as int),
        decreases t@.len() - i,
    {
        r.push(t[i]);
        i += 1;
        assert(r@ =~= t@.subrange(0, i as int));
    }
    assert(t@.subrange(0, i as int) =~= t@);
    r
}

impl TrajectoryStore {
    /// The store's internal shape: one slot per aircraft id.
    pub closed spec fn well_formed(&self) -> bool {
        self.slots@.len() == ID_COUNT
    }

    /// An empty store.
    pub fn new() -> (r: TrajectoryStore)
        ensures
            r.well_formed(),
            r@ == Map::<u8, Seq<Vector3>>::empty(),
    {
        let mut slots: Vec<Option<Vec<Vector3>>> = Vec::new();
        let mut i: usize = 0;
        while i < ID_COUNT
            invariant
                i <= ID_COUNT,
                slots@.len() == i,
                forall|k: int| 0 <= k < i ==> slots@[k] is None,
            decreases ID_COUNT - i,
        {
            slots.push(None);
            i += 1;
        }
        let r = TrajectoryStore { slots };
        assert(r@ =~= Map::<u8, Seq<Vector3>>::empty());
        r
    }

    /// Appends `position` to the trajectory of `id`, creating it if needed.
    pub fn append(&mut self, id: u8, position: Vector3)
        requires
            old(self).well_formed(),
        ensures
            final(self).well_formed(),
            final(self)@ == appended(old(self)@, id, position),
    {
        let i = id as usize;
        let mut slot: Option<Vec<Vector3>> = None;
        std::mem::swap(&mut self.slots[i], &mut slot);
        let mut t = match slot {
            Some(t) => t,
            None => Vec::new(),
        };
        t.push(position);
        self.slots[i] = Some(t);
        assert(self@ =~= appended(old(self)@, id, position));
    }

    /// Removes the trajectory of `id`; returns whether there was one.
    pub fn remove(&mut self, id: u8) -> (r: bool)
        requires
            old(self).well_formed(),
        ensures
            final(self).well_formed(),
            final(self)@ == old(self)@.remove(id),
            r == old(self)@.contains_key(id),
    {
        let i = id as usize;
        let mut slot: Option<Vec<Vector3>> = None;
        std::mem::swap(&mut self.slots[i], &mut slot);
        assert(self@ =~= old(self)@.remove(id));
        slot.is_some()
    }

    /// Whether `id` has a trajectory.
    pub fn contains(&self, id: u8) -> (r: bool)
        requires
            self.well_formed(),
        ensures
            r == self@.contains_key(id),
    {
        self.slots[id as usize].is_some()
    }

    /// A copy of the trajectory of `id`, if it has one.
    pub fn trajectory(&self, id: u8) -> (r: Option<Vec<Vector3>>)
        requires
            self.well_formed(),
        ensures
            r is Some <==> self@.contains_key(id),
            r is Some ==> r->Some_0@ == self@[id],
    {
        match &self.slots[id as usize] {
            Some(t) => Some(copy_positions(t)),
            None => None,
        }
    }

    /// The last two positions of every aircraft that has at least two, in
    /// ascending order of id.
    pub fn snapshot_endpoints(&self) -> (r: Vec<Endpoints>)
        requires
            self.well_formed(),
        ensures
            r@ == snapshot_of(self@),
            is_endpoint_listing(r@, self@),
    {
        let mut r: Vec<Endpoints> = Vec::new();
        let mut i: usize = 0;
        while i < ID_COUNT
            invariant
                self.well_formed(),
                i <= ID_COUNT,
                r@ == endpoints_below(self@, i as nat),
            decreases ID_COUNT - i,
        {
            let ghost id = i as u8;
            assert(self@.contains_key(id) == self.slots@[i as int] is Some);
            match &self.slots[i] {
                Some(t) => {
                    assert(self@[id] == t@);
                    if t.len() >= 2 {
                        r.push(Endpoints { id: i as u8, previous: t[t.len() - 2], last: t[t.len() - 1] });
                    }
                },
                None => {},
            }
            i += 1;
        }
        proof {
            lemma_endpoints_below(self@, 256);
        }
        r
    }
}

} // verus!
