use vstd::prelude::*;

use crate::trajectory::Endpoints;

verus! {

/// Altitude proposed to the first aircraft of a conflicting pair: 32000.0, as
/// the bit pattern of an IEEE-754 single-precision number.
pub const UPPER_ALTITUDE: u32 = 0x46FA_0000;

/// Altitude proposed to the second aircraft of a conflicting pair: 30000.0, as
/// the bit pattern of an IEEE-754 single-precision number.
pub const LOWER_ALTITUDE: u32 = 0x46EA_6000;

/// An instruction for one aircraft to fly at another height.
#[derive(Clone, Copy, PartialEq, Eq, Debug, Structural)]
pub struct CollisionAlert {
    /// The aircraft the alert is addressed to.
    pub target: u8,
    /// Proposed altitude, as the bit pattern of a single-precision number.
    pub altitude: u32,
}

/// The two alerts for a predicted conflict between aircraft `first` and
/// `second`: the first is sent up, the second down.
pub open spec fn pair_alerts(first: u8, second: u8) -> Seq<CollisionAlert> {
    seq![
        CollisionAlert { target: first, altitude: UPPER_ALTITUDE },
        CollisionAlert { target: second, altitude: LOWER_ALTITUDE },
    ]
}

/// The pairs `(i, j)` with `i < j < n` whose first index is `i`, by ascending `j`.
pub open spec fn pair_row(i: nat, n: nat) -> Seq<(usize, usize)> {
    if i + 1 < n {
        Seq::new((n - i - 1) as nat, |k: int| (i as usize, (i + 1 + k) as usize))
    } else {
        Seq::empty()
    }
}

/// The pairs `(i, j)` with `i < j < n` and `i < m`, in lexicographic order.
pub open spec fn pairs_upto(m: nat, n: nat) -> Seq<(usize, usize)>
    decreases m,
{
    if m == 0 {
        Seq::empty()
    } else {
        pairs_upto((m - 1) as nat, n) + pair_row((m - 1) as nat, n)
    }
}

/// Every unordered pair of indices below `n`, each once as `(i, j)` with
/// `i < j`, in lexicographic order.
pub open spec fn all_pairs(n: nat) -> Seq<(usize, usize)> {
    pairs_upto(n, n)
}

/// The alerts for one pair of snapshot indices reported as conflicting; a
/// pair that does not name two distinct aircraft of the snapshot, lower index
/// first, gives none.
pub open spec fn alerts_for_pair(snapshot: Seq<Endpoints>, pair: (usize, usize)) -> Seq<
    CollisionAlert,
> {
    if pair.0 < pair.1 && pair.1 < snapshot.len() {
        pair_alerts(snapshot[pair.0 as int].id, snapshot[pair.1 as int].id)
    } else {
        Seq::empty()
    }
}

/// The alerts for all the conflicting pairs, pair by pair, in order.
pub open spec fn alerts_for_conflicts(
    snapshot: Seq<Endpoints>,
    conflicts: Seq<(usize, usize)>,
) -> Seq<CollisionAlert> {
    conflicts.map_values(|c: (usize, usize)| alerts_for_pair(snapshot, c)).flatten()
}

/// `p` comes strictly before `q` in lexicographic order.
pub open spec fn lex_before(p: (usize, usize), q: (usize, usize)) -> bool {
    p.0 < q.0 || (p.0 == q.0 && p.1 < q.1)
}

/// `pairs` holds each pair `(i, j)` with `i < j < n` exactly once, and
/// nothing else, in lexicographic order.
pub open spec fn is_pair_listing(pairs: Seq<(usize, usize)>, n: nat) -> bool {
    &&& forall|k: int| 0 <= k < pairs.len() ==> #[trigger] pairs[k].0 < pairs[k].1 && pairs[k].1 < n
    &&& forall|i: usize, j: usize| i < j && j < n ==> #[trigger] pairs.contains((i, j))
    &&& forall|k: int, l: int|
        0 <= k < l < pairs.len() ==> lex_before(#[trigger] pairs[k], #[trigger] pairs[l])
}

proof fn lemma_pairs_upto(m: nat, n: nat)
    requires
        m <= n <= usize::MAX,
    ensures
        forall|k: int|
            0 <= k < pairs_upto(m, n).len() ==> #[trigger] pairs_upto(m, n)[k].0 < m
                && pairs_upto(m, n)[k].0 < pairs_upto(m, n)[k].1 && pairs_upto(m, n)[k].1 < n,
        forall|i: usize, j: usize|
            i < m && i < j && j < n ==> #[trigger] pairs_upto(m, n).contains((i, j)),
        forall|k: int, l: int|
            0 <= k < l < pairs_upto(m, n).len() ==> lex_before(
                #[trigger] pairs_upto(m, n)[k],
                #[trigger] pairs_upto(m, n)[l],
            ),
    decreases m,
{
    if m > 0 {
        let a = (m - 1) as nat;
        lemma_pairs_upto(a, n);
        let before = pairs_upto(a, n);
        let row = pair_row(a, n);
        let all = pairs_upto(m, n);
        assert(all == before + row);
        assert forall|k: int| 0 <= k < all.len() implies #[trigger] all[k].0 < m && all[k].0
            < all[k].1 && all[k].1 < n by {
            if k >= before.len() {
                assert(all[k] == row[k - before.len()]);
            }
        }
        assert forall|i: usize, j: usize| i < m && i < j && j < n implies #[trigger] all.contains(
            (i, j),
        ) by {
            if i < a {
                assert(before.contains((i, j)));
                let k = choose|k: int| 0 <= k < before.len() && before[k] == (i, j);
                assert(all[k] == (i, j));
            } else {
                let k = before.len() + (j - i - 1);
                assert(all[k] == row[j - i - 1]);
                assert(all[k] == (i, j));
            }
        }
        assert forall|k: int, l: int| 0 <= k < l < all.len() implies lex_before(
            #[trigger] all[k],
            #[trigger] all[l],
        ) by {
            if l >= before.len() {
                assert(all[l] == row[l - before.len()]);
                if k >= before.len() {
                    assert(all[k] == row[k - before.len()]);
                } else {
                    assert(all[k] == before[k]);
                }
            } else {
                assert(all[k] == before[k]);
                assert(all[l] == before[l]);
            }
        }
    }
}

/// The pairs of snapshot indices that the predictor examines: every unordered
/// pair of distinct indices below `count`, lower index first, in lexicographic
/// order.
pub fn candidate_pairs(count: usize) -> (r: Vec<(usize, usize)>)
    ensures
        r@ == all_pairs(count as nat),
        is_pair_listing(r@, count as nat),
{
    let mut r: Vec<(usize, usize)> = Vec::new();
    let mut i: usize = 0;
    while i < count
        invariant
            i <= count,
            r@ == pairs_upto(i as nat, count as nat),
        decreases count - i,
    {
        let ghost before = r@;
        let mut j: usize = i + 1;
        while j < count
            invariant
                i < count,
                i + 1 <= j <= count,
                r@ == before + pair_row(i as nat, count as nat).subrange(0, j - i - 1),
            decreases count - j,
        {
            r.push((i, j));
            j += 1;
            assert(r@ =~= before + pair_row(i as nat, count as nat).subrange(0, j - i - 1));
        }
        assert(pair_row(i as nat, count as nat).subrange(0, j - i - 1) =~= pair_row(
            i as nat,
            count as nat,
        ));
        i += 1;
    }
    proof {
        lemma_pairs_upto(count as nat, count as nat);
    }
    r
}

/// The two alerts for a predicted conflict between `first` and `second`.
pub fn conflict_alerts(first: u8, second: u8) -> (r: Vec<CollisionAlert>)
    ensures
        r@ == pair_alerts(first, second),
{
    let mut r: Vec<CollisionAlert> = Vec::new();
    r.push(CollisionAlert { target: first, altitude: UPPER_ALTITUDE });
    r.push(CollisionAlert { target: second, altitude: LOWER_ALTITUDE });
    assert(r@ =~= pair_alerts(first, second));
    r
}

/// The alerts to publish for the pairs of `snapshot` found to be on a
/// conflicting course: for each pair `(i, j)`, one alert for aircraft
/// `snapshot[i]` to climb and one for `snapshot[j]` to descend. A pair that
/// does not name two distinct aircraft of the snapshot, lower index first, is
/// skipped.
pub fn collision_alerts(snapshot: &Vec<Endpoints>, conflicts: &Vec<(usize, usize)>) -> (r: Vec<
    CollisionAlert,
>)
    ensures
        r@ == alerts_for_conflicts(snapshot@, conflicts@),
{
    let mut r: Vec<CollisionAlert> = Vec::new();
    let mut k: usize = 0;
    while k < conflicts.len()
        invariant
            k <= conflicts@.len(),
            r@ == alerts_for_conflicts(snapshot@, conflicts@.subrange(0, k as int)),
        decreases conflicts@.len() - k,
    {
        let (i, j) = conflicts[k];
        let ghost before = r@;
        if i < j && j < snapshot.len() {
            let mut more = conflict_alerts(snapshot[i].id, snapshot[j].id);
            r.append(&mut more);
        }
        proof {
            lemma_alerts_extend(snapshot@, conflicts@, k as int);
        }
        k += 1;
    }
    assert(conflicts@.subrange(0, k as int) =~= conflicts@);
    r
}

proof fn lemma_alerts_extend(snapshot: Seq<Endpoints>, conflicts: Seq<(usize, usize)>, k: int)
    requires
        0 <= k < conflicts.len(),
    ensures
        alerts_for_conflicts(snapshot, conflicts.subrange(0, k + 1)) == alerts_for_conflicts(
            snapshot,
            conflicts.subrange(0, k),
        ) + alerts_for_pair(snapshot, conflicts[k]),
{
    let f = |c: (usize, usize)| alerts_for_pair(snapshot, c);
    let head = conflicts.subrange(0, k);
    let next = conflicts.subrange(0, k + 1);
    assert(next =~= head.push(conflicts[k]));
    assert(next.map_values(f) =~= head.map_values(f).push(f(conflicts[k])));
    head.map_values(f).lemma_flatten_push(f(conflicts[k]));
}

/// For a single conflicting pair of distinct aircraft of the snapshot, exactly
/// one alert goes to each of the two aircraft, and the two proposed altitudes
/// differ; with no conflicting pair, no alert is published.
pub proof fn lemma_one_alert_per_aircraft(snapshot: Seq<Endpoints>, i: usize, j: usize)
    requires
        i < j < snapshot.len(),
    ensures
        alerts_for_conflicts(snapshot, seq![(i, j)]).len() == 2,
        alerts_for_conflicts(snapshot, seq![(i, j)])[0].target == snapshot[i as int].id,
        alerts_for_conflicts(snapshot, seq![(i, j)])[1].target == snapshot[j as int].id,
        alerts_for_conflicts(snapshot, seq![(i, j)])[0].altitude != alerts_for_conflicts(
            snapshot,
            seq![(i, j)],
        )[1].altitude,
        alerts_for_conflicts(snapshot, Seq::empty()) == Seq::<CollisionAlert>::empty(),
{
    let f = |c: (usize, usize)| alerts_for_pair(snapshot, c);
    let one = seq![(i, j)];
    assert(one.map_values(f) =~= seq![pair_alerts(snapshot[i as int].id, snapshot[j as int].id)]);
    seq![pair_alerts(snapshot[i as int].id, snapshot[j as int].id)].lemma_flatten_one_element();
    let none = Seq::<(usize, usize)>::empty();
    assert(none.map_values(f) =~= Seq::<Seq<CollisionAlert>>::empty());
}

} // verus!
