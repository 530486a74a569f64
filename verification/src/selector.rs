//! Tournament selection: who breeds, and who makes room.

use crate::creature::Creature;
use crate::crossover::{crossing, genomes_of, homologous_crossover, newborn};
use crate::params::{scale, scaled, Config, UNIT};
use crate::phenotype::{any_hatched, inputs_of, Fitness, FitnessOps};
use crate::rng::{draw_u32, seeded};
use crate::target::{image_wf, Seg};
use crate::ranking::{count_ones, popcount, reversed_positions, rising, sort_by_key, sorted_by_key};
use crate::rng::{sample_indices, shuffle};
use crate::seqs::lemma_reordered_distinct;
use rand_isaac::isaac64::Isaac64Rng;
use vstd::prelude::*;

verus! {

/// Number of mask bits that two creatures have in common.
pub fn xover_compat(c1: u64, c2: u64) -> (n: usize)
    ensures
        n == popcount(c1 & c2),
        n <= 64,
{
    count_ones(c1 & c2)
}

/// How far a mask is from the reference mask: the number of bit places, out
/// of 64, that the two do not share as set bits.
pub open spec fn compat_key(x1: u64, x2: u64) -> u64 {
    (64 - popcount(x1 & x2)) as u64
}

/// For each creature of the window, how far its mask is from the mask of the
/// first.
pub open spec fn compat_keys_of(window: Seq<Creature>) -> Seq<u64> {
    Seq::new(window.len(), |i: int| compat_key(window[0].genome.xbits, window[i].genome.xbits))
}

/// The scores of the creature at a place of the window.
pub open spec fn scores_at(window: Seq<Creature>, i: int) -> Seq<u64> {
    window[i].fitness->0@
}

/// Every creature of the window has a fitness, with as many scores as the
/// first has, and at least one.
pub open spec fn all_scored(window: Seq<Creature>) -> bool {
    forall|i: int|
        0 <= i < window.len() ==> (#[trigger] window[i]).fitness is Some && scores_at(
            window,
            i,
        ).len() == scores_at(window, 0).len() && scores_at(window, i).len() >= 1
}

/// For each creature of the window, the mean of its scores.
pub open spec fn fit_keys_of(window: Seq<Creature>) -> Seq<u64> {
    Seq::new(window.len(), |i: int| window[i].fitness->0.spec_mean() as u64)
}

pub fn compat_keys(window: &Vec<Creature>) -> (keys: Vec<u64>)
    ensures
        keys@ == compat_keys_of(window@),
{
    let mut keys: Vec<u64> = Vec::new();
    let mut i: usize = 0;
    while i < window.len()
        invariant
            i <= window@.len(),
            keys@.len() == i,
            forall|k: int|
                0 <= k < i ==> keys@[k] == compat_key(
                    window@[0].genome.xbits,
                    window@[k].genome.xbits,
                ),
        decreases window@.len() - i,
    {
        let shared = xover_compat(window[0].genome.xbits, window[i].genome.xbits);
        keys.push((64 - shared) as u64);
        i += 1;
    }
    assert(keys@ =~= compat_keys_of(window@));
    keys
}

pub fn fit_keys(window: &Vec<Creature>) -> (keys: Vec<u64>)
    requires
        all_scored(window@),
    ensures
        keys@ == fit_keys_of(window@),
{
    let mut keys: Vec<u64> = Vec::new();
    let mut i: usize = 0;
    while i < window.len()
        invariant
            i <= window@.len(),
            all_scored(window@),
            keys@.len() == i,
            forall|k: int| 0 <= k < i ==> keys@[k] == window@[k].fitness->0.spec_mean() as u64,
        decreases window@.len() - i,
    {
        match &window[i].fitness {
            Some(f) => {
                keys.push(f.mean());
            },
            None => {
                assert(false);
            },
        }
        i += 1;
    }
    assert(keys@ =~= fit_keys_of(window@));
    keys
}

/// Every score of `f` lies below the score of `d` for the same objective.
pub open spec fn outdone(f: Seq<u64>, d: Seq<u64>) -> bool {
    forall|k: int| 0 <= k < f.len() ==> f[k] < d[k]
}

pub fn is_outdone(f: &Fitness, d: &Fitness) -> (b: bool)
    requires
        f@.len() <= d@.len(),
    ensures
        b == outdone(f@, d@),
{
    let mut k: usize = 0;
    while k < f.len()
        invariant
            k <= f@.len(),
            f@.len() <= d@.len(),
            forall|j: int| 0 <= j < k ==> f@[j] < d@[j],
        decreases f@.len() - k,
    {
        if f[k] >= d[k] {
            return false;
        }
        k += 1;
    }
    true
}

/// Among the first `n` combatants there is another that outdoes `i`.
pub open spec fn dominated_among(window: Seq<Creature>, ranked: Seq<usize>, i: usize, n: int) -> bool {
    exists|j: int|
        0 <= j < n && j < ranked.len() && #[trigger] ranked[j] != i && outdone(
            scores_at(window, i as int),
            scores_at(window, ranked[j] as int),
        )
}

/// Another combatant outdoes `i`.
pub open spec fn dominated(window: Seq<Creature>, ranked: Seq<usize>, i: usize) -> bool {
    dominated_among(window, ranked, i, ranked.len() as int)
}

/// Those of the first `n` combatants that no combatant outdoes, in order.
pub open spec fn front_upto(window: Seq<Creature>, ranked: Seq<usize>, n: int) -> Seq<usize>
    decreases n,
{
    if n <= 0 {
        Seq::empty()
    } else if dominated(window, ranked, ranked[n - 1]) {
        front_upto(window, ranked, n - 1)
    } else {
        front_upto(window, ranked, n - 1).push(ranked[n - 1])
    }
}

/// The Pareto front: the combatants that no other combatant outdoes, in
/// their order.
pub open spec fn front_of(window: Seq<Creature>, ranked: Seq<usize>) -> Seq<usize> {
    front_upto(window, ranked, ranked.len() as int)
}

/// The front holds combatants, none of them outdone, none twice, and every
/// combatant that is not outdone.
pub proof fn lemma_front_upto(window: Seq<Creature>, ranked: Seq<usize>, n: int)
    requires
        0 <= n <= ranked.len(),
        ranked.no_duplicates(),
    ensures
        front_upto(window, ranked, n).len() <= n,
        forall|k: int|
            0 <= k < front_upto(window, ranked, n).len() ==> {
                let i = #[trigger] front_upto(window, ranked, n)[k];
                !dominated(window, ranked, i) && exists|p: int| 0 <= p < n && ranked[p] == i
            },
        forall|p: int|
            0 <= p < n && !dominated(window, ranked, ranked[p]) ==> front_upto(
                window,
                ranked,
                n,
            ).contains(#[trigger] ranked[p]),
        front_upto(window, ranked, n).no_duplicates(),
    decreases n,
{
    if n > 0 {
        lemma_front_upto(window, ranked, n - 1);
        let before = front_upto(window, ranked, n - 1);
        let now = front_upto(window, ranked, n);
        let x = ranked[n - 1];
        if !dominated(window, ranked, x) {
            assert(now[now.len() - 1] == x);
            assert forall|k: int| 0 <= k < now.len() implies {
                let i = #[trigger] now[k];
                !dominated(window, ranked, i) && exists|p: int| 0 <= p < n && ranked[p] == i
            } by {
                if k < before.len() {
                    let i = before[k];
                    let p = choose|p: int| 0 <= p < n - 1 && ranked[p] == i;
                    assert(ranked[p] == now[k]);
                } else {
                    assert(ranked[n - 1] == now[k]);
                }
            }
            assert forall|a: int, b: int| 0 <= a < now.len() && 0 <= b < now.len() && a
                != b implies now[a] != now[b] by {
                if a < before.len() && b < before.len() {
                    assert(before[a] != before[b]);
                } else if a < before.len() {
                    let p = choose|p: int| 0 <= p < n - 1 && ranked[p] == before[a];
                    assert(ranked[p] != ranked[n - 1]);
                } else {
                    let p = choose|p: int| 0 <= p < n - 1 && ranked[p] == before[b];
                    assert(ranked[p] != ranked[n - 1]);
                }
            }
        }
        assert forall|p: int|
            0 <= p < n && !dominated(window, ranked, ranked[p]) implies now.contains(
            #[trigger] ranked[p],
        ) by {
            if p < n - 1 {
                let k = choose|k: int| 0 <= k < before.len() && before[k] == ranked[p];
                assert(now[k] == ranked[p]);
            }
        }
    }
}

/// Place among the first `n` combatants of one whose first score no other of
/// them tops.
pub open spec fn top_place(window: Seq<Creature>, ranked: Seq<usize>, n: int) -> int
    decreases n,
{
    if n <= 1 {
        0
    } else {
        let best = top_place(window, ranked, n - 1);
        if scores_at(window, ranked[n - 1] as int)[0] > scores_at(window, ranked[best] as int)[0] {
            n - 1
        } else {
            best
        }
    }
}

proof fn lemma_top_place(window: Seq<Creature>, ranked: Seq<usize>, n: int)
    requires
        1 <= n <= ranked.len(),
    ensures
        0 <= top_place(window, ranked, n) < n,
        forall|j: int|
            0 <= j < n ==> scores_at(window, (#[trigger] ranked[j]) as int)[0] <= scores_at(
                window,
                ranked[top_place(window, ranked, n)] as int,
            )[0],
    decreases n,
{
    if n > 1 {
        lemma_top_place(window, ranked, n - 1);
    }
}

/// Where every combatant has a score, the front is not empty: a combatant
/// whose first score none tops is outdone by none.
pub proof fn lemma_front_not_empty(window: Seq<Creature>, ranked: Seq<usize>)
    requires
        ranked.len() >= 1,
        ranked.no_duplicates(),
        all_scored(window),
        forall|k: int| 0 <= k < ranked.len() ==> (#[trigger] ranked[k]) < window.len(),
    ensures
        front_of(window, ranked).len() >= 1,
{
    let n = ranked.len() as int;
    lemma_top_place(window, ranked, n);
    lemma_front_upto(window, ranked, n);
    let best = top_place(window, ranked, n);
    let i = ranked[best];
    assert(window[i as int].fitness is Some);
    assert(!dominated(window, ranked, i)) by {
        if dominated(window, ranked, i) {
            let j = choose|j: int|
                0 <= j < n && j < ranked.len() && #[trigger] ranked[j] != i && outdone(
                    scores_at(window, i as int),
                    scores_at(window, ranked[j] as int),
                );
            assert(scores_at(window, i as int)[0] < scores_at(window, ranked[j] as int)[0]);
        }
    }
    assert(front_of(window, ranked).contains(ranked[best]));
}

/// The combatants that no other combatant outdoes.
pub fn pareto_front(window: &Vec<Creature>, ranked: &Vec<usize>) -> (front: Vec<usize>)
    requires
        all_scored(window@),
        forall|k: int| 0 <= k < ranked@.len() ==> (#[trigger] ranked@[k]) < window@.len(),
    ensures
        front@ == front_of(window@, ranked@),
{
    let mut front: Vec<usize> = Vec::new();
    let mut n: usize = 0;
    while n < ranked.len()
        invariant
            n <= ranked@.len(),
            all_scored(window@),
            forall|k: int| 0 <= k < ranked@.len() ==> (#[trigger] ranked@[k]) < window@.len(),
            front@ == front_upto(window@, ranked@, n as int),
        decreases ranked@.len() - n,
    {
        let i = ranked[n];
        let mut beaten = false;
        let mut j: usize = 0;
        while j < ranked.len()
            invariant
                j <= ranked@.len(),
                all_scored(window@),
                i < window@.len(),
                forall|k: int| 0 <= k < ranked@.len() ==> (#[trigger] ranked@[k]) < window@.len(),
                beaten == dominated_among(window@, ranked@, i, j as int),
            decreases ranked@.len() - j,
        {
            let other = ranked[j];
            let ghost before = beaten;
            if other != i {
                assert(window@[i as int].fitness is Some);
                assert(window@[other as int].fitness is Some);
                match (&window[i].fitness, &window[other].fitness) {
                    (Some(f), Some(d)) => {
                        if is_outdone(f, d) {
                            beaten = true;
                        }
                    },
                    _ => {},
                }
            }
            proof {
                if dominated_among(window@, ranked@, i, j + 1) && !beaten {
                    let w = choose|w: int|
                        0 <= w < j + 1 && w < ranked@.len() && #[trigger] ranked@[w] != i
                            && outdone(
                            scores_at(window@, i as int),
                            scores_at(window@, ranked@[w] as int),
                        );
                    if w < j {
                        assert(dominated_among(window@, ranked@, i, j as int));
                    }
                }
                if beaten && !before {
                    assert(ranked@[j as int] != i);
                }
            }
            j += 1;
        }
        if !beaten {
            front.push(i);
        }
        n += 1;
    }
    front
}

/// Place of the first combatant at or after `from` that is not `p`, or the
/// number of combatants where there is none.
pub open spec fn first_other(ranked: Seq<usize>, p: usize, from: int) -> int
    decreases ranked.len() - from,
{
    if from < 0 || from >= ranked.len() {
        ranked.len() as int
    } else if ranked[from] != p {
        from
    } else {
        first_other(ranked, p, from + 1)
    }
}

/// The second parent: the second of the front where the front has two, and
/// else the first combatant in rank that is not the first parent.
pub open spec fn second_parent(front: Seq<usize>, ranked: Seq<usize>) -> usize {
    if front.len() >= 2 {
        front[1]
    } else {
        ranked[first_other(ranked, front[0], 0)]
    }
}

proof fn lemma_first_other(ranked: Seq<usize>, p: usize, from: int)
    requires
        0 <= from <= ranked.len(),
    ensures
        from <= first_other(ranked, p, from) <= ranked.len(),
        first_other(ranked, p, from) < ranked.len() ==> ranked[first_other(ranked, p, from)] != p,
        forall|k: int| from <= k < first_other(ranked, p, from) ==> ranked[k] == p,
    decreases ranked.len() - from,
{
    if from < ranked.len() && ranked[from] == p {
        lemma_first_other(ranked, p, from + 1);
    }
}

/// Picks the parents: the first of the front, and the second of the front
/// or, where the front has one member only, the highest in rank of the
/// others.
pub fn choose_parents(front: &Vec<usize>, ranked: &Vec<usize>) -> (parents: (usize, usize))
    requires
        front@.len() >= 1,
        ranked@.len() >= 2,
        ranked@.no_duplicates(),
    ensures
        parents.0 == front@[0],
        parents.1 == second_parent(front@, ranked@),
        front@.len() < 2 ==> parents.1 != parents.0 && ranked@.contains(parents.1),
{
    let parent_a = front[0];
    if front.len() >= 2 {
        (parent_a, front[1])
    } else {
        proof {
            lemma_first_other(ranked@, parent_a, 0);
            let at = first_other(ranked@, parent_a, 0);
            if at >= 2 {
                assert(ranked@[0] == parent_a && ranked@[1] == parent_a);
            }
        }
        let mut i: usize = 0;
        let n = ranked.len();
        while ranked[i] == parent_a
            invariant
                i < n,
                n == ranked@.len(),
                first_other(ranked@, parent_a, 0) == first_other(ranked@, parent_a, i as int),
                first_other(ranked@, parent_a, 0) < ranked@.len(),
            decreases n - i,
        {
            proof {
                lemma_first_other(ranked@, parent_a, i + 1);
            }
            i += 1;
        }
        (parent_a, ranked[i])
    }
}

/// Place of the last combatant below `below` that is neither parent, or -1
/// where there is none.
pub open spec fn last_outside(ranked: Seq<usize>, parent_a: usize, parent_b: usize, below: int) -> int
    decreases below,
{
    if below <= 0 || below > ranked.len() {
        -1
    } else if ranked[below - 1] != parent_a && ranked[below - 1] != parent_b {
        below - 1
    } else {
        last_outside(ranked, parent_a, parent_b, below - 1)
    }
}

/// Places of the doomed: the lowest in rank that is neither parent, and the
/// lowest but that one.
pub open spec fn doomed_places(ranked: Seq<usize>, parent_a: usize, parent_b: usize) -> (int, int) {
    let a = last_outside(ranked, parent_a, parent_b, ranked.len() as int);
    (a, last_outside(ranked, parent_a, parent_b, a))
}

proof fn lemma_last_outside(ranked: Seq<usize>, parent_a: usize, parent_b: usize, below: int)
    requires
        0 <= below <= ranked.len(),
    ensures
        -1 <= last_outside(ranked, parent_a, parent_b, below) < below,
        last_outside(ranked, parent_a, parent_b, below) >= 0 ==> {
            let a = last_outside(ranked, parent_a, parent_b, below);
            ranked[a] != parent_a && ranked[a] != parent_b
        },
        forall|q: int|
            0 <= q < below && ranked[q] != parent_a && ranked[q] != parent_b ==> q <= last_outside(
                ranked,
                parent_a,
                parent_b,
                below,
            ),
    decreases below,
{
    if below > 0 && !(ranked[below - 1] != parent_a && ranked[below - 1] != parent_b) {
        lemma_last_outside(ranked, parent_a, parent_b, below - 1);
    }
}

/// Among four or more different combatants there are two that are neither
/// parent.
pub proof fn lemma_doomed_exist(ranked: Seq<usize>, parent_a: usize, parent_b: usize)
    requires
        ranked.len() >= 4,
        ranked.no_duplicates(),
    ensures
        0 <= doomed_places(ranked, parent_a, parent_b).1 < doomed_places(ranked, parent_a, parent_b).0 < ranked.len(),
        ranked[doomed_places(ranked, parent_a, parent_b).0] != parent_a,
        ranked[doomed_places(ranked, parent_a, parent_b).0] != parent_b,
        ranked[doomed_places(ranked, parent_a, parent_b).1] != parent_a,
        ranked[doomed_places(ranked, parent_a, parent_b).1] != parent_b,
        ranked[doomed_places(ranked, parent_a, parent_b).0] != ranked[doomed_places(ranked, parent_a, parent_b).1],
{
    let n = ranked.len() as int;
    let out = |q: int| ranked[q] != parent_a && ranked[q] != parent_b;
    // Of four different items, two at least are neither of two given ones.
    let (q1, q2): (int, int) = if out(0) && out(1) {
        (0, 1)
    } else if out(0) && out(2) {
        (0, 2)
    } else if out(0) && out(3) {
        (0, 3)
    } else if out(1) && out(2) {
        (1, 2)
    } else if out(1) && out(3) {
        (1, 3)
    } else {
        (2, 3)
    };
    assert(ranked[0] != ranked[1] && ranked[0] != ranked[2] && ranked[0] != ranked[3]
        && ranked[1] != ranked[2] && ranked[1] != ranked[3] && ranked[2] != ranked[3]);
    assert(out(q1) && out(q2));
    lemma_last_outside(ranked, parent_a, parent_b, n);
    let a = last_outside(ranked, parent_a, parent_b, n);
    assert(q2 <= a);
    lemma_last_outside(ranked, parent_a, parent_b, a);
    let b = last_outside(ranked, parent_a, parent_b, a);
    assert(q1 <= b);
}

/// Picks the doomed: walking up from the lowest in rank, the first two
/// combatants that are neither parent.
pub fn choose_doomed(ranked: &Vec<usize>, parent_a: usize, parent_b: usize) -> (doomed: (usize, usize))
    requires
        ranked@.len() >= 4,
        ranked@.no_duplicates(),
    ensures
        doomed.0 == ranked@[doomed_places(ranked@, parent_a, parent_b).0],
        doomed.1 == ranked@[doomed_places(ranked@, parent_a, parent_b).1],
        doomed.0 != doomed.1,
        doomed.0 != parent_a && doomed.0 != parent_b && doomed.1 != parent_a && doomed.1 != parent_b,
        ranked@.contains(doomed.0) && ranked@.contains(doomed.1),
{
    proof {
        lemma_doomed_exist(ranked@, parent_a, parent_b);
    }
    let ghost a = doomed_places(ranked@, parent_a, parent_b).0;
    let ghost b = doomed_places(ranked@, parent_a, parent_b).1;
    let mut i: usize = ranked.len() - 1;
    while ranked[i] == parent_a || ranked[i] == parent_b
        invariant
            i < ranked@.len(),
            a == last_outside(ranked@, parent_a, parent_b, i + 1),
            a >= 1,
        decreases i,
    {
        proof {
            lemma_last_outside(ranked@, parent_a, parent_b, i as int);
        }
        i -= 1;
    }
    let doomed_a = ranked[i];
    assert(a == i);
    i -= 1;
    while ranked[i] == parent_a || ranked[i] == parent_b
        invariant
            i < ranked@.len(),
            b == last_outside(ranked@, parent_a, parent_b, i + 1),
            b >= 0,
        decreases i,
    {
        proof {
            lemma_last_outside(ranked@, parent_a, parent_b, i as int);
        }
        i -= 1;
    }
    assert(b == i);
    proof {
        assert(ranked@[a] == doomed_a);
        assert(ranked@[b] == ranked@[i as int]);
    }
    (doomed_a, ranked[i])
}

/// Who was picked in a tournament.
#[derive(Clone, Debug)]
pub struct Selection {
    /// The combatants, highest mean score first.
    pub ranked: Vec<usize>,
    /// The first parent.
    pub parent_a: usize,
    /// The second parent.
    pub parent_b: usize,
    /// The first to make room.
    pub doomed_a: usize,
    /// The second to make room.
    pub doomed_b: usize,
}

/// The combatants are `tsize` different places of the window, the parents
/// and the doomed are four different combatants, the first parent is outdone
/// by none, the second is of the front as well where the front has two
/// members and else the highest in rank of the others, and the doomed are the
/// two lowest in rank that are not parents.
pub open spec fn lawful_selection(
    window: Seq<Creature>,
    ranked: Seq<usize>,
    parent_a: usize,
    parent_b: usize,
    doomed_a: usize,
    doomed_b: usize,
    tsize: int,
) -> bool {
    &&& ranked.len() == tsize
    &&& ranked.no_duplicates()
    &&& forall|k: int| 0 <= k < ranked.len() ==> (#[trigger] ranked[k]) < window.len()
    &&& rising(ranked.reverse(), fit_keys_of(window))
    &&& ranked.contains(parent_a) && ranked.contains(parent_b) && ranked.contains(doomed_a) && ranked.contains(doomed_b)
    &&& parent_a != parent_b && parent_a != doomed_a && parent_a != doomed_b && parent_b != doomed_a && parent_b != doomed_b && doomed_a != doomed_b
    &&& !dominated(window, ranked, parent_a)
    &&& if front_of(window, ranked).len() >= 2 {
        !dominated(window, ranked, parent_b)
    } else {
        parent_b == ranked[first_other(ranked, parent_a, 0)]
    }
    &&& doomed_a == ranked[doomed_places(ranked, parent_a, parent_b).0]
    &&& doomed_b == ranked[doomed_places(ranked, parent_a, parent_b).1]
}

/// The combatants that go on from the sample: the `tsize` whose masks are
/// nearest the mask of the first creature of the window, ordered by their
/// mean score, highest first.
pub open spec fn ranked_of(window: Seq<Creature>, sampled: Seq<usize>, tsize: int) -> Seq<usize> {
    sorted_by_key(
        sorted_by_key(sampled, compat_keys_of(window)).take(tsize),
        fit_keys_of(window),
    ).reverse()
}

/// The combatants come of a sample of the window: `sample_size` different
/// places of it, of which the `tsize` most compatible go on, ranked.
pub open spec fn drawn_from_sample(
    window: Seq<Creature>,
    ranked: Seq<usize>,
    tsize: int,
    sample_size: int,
) -> bool {
    exists|sampled: Seq<usize>|
        {
            &&& sampled.len() == sample_size
            &&& sampled.no_duplicates()
            &&& forall|k: int| 0 <= k < sampled.len() ==> (#[trigger] sampled[k]) < window.len()
            &&& ranked == #[trigger] ranked_of(window, sampled, tsize)
        }
}

/// Drops from the sample those least compatible with the first creature of
/// the window, and ranks the rest by mean score.
pub fn rank_combatants(window: &Vec<Creature>, sampled: &Vec<usize>, tsize: usize) -> (ranked: Vec<
    usize,
>)
    requires
        all_scored(window@),
        tsize <= sampled@.len(),
        sampled@.no_duplicates(),
        forall|k: int| 0 <= k < sampled@.len() ==> (#[trigger] sampled@[k]) < window@.len(),
    ensures
        ranked@ == ranked_of(window@, sampled@, tsize as int),
        ranked@.len() == tsize,
        ranked@.no_duplicates(),
        forall|k: int| 0 <= k < ranked@.len() ==> (#[trigger] ranked@[k]) < window@.len(),
        forall|k: int| 0 <= k < ranked@.len() ==> sampled@.contains(#[trigger] ranked@[k]),
        rising(ranked@.reverse(), fit_keys_of(window@)),
{
    let near = compat_keys(window);
    let mut by_mask = sort_by_key(sampled, &near);
    proof {
        lemma_reordered_distinct(sampled@, by_mask@);
    }
    let ghost whole = by_mask@;
    by_mask.truncate(tsize);
    proof {
        assert(by_mask@ =~= whole.take(tsize as int));
        assert forall|k: int| 0 <= k < by_mask@.len() implies sampled@.contains(
            #[trigger] by_mask@[k],
        ) && by_mask@[k] < window@.len() by {
            assert(whole.contains(whole[k]));
            let at = choose|at: int| 0 <= at < sampled@.len() && sampled@[at] == whole[k];
            assert(sampled@[at] < window@.len());
        }
    }
    let fit = fit_keys(window);
    let by_fit = sort_by_key(&by_mask, &fit);
    let ranked = reversed_positions(&by_fit);
    proof {
        lemma_reordered_distinct(by_mask@, by_fit@);
        assert(ranked@.reverse() =~= by_fit@);
        assert forall|k: int| 0 <= k < ranked@.len() implies sampled@.contains(
            #[trigger] ranked@[k],
        ) && ranked@[k] < window@.len() by {
            let x = by_fit@[by_fit@.len() - 1 - k];
            assert(by_fit@.contains(x));
            assert(by_mask@.contains(x));
            let at = choose|at: int| 0 <= at < by_mask@.len() && by_mask@[at] == x;
            assert(sampled@.contains(by_mask@[at]));
        }
        assert forall|a: int, b: int|
            0 <= a < ranked@.len() && 0 <= b < ranked@.len() && a != b implies ranked@[a]
            != ranked@[b] by {
            assert(by_fit@[by_fit@.len() - 1 - a] != by_fit@[by_fit@.len() - 1 - b]);
        }
    }
    ranked
}

/// Picks the parents and the doomed among ranked combatants, given the front
/// in the order in which its members were drawn.
pub fn pick(window: &Vec<Creature>, ranked: Vec<usize>, front: &Vec<usize>) -> (sel: Selection)
    requires
        all_scored(window@),
        ranked@.len() >= 4,
        ranked@.no_duplicates(),
        forall|k: int| 0 <= k < ranked@.len() ==> (#[trigger] ranked@[k]) < window@.len(),
        rising(ranked@.reverse(), fit_keys_of(window@)),
        front@.to_multiset() == front_of(window@, ranked@).to_multiset(),
    ensures
        sel.ranked == ranked,
        sel.parent_a == front@[0],
        sel.parent_b == second_parent(front@, ranked@),
        lawful_selection(
            window@,
            ranked@,
            sel.parent_a,
            sel.parent_b,
            sel.doomed_a,
            sel.doomed_b,
            ranked@.len() as int,
        ),
{
    proof {
        let n = ranked@.len() as int;
        lemma_front_upto(window@, ranked@, n);
        lemma_front_not_empty(window@, ranked@);
        lemma_reordered_distinct(front_of(window@, ranked@), front@);
        assert forall|k: int| 0 <= k < front@.len() implies !dominated(
            window@,
            ranked@,
            #[trigger] front@[k],
        ) && ranked@.contains(front@[k]) by {
            assert(front@.contains(front@[k]));
            assert(front_of(window@, ranked@).contains(front@[k]));
            let at = choose|at: int|
                0 <= at < front_of(window@, ranked@).len() && front_of(window@, ranked@)[at]
                    == front@[k];
            let i = front_of(window@, ranked@)[at];
            let p = choose|p: int| 0 <= p < n && ranked@[p] == i;
            assert(ranked@[p] == front@[k]);
        }
    }
    let (parent_a, parent_b) = choose_parents(front, &ranked);
    let (doomed_a, doomed_b) = choose_doomed(&ranked, parent_a, parent_b);
    proof {
        if front@.len() >= 2 {
            assert(front@[0] != front@[1]);
        }
    }
    Selection { ranked, parent_a, parent_b, doomed_a, doomed_b }
}

/// Holds one round of selection on the window: samples combatants, drops the
/// least compatible, ranks the rest, and picks parents and doomed.
pub fn select(window: &Vec<Creature>, rng: &mut Isaac64Rng, tsize: usize, sample_size: usize) -> (sel:
    Selection)
    requires
        all_scored(window@),
        4 <= tsize <= sample_size <= window@.len(),
    ensures
        lawful_selection(window@, sel.ranked@, sel.parent_a, sel.parent_b, sel.doomed_a, sel.doomed_b, tsize as int),
        drawn_from_sample(window@, sel.ranked@, tsize as int, sample_size as int),
{
    let sampled = sample_indices(rng, window.len(), sample_size);
    let ranked = rank_combatants(window, &sampled, tsize);
    assert(drawn_from_sample(window@, ranked@, tsize as int, sample_size as int)) by {
        assert(ranked@ == ranked_of(window@, sampled@, tsize as int));
    }
    let mut front = pareto_front(window, &ranked);
    shuffle(&mut front, rng);
    pick(window, ranked, &front)
}

/// A creature that a tournament can take as a parent: its chain can run and
/// can still count a generation, and a problem is posed to it.
pub open spec fn fit_to_breed(c: Creature) -> bool {
    &&& c.genome.wf()
    &&& c.genome.generation < usize::MAX
    &&& c.phenome.cases@.len() >= 1
}

/// Every creature of the window is scored and fit to breed.
pub open spec fn window_ready(window: Seq<Creature>) -> bool {
    &&& all_scored(window)
    &&& forall|i: int| 0 <= i < window.len() ==> fit_to_breed(#[trigger] window[i])
}

/// A tournament by these settings can be held among `n` creatures: there are
/// four combatants at least, and the sample is no smaller than the
/// tournament and no larger than the window.
pub open spec fn tournament_fits(config: Config, n: int) -> bool {
    &&& config.tournament_size >= 4
    &&& config.mate_selection_factor >= UNIT
    &&& scaled(config.tournament_size as nat, config.mate_selection_factor) <= n
}

/// The window with the two doomed taken out, the one at the higher place
/// first, each time with the last creature moved into the gap.
pub open spec fn culled(window: Seq<Creature>, doomed_a: int, doomed_b: int) -> Seq<Creature> {
    let hi = vstd::math::max(doomed_a, doomed_b);
    let lo = vstd::math::min(doomed_a, doomed_b);
    let once = window.update(hi, window.last()).drop_last();
    once.update(lo, once.last()).drop_last()
}

/// The offspring are two newborn of one crossover of mother and father, with
/// the father's problems posed to them and none solved.
pub open spec fn brood(
    offspring: Seq<Creature>,
    mother: Creature,
    father: Creature,
    config: Config,
    image: Seq<Seg>,
) -> bool {
    &&& offspring.len() == 2
    &&& forall|k: int|
        0 <= k < offspring.len() ==> newborn(#[trigger] offspring[k], config.arch) && inputs_of(
            offspring[k].phenome.cases@,
        ) == inputs_of(father.phenome.cases@) && !any_hatched(offspring[k].phenome.cases@)
    &&& exists|xbits: u64, child_xbits: u64, sites: Seq<usize>| #[trigger]
        crossing(
            genomes_of(offspring),
            mother.genome,
            father.genome,
            config,
            image,
            xbits,
            child_xbits,
            sites,
        )
}

/// What a tournament comes to: a lawful selection among combatants drawn
/// from the window as it was, a brood of the two parents, and the window
/// without the doomed.
pub open spec fn tournament_outcome(
    before: Seq<Creature>,
    after: Seq<Creature>,
    offspring: Seq<Creature>,
    config: Config,
    image: Seq<Seg>,
    ranked: Seq<usize>,
    parent_a: usize,
    parent_b: usize,
    doomed_a: usize,
    doomed_b: usize,
) -> bool {
    &&& lawful_selection(before, ranked, parent_a, parent_b, doomed_a, doomed_b, config.tournament_size as int)
    &&& drawn_from_sample(
        before,
        ranked,
        config.tournament_size as int,
        scaled(config.tournament_size as nat, config.mate_selection_factor) as int,
    )
    &&& brood(offspring, before[parent_a as int], before[parent_b as int], config, image)
    &&& after == culled(before, doomed_a as int, doomed_b as int)
}

/// Thirty-two fresh bytes from the random source.
pub fn fresh_seed(rng: &mut Isaac64Rng) -> (seed: Vec<u8>)
    ensures
        seed@.len() == 32,
{
    let mut seed: Vec<u8> = Vec::new();
    let mut i: usize = 0;
    while i < 32
        invariant
            i <= 32,
            seed@.len() == i,
        decreases 32 - i,
    {
        seed.push((draw_u32(rng) % 256) as u8);
        i += 1;
    }
    seed
}

pub proof fn lemma_sample_covers(tsize: nat, factor: u64)
    requires
        factor >= UNIT,
    ensures
        scaled(tsize, factor) >= tsize,
{
    let u = UNIT as int;
    assert(tsize * factor >= tsize * u) by (nonlinear_arith)
        requires
            factor >= u,
            tsize >= 0,
    ;
    vstd::arithmetic::div_mod::lemma_div_is_ordered(tsize * u, tsize * factor, u);
    vstd::arithmetic::div_mod::lemma_div_multiples_vanish(tsize as int, u);
    assert(tsize * u == u * tsize) by (nonlinear_arith);
}

/// Holds one tournament in the window: picks two parents and two doomed,
/// breeds two offspring of the parents, poses the second parent's problems to
/// them, and takes the doomed out of the window.  Returns the offspring.
pub fn tournament(
    selection_window: &mut Vec<Creature>,
    seed: &[u8; 32],
    config: &Config,
    image: &Vec<Seg>,
) -> (offspring: Vec<Creature>)
    requires
        window_ready(old(selection_window)@),
        tournament_fits(*config, old(selection_window)@.len() as int),
        image_wf(image@),
    ensures
        offspring@.len() == 2,
        final(selection_window)@.len() == old(selection_window)@.len() - 2,
        exists|ranked: Seq<usize>, parent_a: usize, parent_b: usize, doomed_a: usize, doomed_b: usize| #[trigger]
            tournament_outcome(
                old(selection_window)@,
                final(selection_window)@,
                offspring@,
                *config,
                image@,
                ranked,
                parent_a,
                parent_b,
                doomed_a,
                doomed_b,
            ),
{
    let mut rng = seeded(seed);
    let _unused = fresh_seed(&mut rng);
    proof {
        lemma_sample_covers(config.tournament_size as nat, config.mate_selection_factor);
    }
    let held = selection_window.len();
    let sample_size = match scale(config.tournament_size, config.mate_selection_factor) {
        Some(n) => n,
        None => {
            assert(held <= usize::MAX);
            assert(false);
            0
        },
    };
    let sel = select(selection_window, &mut rng, config.tournament_size, sample_size);
    let ghost before = selection_window@;
    proof {
        let k0 = choose|k: int| 0 <= k < sel.ranked@.len() && sel.ranked@[k] == sel.parent_a;
        let k1 = choose|k: int| 0 <= k < sel.ranked@.len() && sel.ranked@[k] == sel.parent_b;
        let k2 = choose|k: int| 0 <= k < sel.ranked@.len() && sel.ranked@[k] == sel.doomed_a;
        let k3 = choose|k: int| 0 <= k < sel.ranked@.len() && sel.ranked@[k] == sel.doomed_b;
        assert(sel.ranked@[k0] < before.len() && sel.ranked@[k1] < before.len() && sel.ranked@[k2]
            < before.len() && sel.ranked@[k3] < before.len());
        assert(fit_to_breed(before[sel.parent_a as int]));
        assert(fit_to_breed(before[sel.parent_b as int]));
    }
    let mut bred = {
        let mother = &selection_window[sel.parent_a];
        let father = &selection_window[sel.parent_b];
        homologous_crossover(mother, father, &mut rng, config, image)
    };
    let ghost born = bred@;
    let mut second = bred.pop().unwrap();
    let mut first = bred.pop().unwrap();
    first.inherit_problems(&selection_window[sel.parent_b]);
    second.inherit_problems(&selection_window[sel.parent_b]);
    let mut offspring: Vec<Creature> = Vec::new();
    offspring.push(first);
    offspring.push(second);
    let (first_to_kill, next_to_kill) = if sel.doomed_a > sel.doomed_b {
        (sel.doomed_a, sel.doomed_b)
    } else {
        (sel.doomed_b, sel.doomed_a)
    };
    selection_window.swap_remove(first_to_kill);
    selection_window.swap_remove(next_to_kill);
    proof {
        assert(genomes_of(offspring@) =~= genomes_of(born));
        assert(brood(
            offspring@,
            before[sel.parent_a as int],
            before[sel.parent_b as int],
            *config,
            image@,
        ));
        assert(selection_window@ == culled(before, sel.doomed_a as int, sel.doomed_b as int));
        assert(tournament_outcome(
            before,
            selection_window@,
            offspring@,
            *config,
            image@,
            sel.ranked@,
            sel.parent_a,
            sel.parent_b,
            sel.doomed_a,
            sel.doomed_b,
        ));
    }
    offspring
}

/// The creatures in the opposite order.
pub fn reversed_creatures(mut creatures: Vec<Creature>) -> (r: Vec<Creature>)
    ensures
        r@ == creatures@.reverse(),
{
    let ghost whole = creatures@;
    let mut r: Vec<Creature> = Vec::new();
    while creatures.len() > 0
        invariant
            creatures@.len() <= whole.len(),
            creatures@ == whole.take(creatures@.len() as int),
            r@.len() == whole.len() - creatures@.len(),
            forall|k: int| 0 <= k < r@.len() ==> r@[k] == whole[whole.len() - 1 - k],
        decreases creatures@.len(),
    {
        let c = creatures.pop().unwrap();
        r.push(c);
        assert(creatures@ =~= whole.take(creatures@.len() as int));
    }
    assert(r@ =~= whole.reverse());
    r
}

/// The breeder: it gathers creatures in a window and holds a tournament
/// whenever the window is full.
#[derive(Clone, Debug)]
pub struct Breeder {
    /// The creatures gathered since the last tournament.
    pub window: Vec<Creature>,
    /// Number of creatures at which a tournament is held.
    pub window_size: usize,
}

/// What leaves the breeder after a tournament, each list in the order in
/// which its creatures are sent.
#[derive(Clone, Debug)]
pub struct Round {
    /// The creatures that stay in the population, for the output channel.
    pub released: Vec<Creature>,
    /// The offspring, for the hatchery.
    pub offspring: Vec<Creature>,
}

impl Breeder {
    /// A breeder with an empty window.
    pub fn new(window_size: usize) -> (b: Breeder)
        ensures
            b.window@.len() == 0,
            b.window_size == window_size,
    {
        Breeder { window: Vec::new(), window_size }
    }

    /// Takes one creature in.  While the window is not full the creature
    /// waits there.  When it fills the window, a tournament is held, and
    /// everything leaves: the window without the doomed, last creature
    /// first, and the offspring, second first.
    pub fn take_in(
        &mut self,
        incoming: Creature,
        seed: &[u8; 32],
        config: &Config,
        image: &Vec<Seg>,
    ) -> (round: Option<Round>)
        requires
            old(self).window@.len() + 1 >= old(self).window_size ==> window_ready(
                old(self).window@.push(incoming),
            ) && tournament_fits(*config, old(self).window@.len() as int + 1),
            image_wf(image@),
        ensures
            final(self).window_size == old(self).window_size,
            old(self).window@.len() + 1 < old(self).window_size ==> round is None && final(self).window@ == old(self).window@.push(incoming),
            old(self).window@.len() + 1 >= old(self).window_size ==> round is Some
                && final(self).window@.len() == 0 && exists|
                after: Seq<Creature>,
                bred: Seq<Creature>,
                ranked: Seq<usize>,
                parent_a: usize,
                parent_b: usize,
                doomed_a: usize,
                doomed_b: usize,
            | #[trigger]
                tournament_outcome(
                    old(self).window@.push(incoming),
                    after,
                    bred,
                    *config,
                    image@,
                    ranked,
                    parent_a,
                    parent_b,
                    doomed_a,
                    doomed_b,
                ) && round->0.released@ == after.reverse() && round->0.offspring@
                    == bred.reverse(),
    {
        self.window.push(incoming);
        if self.window.len() >= self.window_size {
            let ghost before = self.window@;
            let bred = tournament(&mut self.window, seed, config, image);
            let ghost after = self.window@;
            let ghost born = bred@;
            let mut window: Vec<Creature> = Vec::new();
            std::mem::swap(&mut window, &mut self.window);
            let released = reversed_creatures(window);
            let offspring = reversed_creatures(bred);
            proof {
                let w = choose|
                    ranked: Seq<usize>,
                    parent_a: usize,
                    parent_b: usize,
                    doomed_a: usize,
                    doomed_b: usize,
                | #[trigger]
                    tournament_outcome(
                        before,
                        after,
                        born,
                        *config,
                        image@,
                        ranked,
                        parent_a,
                        parent_b,
                        doomed_a,
                        doomed_b,
                    );
                assert(tournament_outcome(
                    before,
                    after,
                    born,
                    *config,
                    image@,
                    w.0,
                    w.1,
                    w.2,
                    w.3,
                    w.4,
                ) && released@ == after.reverse() && offspring@ == born.reverse());
            }
            Some(Round { released, offspring })
        } else {
            None
        }
    }
}

/// In a lawful selection the parents and the doomed are four different
/// creatures of the window.
pub proof fn lemma_selection_disjoint(
    window: Seq<Creature>,
    ranked: Seq<usize>,
    parent_a: usize,
    parent_b: usize,
    doomed_a: usize,
    doomed_b: usize,
    tsize: int,
)
    requires
        lawful_selection(window, ranked, parent_a, parent_b, doomed_a, doomed_b, tsize),
    ensures
        set![parent_a, parent_b, doomed_a, doomed_b].len() == 4,
        parent_a < window.len() && parent_b < window.len() && doomed_a < window.len() && doomed_b < window.len(),
{
    let k0 = choose|k: int| 0 <= k < ranked.len() && ranked[k] == parent_a;
    let k1 = choose|k: int| 0 <= k < ranked.len() && ranked[k] == parent_b;
    let k2 = choose|k: int| 0 <= k < ranked.len() && ranked[k] == doomed_a;
    let k3 = choose|k: int| 0 <= k < ranked.len() && ranked[k] == doomed_b;
    assert(ranked[k0] < window.len() && ranked[k1] < window.len() && ranked[k2] < window.len()
        && ranked[k3] < window.len());
    let one = Set::<usize>::empty().insert(parent_a);
    let two = one.insert(parent_b);
    let three = two.insert(doomed_a);
    let four = three.insert(doomed_b);
    assert(four =~= set![parent_a, parent_b, doomed_a, doomed_b]);
    assert(one.len() == 1);
    assert(two.len() == 2);
    assert(three.len() == 3);
    assert(four.len() == 4);
}

} // verus!
