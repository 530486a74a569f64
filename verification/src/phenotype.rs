//! The phenotype: what a chain did when it ran.

use crate::target::Mode;
use std::collections::HashMap;
use vstd::prelude::*;

verus! {

broadcast use vstd::std_specs::hash::group_hash_axioms;

/// One write to writable memory.
#[derive(Copy, Clone, Debug, PartialEq, Eq, Structural)]
pub struct WriteRecord {
    pub pc: u64,
    pub dest_addr: u64,
    pub value: u64,
    pub size: usize,
}

/// A write survives where no later write of the log goes to its address.
pub open spec fn survives(log: Seq<WriteRecord>, i: int) -> bool {
    forall|j: int| i < j < log.len() ==> (#[trigger] log[j]).dest_addr != log[i].dest_addr
}

/// The positions among the first `n` of the log whose writes survive, in
/// rising order.
pub open spec fn surviving_positions(log: Seq<WriteRecord>, n: int) -> Seq<int>
    decreases n,
{
    if n <= 0 {
        Seq::empty()
    } else if survives(log, n - 1) {
        surviving_positions(log, n - 1).push(n - 1)
    } else {
        surviving_positions(log, n - 1)
    }
}

/// The log with every write dropped that a later one overwrites.
pub open spec fn collapsed(log: Seq<WriteRecord>) -> Seq<WriteRecord> {
    surviving_positions(log, log.len() as int).map_values(|i: int| log[i])
}

/// Some record of the log writes to `addr`.
pub open spec fn writes_to(log: Seq<WriteRecord>, addr: u64) -> bool {
    exists|k: int| 0 <= k < log.len() && (#[trigger] log[k]).dest_addr == addr
}

/// No two records of the log write to one address.
pub open spec fn distinct_dests(log: Seq<WriteRecord>) -> bool {
    forall|a: int, b: int|
        0 <= a < b < log.len() ==> (#[trigger] log[a]).dest_addr != (#[trigger] log[b]).dest_addr
}

/// The surviving positions are positions of the log, each of a surviving
/// write, and they rise.
pub proof fn lemma_surviving_positions(log: Seq<WriteRecord>, n: int)
    requires
        0 <= n <= log.len(),
    ensures
        surviving_positions(log, n).len() <= n,
        forall|k: int|
            0 <= k < surviving_positions(log, n).len() ==> {
                let p = #[trigger] surviving_positions(log, n)[k];
                0 <= p < n && survives(log, p)
            },
        forall|a: int, b: int|
            0 <= a < b < surviving_positions(log, n).len() ==> surviving_positions(log, n)[a]
                < surviving_positions(log, n)[b],
        forall|i: int|
            0 <= i < n && survives(log, i) ==> surviving_positions(log, n).contains(i),
    decreases n,
{
    if n > 0 {
        lemma_surviving_positions(log, n - 1);
        let before = surviving_positions(log, n - 1);
        let now = surviving_positions(log, n);
        if survives(log, n - 1) {
            assert(now[now.len() - 1] == n - 1);
            assert forall|i: int| 0 <= i < n && survives(log, i) implies now.contains(i) by {
                if i < n - 1 {
                    let k = choose|k: int| 0 <= k < before.len() && before[k] == i;
                    assert(now[k] == i);
                }
            }
        }
    }
}

/// The collapsed log keeps one write for each address, the last, and keeps
/// the writes in the order in which they ran.
pub proof fn lemma_collapsed(log: Seq<WriteRecord>)
    ensures
        distinct_dests(collapsed(log)),
        collapsed(log).len() == surviving_positions(log, log.len() as int).len(),
        forall|a: int, b: int|
            0 <= a < b < collapsed(log).len() ==> 0 <= (#[trigger] surviving_positions(
                log,
                log.len() as int,
            )[a]) < (#[trigger] surviving_positions(log, log.len() as int)[b]) < log.len(),
        forall|k: int|
            0 <= k < collapsed(log).len() ==> #[trigger] collapsed(log)[k] == log[surviving_positions(
                log,
                log.len() as int,
            )[k]],
        forall|i: int|
            0 <= i < log.len() ==> writes_to(collapsed(log), (#[trigger] log[i]).dest_addr),
{
    let n = log.len() as int;
    let pos = surviving_positions(log, n);
    let c = collapsed(log);
    lemma_surviving_positions(log, n);
    assert forall|a: int, b: int| 0 <= a < b < c.len() implies (#[trigger] c[a]).dest_addr != (
    #[trigger] c[b]).dest_addr by {
        assert(survives(log, pos[a]));
        assert(pos[a] < pos[b]);
        assert(log[pos[b]].dest_addr != log[pos[a]].dest_addr);
    }
    assert forall|i: int| 0 <= i < log.len() implies writes_to(
        c,
        (#[trigger] log[i]).dest_addr,
    ) by {
        let last = last_write(log, i, n);
        lemma_last_write(log, i, n);
        assert(survives(log, last));
        assert(pos.contains(last));
        let k = choose|k: int| 0 <= k < pos.len() && pos[k] == last;
        assert(c[k].dest_addr == log[i].dest_addr);
    }
}

/// Position of the last write among the first `n` that goes to the address of
/// write `i`.
pub open spec fn last_write(log: Seq<WriteRecord>, i: int, n: int) -> int
    recommends
        0 <= i < n <= log.len(),
    decreases n - i,
{
    if n <= i + 1 {
        i
    } else if log[n - 1].dest_addr == log[i].dest_addr {
        n - 1
    } else {
        last_write(log, i, n - 1)
    }
}

proof fn lemma_last_write(log: Seq<WriteRecord>, i: int, n: int)
    requires
        0 <= i < n <= log.len(),
    ensures
        i <= last_write(log, i, n) < n,
        log[last_write(log, i, n)].dest_addr == log[i].dest_addr,
        forall|j: int|
            last_write(log, i, n) < j < n ==> (#[trigger] log[j]).dest_addr != log[i].dest_addr,
    decreases n,
{
    if n > i + 1 && log[n - 1].dest_addr != log[i].dest_addr {
        lemma_last_write(log, i, n - 1);
    }
}

/// Drops from a write log every write that a later one overwrites.  What is
/// left holds one write for each address and keeps the order of the log.
pub fn collapse_writelog(writelog: &Vec<WriteRecord>) -> (result: Vec<WriteRecord>)
    ensures
        result@ == collapsed(writelog@),
        distinct_dests(result@),
{
    let n = writelog.len();
    let mut last: HashMap<u64, usize> = HashMap::new();
    let mut i: usize = 0;
    while i < n
        invariant
            n == writelog@.len(),
            i <= n,
            forall|j: int| 0 <= j < i ==> last@.contains_key((#[trigger] writelog@[j]).dest_addr),
            forall|addr: u64| #[trigger]
                last@.contains_key(addr) ==> {
                    let p = last@[addr];
                    &&& p < i
                    &&& writelog@[p as int].dest_addr == addr
                    &&& forall|j: int| p < j < i ==> (#[trigger] writelog@[j]).dest_addr != addr
                },
        decreases n - i,
    {
        last.insert(writelog[i].dest_addr, i);
        i += 1;
    }
    let mut result: Vec<WriteRecord> = Vec::new();
    let mut k: usize = 0;
    while k < n
        invariant
            n == writelog@.len(),
            k <= n,
            forall|j: int| 0 <= j < n ==> last@.contains_key((#[trigger] writelog@[j]).dest_addr),
            forall|addr: u64| #[trigger]
                last@.contains_key(addr) ==> {
                    let p = last@[addr];
                    &&& p < n
                    &&& writelog@[p as int].dest_addr == addr
                    &&& forall|j: int| p < j < n ==> (#[trigger] writelog@[j]).dest_addr != addr
                },
            result@ == surviving_positions(writelog@, k as int).map_values(|i: int| writelog@[i]),
        decreases n - k,
    {
        let record = writelog[k];
        let kept = match last.get(&record.dest_addr) {
            Some(p) => *p == k,
            None => false,
        };
        proof {
            let p = last@[record.dest_addr];
            assert(last@.contains_key(record.dest_addr));
            if p == k {
                assert(survives(writelog@, k as int));
            } else {
                if p < k {
                    assert(writelog@[k as int].dest_addr == record.dest_addr);
                } else {
                    assert(writelog@[p as int].dest_addr == record.dest_addr);
                }
                assert(!survives(writelog@, k as int));
            }
            let before = surviving_positions(writelog@, k as int);
            if kept {
                assert(before.push(k as int).map_values(|i: int| writelog@[i]) =~= before.map_values(
                    |i: int| writelog@[i],
                ).push(record));
            }
        }
        if kept {
            result.push(record);
        }
        k += 1;
    }
    proof {
        lemma_collapsed(writelog@);
    }
    result
}

/// One instruction that ran: where, in which mode, how long it is, and the
/// registers as they stood before it.
#[derive(Clone, Debug, PartialEq, Eq)]
pub struct VisitRecord {
    pub pc: u64,
    pub mode: Mode,
    pub inst_size: usize,
    pub registers: Vec<u64>,
}

/// What one run of a chain left behind: the registers at its end, the
/// instructions it ran, its writes with the overwritten ones dropped, and the
/// addresses of the return instructions it ran.
#[derive(Clone, Debug, PartialEq, Eq)]
pub struct Pod {
    pub registers: Vec<u64>,
    pub visited: Vec<VisitRecord>,
    pub writelog: Vec<WriteRecord>,
    pub retlog: Vec<u64>,
}

/// Number of different values in a sequence.
pub open spec fn distinct_count(s: Seq<u64>) -> nat {
    s.to_set().len()
}

impl Pod {
    /// The write log holds one write for each address.
    pub open spec fn wf(&self) -> bool {
        distinct_dests(self.writelog@)
    }

    /// A pod from the raw observations of a run.
    pub fn new(
        registers: Vec<u64>,
        visited: Vec<VisitRecord>,
        writelog: Vec<WriteRecord>,
        retlog: Vec<u64>,
    ) -> (pod: Pod)
        ensures
            pod.registers == registers,
            pod.visited == visited,
            pod.writelog@ == collapsed(writelog@),
            pod.retlog == retlog,
            pod.wf(),
    {
        Pod { registers, visited, writelog: collapse_writelog(&writelog), retlog }
    }

    pub fn retlog(&self) -> (r: &Vec<u64>)
        ensures
            r == &self.retlog,
    {
        &self.retlog
    }

    pub fn retlog_len(&self) -> (n: usize)
        ensures
            n == self.retlog@.len(),
    {
        self.retlog.len()
    }

    /// The pod's write log, collapsed once more.
    pub fn collapse_writelog(&self) -> (result: Vec<WriteRecord>)
        ensures
            result@ == collapsed(self.writelog@),
            distinct_dests(result@),
    {
        collapse_writelog(&self.writelog)
    }

    pub fn writelog_len(&self) -> (n: usize)
        ensures
            n == self.writelog@.len(),
    {
        self.writelog.len()
    }

    /// Number of different return instructions that ran.
    pub fn ff_uniq_retcount(&self) -> (n: usize)
        ensures
            n == distinct_count(self.retlog@),
    {
        let mut count: usize = 0;
        let mut i: usize = 0;
        proof {
            assert(self.retlog@.take(0).to_set() =~= Set::<u64>::empty());
        }
        while i < self.retlog.len()
            invariant
                i <= self.retlog@.len(),
                count == distinct_count(self.retlog@.take(i as int)),
                count <= i,
            decreases self.retlog@.len() - i,
        {
            let x = self.retlog[i];
            let mut seen = false;
            let mut j: usize = 0;
            while j < i
                invariant
                    j <= i,
                    i < self.retlog@.len(),
                    x == self.retlog@[i as int],
                    seen == exists|k: int| 0 <= k < j && self.retlog@[k] == x,
                decreases i - j,
            {
                if self.retlog[j] == x {
                    seen = true;
                }
                j += 1;
            }
            proof {
                let before = self.retlog@.take(i as int);
                assert(self.retlog@.take(i + 1) =~= before.push(x));
                before.lemma_push_to_set_commute(x);
                vstd::seq_lib::seq_to_set_is_finite(before);
                if seen {
                    let k = choose|k: int| 0 <= k < i && self.retlog@[k] == x;
                    assert(before[k] == x);
                    assert(before.to_set().contains(x));
                    assert(before.to_set().insert(x) =~= before.to_set());
                } else {
                    assert(!before.to_set().contains(x)) by {
                        if before.to_set().contains(x) {
                            let k = choose|k: int| 0 <= k < before.len() && before[k] == x;
                            assert(self.retlog@[k] == x);
                        }
                    }
                }
            }
            if !seen {
                count += 1;
            }
            i += 1;
        }
        assert(self.retlog@.take(i as int) =~= self.retlog@);
        count
    }
}

/// The words that a problem hands to a chain.
pub type Input = Vec<u64>;

/// The scores of a creature, one for each objective, in units of
/// `1 / FITNESS_SCALE`.
pub type Fitness = Vec<u64>;

/// Number of fitness units in one.
pub const FITNESS_SCALE: u64 = 10000;

/// Sum of the items of a sequence.
pub open spec fn total(s: Seq<u64>) -> nat
    decreases s.len(),
{
    if s.len() == 0 {
        0
    } else {
        total(s.drop_last()) + s.last() as nat
    }
}

pub trait FitnessOps {
    /// The mean of the scores, rounded down.
    spec fn spec_mean(&self) -> nat;

    /// There is a score to take the mean of.
    spec fn scored(&self) -> bool;

    fn mean(&self) -> (m: u64)
        requires
            self.scored(),
        ensures
            m == self.spec_mean(),
    ;
}

impl FitnessOps for Fitness {
    open spec fn spec_mean(&self) -> nat {
        total(self@) / self@.len()
    }

    open spec fn scored(&self) -> bool {
        self@.len() > 0
    }

    fn mean(&self) -> (m: u64) {
        let mut sum: u128 = 0;
        let mut i: usize = 0;
        while i < self.len()
            invariant
                i <= self@.len(),
                sum == total(self@.take(i as int)),
                sum <= i * u64::MAX,
            decreases self@.len() - i,
        {
            proof {
                assert(self@.take(i + 1).drop_last() =~= self@.take(i as int));
                assert(i * u64::MAX + u64::MAX == (i + 1) * u64::MAX) by (nonlinear_arith);
                assert(i * u64::MAX + u64::MAX <= usize::MAX * u64::MAX + u64::MAX)
                    by (nonlinear_arith)
                    requires
                        i <= usize::MAX,
                ;
            }
            sum = sum + self[i] as u128;
            i += 1;
        }
        proof {
            assert(self@.take(i as int) =~= self@);
            let n = self@.len() as int;
            assert(sum as int / n <= u64::MAX) by (nonlinear_arith)
                requires
                    0 <= sum <= n * u64::MAX,
                    n > 0,
            ;
        }
        (sum / self.len() as u128) as u64
    }
}

pub trait Pareto {
    /// No score is above the other's score for the same objective.
    spec fn nowhere_above(&self, other: &Fitness) -> bool;

    fn dominated_by(&self, other: &Fitness) -> (b: bool)
        ensures
            b == self.nowhere_above(other),
    ;
}

impl Pareto for Fitness {
    open spec fn nowhere_above(&self, other: &Fitness) -> bool {
        forall|i: int| 0 <= i < self@.len() && i < other@.len() ==> self@[i] <= other@[i]
    }

    fn dominated_by(&self, other: &Fitness) -> (b: bool) {
        let mut i: usize = 0;
        while i < self.len() && i < other.len()
            invariant
                forall|k: int| 0 <= k < i ==> self@[k] <= other@[k],
                i <= self@.len(),
                i <= other@.len(),
            decreases self@.len() - i,
        {
            if self[i] > other[i] {
                return false;
            }
            i += 1;
        }
        true
    }
}

/// One problem posed to a creature, and what its chain did on it once it ran.
#[derive(Clone, Debug, PartialEq, Eq)]
pub struct Case {
    pub input: Input,
    pub pod: Option<Pod>,
}

/// The problems posed to a creature, each with the pod of its run once the
/// creature has hatched.  No input occurs twice.
#[derive(Clone, Debug, PartialEq, Eq)]
pub struct Phenome {
    pub cases: Vec<Case>,
}

/// The inputs of the cases, in order.
pub open spec fn inputs_of(cases: Seq<Case>) -> Seq<Seq<u64>> {
    cases.map_values(|c: Case| c.input@)
}

/// Position of the first case for `input`, or the number of cases where there
/// is none.
pub open spec fn case_index(cases: Seq<Case>, input: Seq<u64>, from: int) -> int
    decreases cases.len() - from,
{
    if from < 0 || from >= cases.len() {
        cases.len() as int
    } else if cases[from].input@ == input {
        from
    } else {
        case_index(cases, input, from + 1)
    }
}

/// Some case holds a pod.
pub open spec fn any_hatched(cases: Seq<Case>) -> bool {
    exists|i: int| 0 <= i < cases.len() && (#[trigger] cases[i]).pod is Some
}

/// Whether two inputs hold the same words.
pub fn same_input(a: &Input, b: &Input) -> (same: bool)
    ensures
        same == (a@ == b@),
{
    if a.len() != b.len() {
        return false;
    }
    let mut i: usize = 0;
    while i < a.len()
        invariant
            a@.len() == b@.len(),
            i <= a@.len(),
            forall|k: int| 0 <= k < i ==> a@[k] == b@[k],
        decreases a@.len() - i,
    {
        if a[i] != b[i] {
            return false;
        }
        i += 1;
    }
    assert(a@ =~= b@);
    true
}

/// A copy of an input.
pub fn copy_input(a: &Input) -> (b: Input)
    ensures
        b@ == a@,
{
    let mut b: Vec<u64> = Vec::new();
    let mut i: usize = 0;
    while i < a.len()
        invariant
            i <= a@.len(),
            b@ == a@.take(i as int),
        decreases a@.len() - i,
    {
        b.push(a[i]);
        assert(a@.take(i + 1) =~= a@.take(i as int).push(a@[i as int]));
        i += 1;
    }
    assert(a@.take(i as int) =~= a@);
    b
}

pub proof fn lemma_case_index(cases: Seq<Case>, input: Seq<u64>, from: int)
    requires
        0 <= from <= cases.len(),
    ensures
        from <= case_index(cases, input, from) <= cases.len(),
        case_index(cases, input, from) < cases.len() ==> cases[case_index(
            cases,
            input,
            from,
        )].input@ == input,
        forall|k: int| from <= k < case_index(cases, input, from) ==> cases[k].input@ != input,
    decreases cases.len() - from,
{
    if from < cases.len() && cases[from].input@ != input {
        lemma_case_index(cases, input, from + 1);
    }
}

impl Phenome {
    pub open spec fn wf(&self) -> bool {
        inputs_of(self.cases@).no_duplicates()
    }

    /// A phenome without problems.
    pub fn new() -> (p: Phenome)
        ensures
            p.cases@.len() == 0,
            p.wf(),
    {
        Phenome { cases: Vec::new() }
    }

    pub fn len(&self) -> (n: usize)
        ensures
            n == self.cases@.len(),
    {
        self.cases.len()
    }

    /// Position of the case for `input`, or the number of cases where there
    /// is none.
    pub fn position(&self, input: &Input) -> (at: usize)
        ensures
            at == case_index(self.cases@, input@, 0),
            at <= self.cases@.len(),
            at < self.cases@.len() ==> self.cases@[at as int].input@ == input@,
            forall|k: int| 0 <= k < at ==> self.cases@[k].input@ != input@,
    {
        let mut i: usize = 0;
        proof {
            lemma_case_index(self.cases@, input@, 0);
        }
        while i < self.cases.len()
            invariant
                i <= self.cases@.len(),
                case_index(self.cases@, input@, 0) == case_index(self.cases@, input@, i as int),
                forall|k: int| 0 <= k < i ==> self.cases@[k].input@ != input@,
            decreases self.cases@.len() - i,
        {
            if same_input(&self.cases[i].input, input) {
                return i;
            }
            i += 1;
        }
        i
    }

    /// Puts `pod` under `input`: in place of what stood there, or as a new
    /// case after the others.
    pub fn insert(&mut self, input: Input, pod: Option<Pod>)
        requires
            old(self).wf(),
        ensures
            final(self).wf(),
            ({
                let at = case_index(old(self).cases@, input@, 0);
                &&& 0 <= at <= old(self).cases@.len()
                &&& final(self).cases@ == if at < old(self).cases@.len() {
                    old(self).cases@.update(at, Case { input, pod })
                } else {
                    old(self).cases@.push(Case { input, pod })
                }
            }),
    {
        let i = self.position(&input);
        let ghost before = self.cases@;
        let case = Case { input, pod };
        if i < self.cases.len() {
            self.cases[i] = case;
            proof {
                let now = self.cases@;
                assert(now[i as int].input@ == before[i as int].input@);
                assert(inputs_of(now) =~= inputs_of(before));
            }
        } else {
            self.cases.push(case);
            proof {
                let now = self.cases@;
                assert forall|a: int, b: int|
                    0 <= a < inputs_of(now).len() && 0 <= b < inputs_of(now).len() && a
                        != b implies inputs_of(now)[a] != inputs_of(now)[b] by {
                    if a < before.len() && b < before.len() {
                        assert(inputs_of(before)[a] != inputs_of(before)[b]);
                    }
                }
            }
        }
    }

    /// Whether some case holds a pod.
    pub fn hatched(&self) -> (b: bool)
        ensures
            b == any_hatched(self.cases@),
    {
        let mut i: usize = 0;
        while i < self.cases.len()
            invariant
                i <= self.cases@.len(),
                forall|k: int| 0 <= k < i ==> (#[trigger] self.cases@[k]).pod is None,
            decreases self.cases@.len() - i,
        {
            if self.cases[i].pod.is_some() {
                return true;
            }
            i += 1;
        }
        false
    }
}

/// What is counted in a pod.
#[derive(Copy, Clone, Debug, PartialEq, Eq, Structural)]
pub enum PodScore {
    /// The different return instructions that ran.
    UniqueReturns,
    /// The return instructions that ran.
    Returns,
    /// The addresses written to.
    Writes,
}

/// The count of one kind in a pod.
pub open spec fn pod_score(pod: Pod, which: PodScore) -> nat {
    match which {
        PodScore::UniqueReturns => distinct_count(pod.retlog@),
        PodScore::Returns => pod.retlog@.len(),
        PodScore::Writes => pod.writelog@.len(),
    }
}

/// Number of cases that hold a pod.
pub open spec fn hatched_count(cases: Seq<Case>) -> nat
    decreases cases.len(),
{
    if cases.len() == 0 {
        0
    } else {
        hatched_count(cases.drop_last()) + if cases.last().pod is Some {
            1nat
        } else {
            0nat
        }
    }
}

/// Sum of the counts of one kind over the pods of the cases.
pub open spec fn score_total(cases: Seq<Case>, which: PodScore) -> nat
    decreases cases.len(),
{
    if cases.len() == 0 {
        0
    } else {
        score_total(cases.drop_last(), which) + match cases.last().pod {
            Some(pod) => pod_score(pod, which),
            None => 0,
        }
    }
}

/// Mean of the counts of one kind over the pods of the cases, in fitness
/// units and rounded down; 0 where no case holds a pod.
pub open spec fn podwise_mean(cases: Seq<Case>, which: PodScore) -> nat {
    if hatched_count(cases) == 0 {
        0
    } else {
        score_total(cases, which) * FITNESS_SCALE as nat / hatched_count(cases)
    }
}

/// `n`, or the largest score where `n` is above it.
pub open spec fn saturated(n: nat) -> u64 {
    if n > u64::MAX {
        u64::MAX
    } else {
        n as u64
    }
}

/// The count of one kind in a pod.
pub fn score_pod(pod: &Pod, which: PodScore) -> (n: usize)
    ensures
        n == pod_score(*pod, which),
{
    match which {
        PodScore::UniqueReturns => pod.ff_uniq_retcount(),
        PodScore::Returns => pod.retlog_len(),
        PodScore::Writes => pod.writelog_len(),
    }
}

/// Sum of the counts of one kind over the pods of a phenome, and the number
/// of pods.
pub fn podwise_totals(phenome: &Phenome, which: PodScore) -> (t: (u128, usize))
    ensures
        t.0 == score_total(phenome.cases@, which),
        t.1 == hatched_count(phenome.cases@),
        t.0 <= t.1 * usize::MAX,
{
    let mut sum: u128 = 0;
    let mut count: usize = 0;
    let mut i: usize = 0;
    while i < phenome.cases.len()
        invariant
            i <= phenome.cases@.len(),
            sum == score_total(phenome.cases@.take(i as int), which),
            count == hatched_count(phenome.cases@.take(i as int)),
            count <= i,
            sum <= count * usize::MAX,
        decreases phenome.cases@.len() - i,
    {
        proof {
            assert(phenome.cases@.take(i + 1).drop_last() =~= phenome.cases@.take(i as int));
            assert(count * usize::MAX + usize::MAX == (count + 1) * usize::MAX)
                by (nonlinear_arith);
            let top = usize::MAX as int;
            assert(count * top + top <= 0xFFFF_FFFF_FFFF_FFFF * 0xFFFF_FFFF_FFFF_FFFF
                + 0xFFFF_FFFF_FFFF_FFFF) by (nonlinear_arith)
                requires
                    0 <= count <= top,
                    top <= 0xFFFF_FFFF_FFFF_FFFF,
            ;
        }
        match &phenome.cases[i].pod {
            Some(pod) => {
                sum = sum + score_pod(pod, which) as u128;
                count += 1;
            },
            None => {},
        }
        i += 1;
    }
    assert(phenome.cases@.take(i as int) =~= phenome.cases@);
    (sum, count)
}

pub trait FitFuncs {
    /// The cases that the scores are taken over.
    spec fn scored_cases(&self) -> Seq<Case>;

    /// Mean number of return instructions over the pods, rounded down; 0
    /// where there is no pod.
    fn avg_retlog_len(&self) -> (n: usize)
        ensures
            n == if hatched_count(self.scored_cases()) == 0 {
                0
            } else {
                score_total(self.scored_cases(), PodScore::Returns) / hatched_count(
                    self.scored_cases(),
                )
            },
    ;

    /// Mean of one count over the pods, in fitness units, and no more than
    /// the largest score.
    fn mean_podwise_fitness(&self, ff: PodScore) -> (m: u64)
        ensures
            m == saturated(podwise_mean(self.scored_cases(), ff)),
    ;

    fn ff_mean_uniq_retcount(&self) -> (m: u64)
        ensures
            m == saturated(podwise_mean(self.scored_cases(), PodScore::UniqueReturns)),
    ;

    fn ff_mean_retcount(&self) -> (m: u64)
        ensures
            m == saturated(podwise_mean(self.scored_cases(), PodScore::Returns)),
    ;

    fn ff_mean_writecount(&self) -> (m: u64)
        ensures
            m == saturated(podwise_mean(self.scored_cases(), PodScore::Writes)),
    ;
}

impl FitFuncs for Phenome {
    open spec fn scored_cases(&self) -> Seq<Case> {
        self.cases@
    }

    fn avg_retlog_len(&self) -> (n: usize) {
        let (sum, count) = podwise_totals(self, PodScore::Returns);
        if count == 0 {
            0
        } else {
            proof {
                let c = count as int;
                assert(sum as int / c <= usize::MAX) by (nonlinear_arith)
                    requires
                        0 <= sum <= c * usize::MAX,
                        c > 0,
                ;
            }
            (sum / count as u128) as usize
        }
    }

    fn mean_podwise_fitness(&self, ff: PodScore) -> (m: u64) {
        let (sum, count) = podwise_totals(self, ff);
        if count == 0 {
            0
        } else {
            let whole: u128 = sum / count as u128;
            let part: u128 = sum % count as u128;
            proof {
                let c = count as int;
                let scale = FITNESS_SCALE as int;
                assert(whole <= usize::MAX) by (nonlinear_arith)
                    requires
                        whole == sum as int / c,
                        0 <= sum <= c * usize::MAX,
                        c > 0,
                ;
                let t = part * scale;
                vstd::arithmetic::div_mod::lemma_fundamental_div_mod(sum as int, c);
                vstd::arithmetic::div_mod::lemma_fundamental_div_mod(t, c);
                assert(sum * scale == c * (whole * scale + t / c) + t % c) by (nonlinear_arith)
                    requires
                        sum == c * whole + part,
                        t == part * scale,
                        t == c * (t / c) + t % c,
                ;
                vstd::arithmetic::div_mod::lemma_mod_bound(t, c);
                vstd::arithmetic::div_mod::lemma_fundamental_div_mod_converse(
                    sum * scale,
                    c,
                    whole * scale + t / c,
                    t % c,
                );
            }
            let mean: u128 = whole * FITNESS_SCALE as u128 + part * FITNESS_SCALE as u128
                / count as u128;
            if mean > u64::MAX as u128 {
                u64::MAX
            } else {
                mean as u64
            }
        }
    }

    fn ff_mean_uniq_retcount(&self) -> (m: u64) {
        self.mean_podwise_fitness(PodScore::UniqueReturns)
    }

    fn ff_mean_retcount(&self) -> (m: u64) {
        self.mean_podwise_fitness(PodScore::Returns)
    }

    fn ff_mean_writecount(&self) -> (m: u64) {
        self.mean_podwise_fitness(PodScore::Writes)
    }
}

} // verus!
