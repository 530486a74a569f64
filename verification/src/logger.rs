//! The logger: a rolling window of the latest creatures, and what is counted
//! in it.

use crate::creature::Creature;
use crate::phenotype::{any_hatched, FitnessOps};
use vstd::prelude::*;
use vstd::string::*;

verus! {

/// The latest creatures, up to a fixed number of them.
#[derive(Clone, Debug)]
pub struct CircBuf {
    /// The creatures held.  Once the buffer is full, the oldest stands at
    /// `head` and the others follow it, round the end.
    pub buf: Vec<Creature>,
    /// Number of creatures that the buffer holds at most.
    pub capacity: usize,
    /// Place of the oldest creature once the buffer is full.
    pub head: usize,
}

impl CircBuf {
    pub open spec fn wf(&self) -> bool {
        &&& self.buf@.len() <= self.capacity
        &&& self.head <= self.buf@.len()
        &&& self.buf@.len() < self.capacity ==> self.head == 0
        &&& self.capacity > 0 ==> self.head < self.capacity
    }

    /// The creatures held, oldest first.
    pub open spec fn recent(&self) -> Seq<Creature> {
        self.buf@.subrange(self.head as int, self.buf@.len() as int) + self.buf@.subrange(
            0,
            self.head as int,
        )
    }

    /// An empty buffer for `capacity` creatures.
    pub fn new(capacity: usize) -> (b: CircBuf)
        ensures
            b.wf(),
            b.capacity == capacity,
            b.recent().len() == 0,
    {
        CircBuf { buf: Vec::new(), capacity, head: 0 }
    }

    /// Takes a creature in.  A full buffer lets its oldest creature go.
    pub fn push(&mut self, creature: Creature)
        requires
            old(self).wf(),
        ensures
            final(self).wf(),
            final(self).capacity == old(self).capacity,
            final(self).recent() == if old(self).capacity == 0 {
                old(self).recent()
            } else if old(self).recent().len() < old(self).capacity {
                old(self).recent().push(creature)
            } else {
                old(self).recent().drop_first().push(creature)
            },
    {
        if self.capacity == 0 {
            return ;
        }
        let ghost before = self.recent();
        if self.buf.len() < self.capacity {
            self.buf.push(creature);
            assert(self.recent() =~= before.push(creature));
        } else {
            let at = self.head;
            self.buf[at] = creature;
            self.head = if at + 1 == self.capacity {
                0
            } else {
                at + 1
            };
            assert(self.recent() =~= before.drop_first().push(creature));
        }
    }
}

/// A creature that the logger can count: it has hatched and has a score.
pub open spec fn loggable(c: Creature) -> bool {
    &&& any_hatched(c.phenome.cases@)
    &&& c.fitness is Some
    &&& c.fitness->0@.len() >= 1
}

/// The mean score of a creature.
pub open spec fn mean_of(c: Creature) -> nat {
    c.fitness->0.spec_mean()
}

/// Sum of the mean scores of the creatures.
pub open spec fn sum_fit(s: Seq<Creature>) -> nat
    decreases s.len(),
{
    if s.len() == 0 {
        0
    } else {
        sum_fit(s.drop_last()) + mean_of(s.last())
    }
}

/// Sum of the generations of the creatures.
pub open spec fn sum_gen(s: Seq<Creature>) -> nat
    decreases s.len(),
{
    if s.len() == 0 {
        0
    } else {
        sum_gen(s.drop_last()) + s.last().genome.generation as nat
    }
}

/// Sum of the genome lengths of the creatures.
pub open spec fn sum_len(s: Seq<Creature>) -> nat
    decreases s.len(),
{
    if s.len() == 0 {
        0
    } else {
        sum_len(s.drop_last()) + s.last().genome.alleles@.len()
    }
}

/// The highest mean score among `floor` and the creatures.
pub open spec fn top_fit(s: Seq<Creature>, floor: nat) -> nat
    decreases s.len(),
{
    if s.len() == 0 {
        floor
    } else {
        let before = top_fit(s.drop_last(), floor);
        if mean_of(s.last()) > before {
            mean_of(s.last())
        } else {
            before
        }
    }
}

/// The highest generation among `floor` and the creatures.
pub open spec fn top_gen(s: Seq<Creature>, floor: nat) -> nat
    decreases s.len(),
{
    if s.len() == 0 {
        floor
    } else {
        let before = top_gen(s.drop_last(), floor);
        if s.last().genome.generation > before {
            s.last().genome.generation as nat
        } else {
            before
        }
    }
}

/// The places of the creatures whose mean score is above `floor` and above
/// every mean score before them.
pub open spec fn record_places(s: Seq<Creature>, floor: nat) -> Seq<usize>
    decreases s.len(),
{
    if s.len() == 0 {
        Seq::empty()
    } else {
        let before = record_places(s.drop_last(), floor);
        if mean_of(s.last()) > top_fit(s.drop_last(), floor) {
            before.push((s.len() - 1) as usize)
        } else {
            before
        }
    }
}

/// What the logger keeps from one analysis to the next.
#[derive(Clone, Debug)]
pub struct Analyst {
    /// The highest mean score seen so far.
    pub max_fitness: u64,
    /// The highest generation seen so far.
    pub max_gen: usize,
    /// Number of analyses made, as far as it can be counted.
    pub log_counter: usize,
}

/// What one analysis of the window found.  The means are the sums by the
/// count.
#[derive(Clone, Debug)]
pub struct Report {
    /// Number of creatures in the window.
    pub count: usize,
    /// Sum of their mean scores.
    pub sum_fit: u128,
    /// Sum of their generations.
    pub sum_gen: u128,
    /// Sum of their genome lengths.
    pub sum_len: u128,
    /// The highest generation seen so far.
    pub max_gen: usize,
    /// The highest mean score seen so far.
    pub max_fitness: u64,
    /// The places in the window of the creatures that raised the highest
    /// mean score.
    pub records: Vec<usize>,
    /// Whether this is the first analysis, which gets a header.
    pub first: bool,
}

impl Analyst {
    /// An analyst that has seen nothing.
    pub fn new() -> (a: Analyst)
        ensures
            a.max_fitness == 0,
            a.max_gen == 0,
            a.log_counter == 0,
    {
        Analyst { max_fitness: 0, max_gen: 0, log_counter: 0 }
    }

    /// Counts the window.
    pub fn analyse(&mut self, window: &Vec<Creature>) -> (report: Report)
        requires
            forall|i: int| 0 <= i < window@.len() ==> loggable(#[trigger] window@[i]),
        ensures
            report.count == window@.len(),
            report.sum_fit == sum_fit(window@),
            report.sum_gen == sum_gen(window@),
            report.sum_len == sum_len(window@),
            report.max_gen == top_gen(window@, old(self).max_gen as nat),
            report.max_fitness == top_fit(window@, old(self).max_fitness as nat),
            report.records@ == record_places(window@, old(self).max_fitness as nat),
            report.first == (old(self).log_counter == 0),
            final(self).max_gen == report.max_gen,
            final(self).max_fitness == report.max_fitness,
            final(self).log_counter == if old(self).log_counter < usize::MAX {
                (old(self).log_counter + 1) as usize
            } else {
                old(self).log_counter
            },
    {
        let ghost floor_fit = self.max_fitness as nat;
        let ghost floor_gen = self.max_gen as nat;
        let mut max_fitness = self.max_fitness;
        let mut max_gen = self.max_gen;
        let mut sum_f: u128 = 0;
        let mut sum_g: u128 = 0;
        let mut sum_l: u128 = 0;
        let mut records: Vec<usize> = Vec::new();
        let mut i: usize = 0;
        while i < window.len()
            invariant
                i <= window@.len(),
                forall|k: int| 0 <= k < window@.len() ==> loggable(#[trigger] window@[k]),
                sum_f == sum_fit(window@.take(i as int)),
                sum_g == sum_gen(window@.take(i as int)),
                sum_l == sum_len(window@.take(i as int)),
                sum_f <= i * u64::MAX,
                sum_g <= i * usize::MAX,
                sum_l <= i * usize::MAX,
                max_gen == top_gen(window@.take(i as int), floor_gen),
                max_fitness == top_fit(window@.take(i as int), floor_fit),
                records@ == record_places(window@.take(i as int), floor_fit),
            decreases window@.len() - i,
        {
            proof {
                assert(window@.take(i + 1).drop_last() =~= window@.take(i as int));
                assert(window@.take(i + 1).last() == window@[i as int]);
                assert(loggable(window@[i as int]));
                let top = usize::MAX as int;
                assert(i * top + top <= 0xFFFF_FFFF_FFFF_FFFF * 0xFFFF_FFFF_FFFF_FFFF
                    + 0xFFFF_FFFF_FFFF_FFFF) by (nonlinear_arith)
                    requires
                        0 <= i <= top,
                        top <= 0xFFFF_FFFF_FFFF_FFFF,
                ;
                assert(i * u64::MAX + u64::MAX <= 0xFFFF_FFFF_FFFF_FFFF * 0xFFFF_FFFF_FFFF_FFFF
                    + 0xFFFF_FFFF_FFFF_FFFF) by (nonlinear_arith)
                    requires
                        0 <= i <= 0xFFFF_FFFF_FFFF_FFFF,
                ;
                assert(i * top + top == (i + 1) * top) by (nonlinear_arith);
                assert(i * u64::MAX + u64::MAX == (i + 1) * u64::MAX) by (nonlinear_arith);
            }
            let creature = &window[i];
            let fit: u64 = match &creature.fitness {
                Some(fvec) => fvec.mean(),
                None => {
                    assert(false);
                    0
                },
            };
            if fit > max_fitness {
                records.push(i);
                max_fitness = fit;
            }
            sum_f = sum_f + fit as u128;
            let gen = creature.generation();
            if gen > max_gen {
                max_gen = gen;
            }
            sum_g = sum_g + gen as u128;
            sum_l = sum_l + creature.genome.len() as u128;
            i += 1;
        }
        assert(window@.take(i as int) =~= window@);
        let first = self.log_counter == 0;
        self.max_fitness = max_fitness;
        self.max_gen = max_gen;
        if self.log_counter < usize::MAX {
            self.log_counter += 1;
        }
        Report {
            count: window.len(),
            sum_fit: sum_f,
            sum_gen: sum_g,
            sum_len: sum_l,
            max_gen,
            max_fitness,
            records,
            first,
        }
    }
}

/// The ingest side of the logger between two arrivals.
#[derive(Clone, Debug)]
pub struct Ingest {
    /// Number of arrivals between two analyses.
    pub period: u64,
    /// Number of arrivals since the last one that called for an analysis,
    /// that one included.
    pub phase: u64,
}

impl Ingest {
    pub open spec fn wf(&self) -> bool {
        self.phase < self.period
    }

    /// The ingest side before the first arrival.
    pub fn new(period: u64) -> (g: Ingest)
        requires
            period > 0,
        ensures
            g.wf(),
            g.period == period,
            g.phase == 0,
    {
        Ingest { period, phase: 0 }
    }

    /// Counts an arrival and says whether it calls for an analysis: the
    /// first does, and every `period`-th after it.
    pub fn on_arrival(&mut self) -> (due: bool)
        requires
            old(self).wf(),
        ensures
            final(self).wf(),
            final(self).period == old(self).period,
            due == (old(self).phase == 0),
            final(self).phase == (old(self).phase + 1) % (old(self).period as int),
    {
        let due = self.phase == 0;
        proof {
            if self.phase + 1 == self.period {
                vstd::arithmetic::div_mod::lemma_mod_self_0(self.period as int);
            } else {
                vstd::arithmetic::div_mod::lemma_small_mod(
                    (self.phase + 1) as nat,
                    self.period as nat,
                );
            }
        }
        self.phase = if self.phase + 1 == self.period {
            0
        } else {
            self.phase + 1
        };
        due
    }
}

/// The first `n` cells of a row: each cell with a tab after it, the last of
/// the row with a line end.
pub open spec fn row_upto(cells: Seq<String>, n: int) -> Seq<char>
    decreases n,
{
    if n <= 0 {
        Seq::empty()
    } else {
        row_upto(cells, n - 1) + cells[n - 1]@ + if n < cells.len() {
            seq!['\t']
        } else {
            seq!['\n']
        }
    }
}

/// A row of the log: the cells with tabs between them and a line end after
/// the last.  No cells make an empty row.
pub fn log_row(cells: &Vec<String>) -> (row: String)
    ensures
        row@ == row_upto(cells@, cells@.len() as int),
{
    let mut row = String::new();
    let mut i: usize = 0;
    while i < cells.len()
        invariant
            i <= cells@.len(),
            row@ == row_upto(cells@, i as int),
        decreases cells@.len() - i,
    {
        let ghost before = row@;
        row.append(cells[i].as_str());
        proof {
            reveal_strlit("\t");
            reveal_strlit("\n");
        }
        if i + 1 < cells.len() {
            row.append("\t");
            assert(row@ =~= before + cells@[i as int]@ + seq!['\t']);
        } else {
            row.append("\n");
            assert(row@ =~= before + cells@[i as int]@ + seq!['\n']);
        }
        i += 1;
    }
    row
}

/// The rows that an analysis adds to the log: the values, and before them,
/// the first time, the names.
pub fn log(names: &Vec<String>, values: &Vec<String>, counter: usize) -> (rows: Vec<String>)
    ensures
        rows@.len() == if counter == 0 {
            2int
        } else {
            1int
        },
        counter == 0 ==> rows@[0]@ == row_upto(names@, names@.len() as int),
        rows@.last()@ == row_upto(values@, values@.len() as int),
{
    let mut rows: Vec<String> = Vec::new();
    if counter == 0 {
        rows.push(log_row(names));
    }
    rows.push(log_row(values));
    rows
}

} // verus!
