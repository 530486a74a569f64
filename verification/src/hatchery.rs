//! The hatchery: what is decided around a run in the emulator.
//!
//! The emulator itself is not here.  This module says where a creature goes
//! when it arrives, what is put on the stack before its chain runs, and what
//! is made of the observations afterwards.

use crate::creature::Creature;
use crate::genotype::{entry_of, packed};
use crate::phenotype::{
    any_hatched, collapsed, copy_input, inputs_of, Case, Input, Phenome, Pod, VisitRecord,
    WriteRecord,
};
use crate::target::{Arch, Mode};
use vstd::prelude::*;

verus! {

/// Number of instructions that one run may take.
pub const INSTRUCTION_BUDGET: usize = 1024;

/// `n` and one more, as far as it can be counted.
pub open spec fn counted(n: usize) -> usize {
    if n < usize::MAX {
        (n + 1) as usize
    } else {
        n
    }
}

fn count(n: usize) -> (m: usize)
    ensures
        m == counted(n),
{
    if n < usize::MAX {
        n + 1
    } else {
        n
    }
}

/// The hatchery between two arrivals.
#[derive(Clone, Debug)]
pub struct Hatchery {
    /// Number of emulators in the carousel.
    pub num_engines: usize,
    /// The emulator whose turn it is.
    pub coop: usize,
    /// Number of creatures sent to an emulator.
    pub counter: usize,
    /// Number of creatures sent straight on.
    pub num_already_hatched: usize,
}

/// Where an arriving creature goes.
#[derive(Clone, Debug)]
pub enum Dispatch {
    /// Straight to the output: the creature has hatched before.
    Forward(Creature),
    /// To an emulator of the carousel.
    Hatch { engine: usize, creature: Creature },
}

impl Hatchery {
    pub open spec fn wf(&self) -> bool {
        self.coop < self.num_engines
    }

    /// A hatchery with `num_engines` emulators, the first of them in turn.
    pub fn new(num_engines: usize) -> (h: Hatchery)
        requires
            num_engines > 0,
        ensures
            h.wf(),
            h.num_engines == num_engines,
            h.coop == 0,
            h.counter == 0,
            h.num_already_hatched == 0,
    {
        Hatchery { num_engines, coop: 0, counter: 0, num_already_hatched: 0 }
    }

    /// Decides where an arriving creature goes.  One that has hatched goes
    /// straight on, as it is, and takes no emulator; one that has not goes to
    /// the emulator in turn.  The turn passes on either way.
    pub fn route(&mut self, incoming: Creature) -> (to: Dispatch)
        requires
            old(self).wf(),
        ensures
            final(self).wf(),
            final(self).num_engines == old(self).num_engines,
            final(self).coop == (old(self).coop + 1) % (old(self).num_engines as int),
            any_hatched(incoming.phenome.cases@) ==> to == Dispatch::Forward(incoming) && final(self).num_already_hatched == counted(old(self).num_already_hatched) && final(self).counter
                == old(self).counter,
            !any_hatched(incoming.phenome.cases@) ==> to == (Dispatch::Hatch {
                engine: old(self).coop,
                creature: incoming,
            }) && final(self).counter == counted(old(self).counter) && final(self).num_already_hatched == old(self).num_already_hatched,
    {
        let engine = self.coop;
        proof {
            if self.coop + 1 == self.num_engines {
                vstd::arithmetic::div_mod::lemma_mod_self_0(self.num_engines as int);
            } else {
                vstd::arithmetic::div_mod::lemma_small_mod(
                    (self.coop + 1) as nat,
                    self.num_engines as nat,
                );
            }
        }
        self.coop = if self.coop + 1 == self.num_engines {
            0
        } else {
            self.coop + 1
        };
        if incoming.has_hatched() {
            self.num_already_hatched = count(self.num_already_hatched);
            Dispatch::Forward(incoming)
        } else {
            self.counter = count(self.counter);
            Dispatch::Hatch { engine, creature: incoming }
        }
    }

    /// Whether the arrivals so far are a round number, at which the hatchery
    /// reports how many it emulated.
    pub fn report_due(&self) -> (due: bool)
        ensures
            due == ((self.counter as int + self.num_already_hatched as int) % 100000 == 0),
    {
        (self.counter as u128 + self.num_already_hatched as u128) % 100000 == 0
    }
}

/// What is set up in the emulator before a chain runs.
#[derive(Clone, Debug)]
pub struct Launch {
    /// The bytes written to the stack.
    pub payload: Vec<u8>,
    /// Where the payload is written: the middle of the stack region.
    pub stack_entry: u64,
    /// The stack pointer at the start: one word into the payload.
    pub sp: u64,
    /// Where the run starts: the entry of the chain.
    pub start_addr: u64,
    /// Number of instructions that the run may take.
    pub budget: usize,
}

/// The payload of a creature for an input, cut to half the stack.
pub open spec fn staged_payload(creature: Creature, input: Seq<u64>, stack_size: usize, arch: Arch) -> Seq<
    u8,
> {
    let whole = packed(
        creature.genome.alleles@,
        input,
        arch.spec_addr_width(),
        arch.spec_endian(),
    );
    if whole.len() > stack_size / 2 {
        whole.take((stack_size / 2) as int)
    } else {
        whole
    }
}

/// Lays out a run of the creature's chain on one input: the payload, cut to
/// half the stack region, goes to the middle of the region, the stack pointer
/// one word above, and the run starts at the entry of the chain.
pub fn stage(
    creature: &Creature,
    input: &Input,
    stack_addr: u64,
    stack_size: usize,
    arch: Arch,
) -> (launch: Launch)
    requires
        entry_of(creature.genome.alleles@) is Some,
        stack_addr + stack_size / 2 + arch.spec_addr_width() <= u64::MAX,
    ensures
        launch.payload@ == staged_payload(*creature, input@, stack_size, arch),
        launch.stack_entry == stack_addr + stack_size / 2,
        launch.sp == launch.stack_entry + arch.spec_addr_width(),
        Some(launch.start_addr) == entry_of(creature.genome.alleles@),
        launch.budget == INSTRUCTION_BUDGET,
{
    let mut payload = creature.genome.pack(input.as_slice(), arch);
    let start_addr = creature.genome.entry().unwrap();
    payload.truncate(stack_size / 2);
    let stack_entry = stack_addr + (stack_size / 2) as u64;
    let sp = stack_entry + arch.addr_width() as u64;
    Launch { payload, stack_entry, sp, start_addr, budget: INSTRUCTION_BUDGET }
}

/// The value of a write as the emulator hands it over, read as unsigned.
pub open spec fn unsigned_value(val: i64) -> u64 {
    if val >= 0 {
        val as u64
    } else {
        (val + 0x1_0000_0000_0000_0000) as u64
    }
}

/// The record of a write to writable memory.
pub fn write_record(pc: u64, addr: u64, size: usize, val: i64) -> (r: WriteRecord)
    ensures
        r == (WriteRecord { pc, dest_addr: addr, value: unsigned_value(val), size }),
{
    let value: u64 = if val >= 0 {
        val as u64
    } else {
        (val as i128 + 0x1_0000_0000_0000_0000i128) as u64
    };
    WriteRecord { pc, dest_addr: addr, value, size }
}

/// The record of an instruction that ran.  The size is kept in its lowest
/// four bits.
pub fn visit_record(addr: u64, mode: Mode, size: u32, registers: Vec<u64>) -> (r: VisitRecord)
    ensures
        r.pc == addr,
        r.mode == mode,
        r.inst_size == size % 16,
        r.registers == registers,
{
    VisitRecord { pc: addr, mode, inst_size: (size % 16) as usize, registers }
}

/// What one run was seen to do.
#[derive(Clone, Debug)]
pub struct Observed {
    /// The registers at the end.
    pub registers: Vec<u64>,
    /// The instructions that ran.
    pub visited: Vec<VisitRecord>,
    /// The writes to writable memory.
    pub writelog: Vec<WriteRecord>,
    /// The return instructions that ran.
    pub retlog: Vec<u64>,
    /// The indirect jumps that ran.
    pub jmplog: Vec<u64>,
}

/// Makes the pod of a run.  The write log is collapsed; the indirect jumps
/// are not kept.
pub fn hatch(run: Observed) -> (pod: Pod)
    ensures
        pod.registers == run.registers,
        pod.visited == run.visited,
        pod.writelog@ == collapsed(run.writelog@),
        pod.retlog == run.retlog,
        pod.wf(),
{
    Pod::new(run.registers, run.visited, run.writelog, run.retlog)
}

/// The phenome of a creature whose chain ran on each of its problems: the
/// same inputs in the same order, each with the pod of its run.
pub fn hatch_cases(creature: &Creature, mut pods: Vec<Pod>) -> (phenome: Phenome)
    requires
        creature.phenome.cases@.len() > 0,
        pods@.len() == creature.phenome.cases@.len(),
    ensures
        inputs_of(phenome.cases@) == inputs_of(creature.phenome.cases@),
        forall|i: int|
            0 <= i < phenome.cases@.len() ==> (#[trigger] phenome.cases@[i]).pod == Some(pods@[i]),
        any_hatched(phenome.cases@),
        creature.phenome.wf() ==> phenome.wf(),
{
    let ghost all = pods@;
    let n = creature.phenome.cases.len();
    // The cases are made last to first, as the pods come off the vector.
    let mut made: Vec<Case> = Vec::new();
    let mut i: usize = n;
    while i > 0
        invariant
            i <= n,
            n == creature.phenome.cases@.len(),
            all.len() == n,
            pods@ == all.take(i as int),
            made@.len() == n - i,
            forall|k: int|
                0 <= k < made@.len() ==> (#[trigger] made@[k]).input@ == creature.phenome.cases@[n
                    - 1 - k].input@ && made@[k].pod == Some(all[n - 1 - k]),
        decreases i,
    {
        i -= 1;
        let pod = pods.pop().unwrap();
        let input = copy_input(&creature.phenome.cases[i].input);
        made.push(Case { input, pod: Some(pod) });
        assert(pods@ =~= all.take(i as int));
    }
    let mut cases: Vec<Case> = Vec::new();
    while made.len() > 0
        invariant
            made@.len() <= n,
            n == creature.phenome.cases@.len(),
            all.len() == n,
            cases@.len() == n - made@.len(),
            forall|k: int|
                0 <= k < made@.len() ==> (#[trigger] made@[k]).input@ == creature.phenome.cases@[n
                    - 1 - k].input@ && made@[k].pod == Some(all[n - 1 - k]),
            forall|k: int|
                0 <= k < cases@.len() ==> (#[trigger] cases@[k]).input@
                    == creature.phenome.cases@[k].input@ && cases@[k].pod == Some(all[k]),
        decreases made@.len(),
    {
        let case = made.pop().unwrap();
        cases.push(case);
    }
    let phenome = Phenome { cases };
    proof {
        assert(inputs_of(phenome.cases@) =~= inputs_of(creature.phenome.cases@));
        assert(phenome.cases@[0].pod is Some);
    }
    phenome
}

} // verus!
