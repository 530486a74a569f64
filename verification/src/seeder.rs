//! The seeder: random creatures with the problems of a run posed to them.

use crate::creature::{chain_name, posed, Creature};
use crate::genotype::{entry_of, seeded_allele, slots_at_rate, Chain};
use crate::params::Config;
use crate::phenotype::{any_hatched, inputs_of};
use crate::target::{image_wf, usable_segs, Seg};
use rand_isaac::isaac64::Isaac64Rng;
use vstd::prelude::*;

verus! {

/// The inputs of a phenome to which the first `n` problems were posed in
/// turn: the different problems among them, each where it came first.
pub open spec fn posed_all(problems: Seq<Vec<u64>>, n: int) -> Seq<Seq<u64>>
    decreases n,
{
    if n <= 0 {
        Seq::empty()
    } else {
        posed(posed_all(problems, n - 1), problems[n - 1]@)
    }
}

/// Makes a creature of a chain: numbers it, names it, and poses the
/// problems to it.  A chain without a gadget to enter by is rejected.
pub fn creature_of(genome: Chain, problem_set: &Vec<Vec<u64>>, index: usize, config: &Config) -> (made:
    Option<Creature>)
    ensures
        made is Some <==> entry_of(genome.alleles@) is Some,
        made matches Some(c) ==> {
            &&& c.genome == genome
            &&& c.index == index
            &&& c.name@ == chain_name(genome, config.arch)
            &&& c.fitness is None
            &&& c.phenome.wf()
            &&& inputs_of(c.phenome.cases@) == posed_all(problem_set@, problem_set@.len() as int)
            &&& !any_hatched(c.phenome.cases@)
        },
{
    if genome.entry().is_none() {
        return None;
    }
    let mut creature = Creature::new(genome, index, config.arch);
    let mut n: usize = 0;
    assert(inputs_of(creature.phenome.cases@) =~= posed_all(problem_set@, 0));
    while n < problem_set.len()
        invariant
            n <= problem_set@.len(),
            creature.genome == genome,
            creature.index == index,
            creature.name@ == chain_name(genome, config.arch),
            creature.fitness is None,
            creature.phenome.wf(),
            inputs_of(creature.phenome.cases@) == posed_all(problem_set@, n as int),
            !any_hatched(creature.phenome.cases@),
        decreases problem_set@.len() - n,
    {
        creature.pose_problem(&problem_set[n]);
        n += 1;
    }
    Some(creature)
}

/// Draws one creature.  The draw is rejected where the chain has no gadget
/// to enter by; that cannot happen where the image has a usable segment and
/// chains have an allele at least.
pub fn new_creature(
    rng: &mut Isaac64Rng,
    problem_set: &Vec<Vec<u64>>,
    index: usize,
    config: &Config,
    image: &Vec<Seg>,
) -> (made: Option<Creature>)
    requires
        config.min_creature_length <= config.max_creature_length,
        image_wf(image@),
    ensures
        usable_segs(image@).len() > 0 && config.min_creature_length > 0 ==> made is Some,
        usable_segs(image@).len() == 0 ==> made is None,
        made matches Some(c) ==> {
            &&& c.genome.wf()
            &&& c.genome.generation == 0
            &&& config.min_creature_length <= c.genome.alleles@.len()
            &&& c.genome.alleles@.len() < config.max_creature_length || c.genome.alleles@.len()
                == config.min_creature_length
            &&& forall|i: int|
                0 <= i < c.genome.alleles@.len() ==> seeded_allele(
                    #[trigger] c.genome.alleles@[i],
                    image@,
                    config.arch.spec_mode(),
                )
            &&& slots_at_rate(c.genome.alleles@, config.input_slot_freq)
            &&& c.index == index
            &&& c.name@ == chain_name(c.genome, config.arch)
            &&& c.fitness is None
            &&& c.phenome.wf()
            &&& inputs_of(c.phenome.cases@) == posed_all(problem_set@, problem_set@.len() as int)
            &&& !any_hatched(c.phenome.cases@)
        },
{
    let len_range = (config.min_creature_length, config.max_creature_length);
    let genome = Chain::from_seed(rng, len_range, config, image);
    proof {
        if entry_of(genome.alleles@) is Some {
            assert forall|i: int| 0 <= i < genome.alleles@.len() implies (
            #[trigger] genome.alleles@[i]).wf() by {
                assert(seeded_allele(genome.alleles@[i], image@, config.arch.spec_mode()));
            }
        }
    }
    creature_of(genome, problem_set, index, config)
}

/// The seeder between two draws.
#[derive(Clone, Debug)]
pub struct Seeder {
    /// Number of the next creature.
    pub index: usize,
    /// Number of creatures to make.
    pub num_wanted: usize,
    /// Number of draws rejected so far, as far as it can be counted.
    pub rejected: usize,
}

/// What the seeder did in one step.
#[derive(Clone, Debug)]
pub enum Seeding {
    /// A creature to send on.
    Emit(Creature),
    /// The draw had no gadget to enter by and was dropped.
    Rejected,
    /// Every creature wanted has been made.
    Done,
}

impl Seeder {
    /// A seeder that has `num_wanted` creatures to make.
    pub fn new(num_wanted: usize) -> (s: Seeder)
        ensures
            s.index == 0,
            s.num_wanted == num_wanted,
            s.rejected == 0,
    {
        Seeder { index: 0, num_wanted, rejected: 0 }
    }

    /// Makes the next creature, if one is wanted still.  A creature that is
    /// emitted bears the next number; a rejected draw uses no number and is
    /// counted.
    pub fn step(
        &mut self,
        rng: &mut Isaac64Rng,
        problem_set: &Vec<Vec<u64>>,
        config: &Config,
        image: &Vec<Seg>,
    ) -> (did: Seeding)
        requires
            config.min_creature_length <= config.max_creature_length,
            image_wf(image@),
        ensures
            final(self).num_wanted == old(self).num_wanted,
            did is Done <==> old(self).index >= old(self).num_wanted,
            did is Done ==> *final(self) == *old(self),
            did matches Seeding::Emit(c) ==> {
                &&& c.index == old(self).index
                &&& final(self).index == old(self).index + 1
                &&& final(self).rejected == old(self).rejected
                &&& c.genome.wf()
                &&& c.genome.generation == 0
                &&& config.min_creature_length <= c.genome.alleles@.len()
                &&& c.genome.alleles@.len() < config.max_creature_length
                    || c.genome.alleles@.len() == config.min_creature_length
                &&& forall|i: int|
                    0 <= i < c.genome.alleles@.len() ==> seeded_allele(
                        #[trigger] c.genome.alleles@[i],
                        image@,
                        config.arch.spec_mode(),
                    )
                &&& slots_at_rate(c.genome.alleles@, config.input_slot_freq)
                &&& c.name@ == chain_name(c.genome, config.arch)
                &&& c.fitness is None
                &&& c.phenome.wf()
                &&& inputs_of(c.phenome.cases@) == posed_all(
                    problem_set@,
                    problem_set@.len() as int,
                )
                &&& !any_hatched(c.phenome.cases@)
            },
            did is Rejected ==> final(self).index == old(self).index && final(self).rejected
                == if old(self).rejected < usize::MAX {
                (old(self).rejected + 1) as usize
            } else {
                old(self).rejected
            },
            did is Rejected ==> usable_segs(image@).len() == 0 || config.min_creature_length == 0,
            old(self).index < old(self).num_wanted && usable_segs(image@).len() == 0 ==> did
                is Rejected,
    {
        if self.index >= self.num_wanted {
            return Seeding::Done;
        }
        match new_creature(rng, problem_set, self.index, config, image) {
            Some(creature) => {
                self.index += 1;
                Seeding::Emit(creature)
            },
            None => {
                if self.rejected < usize::MAX {
                    self.rejected += 1;
                }
                Seeding::Rejected
            },
        }
    }
}

} // verus!
