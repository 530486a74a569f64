//! The evaluator: scores for what a creature's chain did.

use crate::creature::Creature;
use crate::phenotype::{podwise_mean, saturated, FitFuncs, Fitness, PodScore};
use vstd::prelude::*;

verus! {

/// The scores of a phenome: the mean numbers, over its pods, of different
/// return instructions, of return instructions, and of addresses written to.
pub open spec fn scores_of(creature: Creature) -> Seq<u64> {
    seq![
        saturated(podwise_mean(creature.phenome.cases@, PodScore::UniqueReturns)),
        saturated(podwise_mean(creature.phenome.cases@, PodScore::Returns)),
        saturated(podwise_mean(creature.phenome.cases@, PodScore::Writes)),
    ]
}

/// Scores a creature.  Whatever it did, it leaves with a fitness, and is
/// otherwise as it came.
pub fn evaluate(creature: &mut Creature)
    ensures
        final(creature).fitness is Some,
        final(creature).fitness->0@ == scores_of(*old(creature)),
        final(creature).fitness->0@.len() >= 1,
        final(creature).genome == old(creature).genome,
        final(creature).phenome == old(creature).phenome,
        final(creature).index == old(creature).index,
        final(creature).name == old(creature).name,
{
    let mut fitness: Fitness = Vec::new();
    fitness.push(creature.phenome.ff_mean_uniq_retcount());
    fitness.push(creature.phenome.ff_mean_retcount());
    fitness.push(creature.phenome.ff_mean_writecount());
    assert(fitness@ =~= scores_of(*creature));
    creature.fitness = Some(fitness);
}

} // verus!
