//! The plumbing between the stages: what a pipeline node and the pond decide.

use crate::creature::Creature;
use crate::phenotype::any_hatched;
use crate::rng::shuffle;
use rand_isaac::isaac64::Isaac64Rng;
use vstd::prelude::*;

verus! {

/// Exit code of a run that ended in order.
pub const EXIT_OK: i32 = 0;

/// Exit code of a run whose main path broke.
pub const EXIT_PIPELINE_BROKEN: i32 = 99;

/// A pipeline node between two items: one input, a primary output numbered
/// 0, and fanout outputs numbered from 1.
#[derive(Clone, Debug)]
pub struct Pipeline {
    /// Number of outputs, the primary one included.
    pub outputs: usize,
    /// Number of items at which the node concludes; 0 for none.
    pub limit: usize,
    /// Number of items received, as far as it can be counted.
    pub count: usize,
}

/// What a node does with an item.
#[derive(Copy, Clone, Debug, PartialEq, Eq, Structural)]
pub enum Relay {
    /// Send a clone to each of the outputs 1 to `fanout`, in that order, and
    /// then the item itself to output 0.
    Pass { fanout: usize },
    /// The limit is reached: drop the item and every output, and end the
    /// program in order.
    Conclude,
}

/// What a node does when a send fails.
#[derive(Copy, Clone, Debug, PartialEq, Eq, Structural)]
pub enum Failure {
    /// Note it and go on.
    Logged,
    /// End the program with this exit code.
    Fatal(i32),
}

impl Pipeline {
    /// A node with the given number of outputs and limit.
    pub fn new(outputs: usize, limit: usize) -> (p: Pipeline)
        requires
            outputs >= 1,
        ensures
            p.outputs == outputs,
            p.limit == limit,
            p.count == 0,
    {
        Pipeline { outputs, limit, count: 0 }
    }

    /// Decides what to do with the next item.  The item is passed on unless
    /// the node has a limit and the item is the one that reaches it.
    pub fn on_item(&mut self) -> (relay: Relay)
        requires
            old(self).outputs >= 1,
        ensures
            final(self).outputs == old(self).outputs,
            final(self).limit == old(self).limit,
            final(self).count == if old(self).count < usize::MAX {
                (old(self).count + 1) as usize
            } else {
                old(self).count
            },
            relay == if old(self).limit == 0 || final(self).count < old(self).limit {
                Relay::Pass { fanout: (old(self).outputs - 1) as usize }
            } else {
                Relay::Conclude
            },
    {
        if self.count < usize::MAX {
            self.count += 1;
        }
        if self.limit == 0 || self.count < self.limit {
            Relay::Pass { fanout: self.outputs - 1 }
        } else {
            Relay::Conclude
        }
    }
}

/// What follows a failed send: on the primary output the main path is lost
/// and the program ends; on a fanout output an observer is lost and the node
/// goes on.
pub fn on_send_error(output: usize) -> (f: Failure)
    ensures
        f == if output == 0 {
            Failure::Fatal(EXIT_PIPELINE_BROKEN)
        } else {
            Failure::Logged
        },
{
    if output == 0 {
        Failure::Fatal(EXIT_PIPELINE_BROKEN)
    } else {
        Failure::Logged
    }
}

/// Where the pond sends a creature.
#[derive(Copy, Clone, Debug, PartialEq, Eq, Structural)]
pub enum Destination {
    /// Back to the breeder: the creature has hatched.
    Breeder,
    /// To the hatchery: the creature has not hatched yet.
    Hatchery,
}

/// Where a creature goes from the pond.
pub open spec fn destination_of(c: Creature) -> Destination {
    if any_hatched(c.phenome.cases@) {
        Destination::Breeder
    } else {
        Destination::Hatchery
    }
}

/// A creature on its way out of the pond.
#[derive(Clone, Debug)]
pub struct Routed {
    pub to: Destination,
    pub creature: Creature,
}

/// The pond: the creatures that the breeder released, at rest until enough
/// have gathered.
#[derive(Clone, Debug)]
pub struct Pond {
    /// The creatures at rest.
    pub pond: Vec<Creature>,
    /// Number of creatures that are sent on at a time.
    pub window_size: usize,
}

/// The pond with `incoming` let the creatures of `mixed` go: `mixed` is the
/// pond with the newcomer in some order, the last `window_size` of it leave,
/// last first, each to its destination, and the others stay.
pub open spec fn released(
    before: Seq<Creature>,
    incoming: Creature,
    window_size: int,
    mixed: Seq<Creature>,
    after: Seq<Creature>,
    sent: Seq<Routed>,
) -> bool {
    &&& mixed.to_multiset() == before.push(incoming).to_multiset()
    &&& mixed.len() == before.len() + 1
    &&& after == mixed.take(mixed.len() - window_size)
    &&& sent.len() == window_size
    &&& forall|k: int|
        0 <= k < sent.len() ==> (#[trigger] sent[k]).creature == mixed[mixed.len() - 1 - k]
            && sent[k].to == destination_of(sent[k].creature)
}

impl Pond {
    /// An empty pond.
    pub fn new(window_size: usize) -> (p: Pond)
        ensures
            p.pond@.len() == 0,
            p.window_size == window_size,
    {
        Pond { pond: Vec::new(), window_size }
    }

    /// Takes a creature into the pond.  Once the pond holds more than a
    /// window of creatures, it is stirred and a window of them is sent on:
    /// the hatched to the breeder, the others to the hatchery.
    pub fn receive(&mut self, critter: Creature, rng: &mut Isaac64Rng) -> (sent: Vec<Routed>)
        ensures
            final(self).window_size == old(self).window_size,
            old(self).pond@.len() + 1 <= old(self).window_size ==> sent@.len() == 0 && final(self).pond@ == old(self).pond@.push(critter),
            old(self).pond@.len() + 1 > old(self).window_size ==> exists|mixed: Seq<Creature>| #[trigger]
                released(
                    old(self).pond@,
                    critter,
                    old(self).window_size as int,
                    mixed,
                    final(self).pond@,
                    sent@,
                ),
    {
        let ghost before = self.pond@;
        self.pond.push(critter);
        let mut sent: Vec<Routed> = Vec::new();
        if self.pond.len() > self.window_size {
            shuffle(&mut self.pond, rng);
            let ghost mixed = self.pond@;
            proof {
                mixed.to_multiset_ensures();
                before.push(critter).to_multiset_ensures();
            }
            let mut i: usize = 0;
            let window_size = self.window_size;
            while i < window_size
                invariant
                    i <= window_size,
                    self.window_size == window_size,
                    window_size < mixed.len(),
                    self.pond@ == mixed.take(mixed.len() - i),
                    sent@.len() == i,
                    forall|k: int|
                        0 <= k < sent@.len() ==> (#[trigger] sent@[k]).creature == mixed[mixed.len()
                            - 1 - k] && sent@[k].to == destination_of(sent@[k].creature),
                decreases window_size - i,
            {
                let leaving = self.pond.pop().unwrap();
                let to = if leaving.has_hatched() {
                    Destination::Breeder
                } else {
                    Destination::Hatchery
                };
                sent.push(Routed { to, creature: leaving });
                i += 1;
                assert(self.pond@ =~= mixed.take(mixed.len() - i));
            }
            proof {
                assert(released(
                    before,
                    critter,
                    self.window_size as int,
                    mixed,
                    self.pond@,
                    sent@,
                ));
            }
        }
        sent
    }
}

} // verus!
