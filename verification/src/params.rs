//! The settings of a run, and the fixed-point numbers they are written in.
//!
//! Rates, shares and factors are counted in units of 2^-24, the resolution of
//! one single-precision draw from the unit interval: `UNIT` stands for one.

use crate::target::Arch;
use vstd::prelude::*;

verus! {

/// One, in fixed point.
pub const UNIT: u32 = 0x0100_0000;

/// Whether an event of the given rate happens on a draw: the top 24 bits of
/// the draw lie below the rate.
pub open spec fn happens(draw: u32, rate: u32) -> bool {
    draw / 256 < rate
}

pub fn chance(draw: u32, rate: u32) -> (b: bool)
    ensures
        b == happens(draw, rate),
        rate == 0 ==> !b,
        rate >= UNIT ==> b,
{
    draw / 256 < rate
}

/// The share `degree` of `n` items, rounded up, and never more than `n`.
pub open spec fn share_of(n: nat, degree: u32) -> nat {
    let raw = (n * degree + UNIT - 1) / (UNIT as int);
    if raw < n {
        raw as nat
    } else {
        n
    }
}

pub fn share(n: usize, degree: u32) -> (k: usize)
    ensures
        k == share_of(n as nat, degree),
        k <= n,
{
    assert(n * degree <= 0xFFFF_FFFF_FFFF_FFFF * 0xFFFF_FFFF) by (nonlinear_arith)
        requires
            n <= 0xFFFF_FFFF_FFFF_FFFF,
            degree <= 0xFFFF_FFFF,
    ;
    let raw: u128 = (n as u128 * degree as u128 + (UNIT as u128 - 1)) / (UNIT as u128);
    if raw < n as u128 {
        raw as usize
    } else {
        n
    }
}

/// `n` times `factor`, rounded down.
pub open spec fn scaled(n: nat, factor: u64) -> nat {
    (n * factor / (UNIT as int)) as nat
}

/// `n` times `factor`, rounded down, where that fits.
pub fn scale(n: usize, factor: u64) -> (r: Option<usize>)
    ensures
        r matches Some(k) ==> k == scaled(n as nat, factor),
        r is None <==> scaled(n as nat, factor) > usize::MAX,
{
    assert(n * factor <= 0xFFFF_FFFF_FFFF_FFFF * 0xFFFF_FFFF_FFFF_FFFF) by (nonlinear_arith)
        requires
            n <= 0xFFFF_FFFF_FFFF_FFFF,
            factor <= 0xFFFF_FFFF_FFFF_FFFF,
    ;
    assert(0 <= n * factor) by (nonlinear_arith)
        requires
            0 <= n,
            0 <= factor,
    ;
    let raw: u128 = (n as u128 * factor as u128) / (UNIT as u128);
    if raw <= usize::MAX as u128 {
        Some(raw as usize)
    } else {
        None
    }
}

/// How two masks are made into one.
#[derive(Copy, Clone, PartialEq, Eq, Debug, Structural)]
pub enum MaskOp {
    Xor,
    Nand,
    OnePt,
    Uniform,
    And,
    Or,
}

/// The settings of a run.
#[derive(Clone, Debug)]
pub struct Config {
    /// Seed of the random source.
    pub seed: [u8; 32],
    /// Architecture of the target.
    pub arch: Arch,
    /// Number of combatants in a tournament.
    pub tournament_size: usize,
    /// How many times the tournament size is sampled before the least
    /// compatible are dropped, in fixed point.
    pub mate_selection_factor: u64,
    /// Number of creatures the breeder gathers before a tournament.
    pub selection_window_size: usize,
    /// Rate at which an allele crossing over is moved, in fixed point.
    pub pointwise_mutation_rate: u32,
    /// Capacity of a channel between two stages.
    pub channel_size: usize,
    /// Number of emulators in the hatchery.
    pub num_engines: usize,
    /// Number of creatures the seeder makes.
    pub population_size: usize,
    /// Least length of a seeded chain.
    pub min_creature_length: usize,
    /// Bound on the length of a seeded chain.
    pub max_creature_length: usize,
    /// Rate at which a seeded allele is an input slot, in fixed point.
    pub input_slot_freq: u32,
    /// Share of the possible crossover sites that are used, in fixed point.
    pub crossover_degree: u32,
    /// The bit value that marks a crossover site in the combined mask.
    pub crossover_xbit: bool,
    /// How the parents' masks are combined to find the crossover sites.
    pub mask_combiner: MaskOp,
    /// How the parents' masks are combined into the child's mask.
    pub mask_inheritance: MaskOp,
    /// Rate at which one bit of the child's mask is flipped, in fixed point.
    pub mask_mut_rate: u32,
}

impl Config {
    /// The settings of a run on `arch` from `seed` where nothing else is given.
    pub fn new(seed: [u8; 32], arch: Arch) -> (c: Config)
        ensures
            c.seed == seed,
            c.arch == arch,
            c.tournament_size == 32,
            c.mate_selection_factor == UNIT,
            c.selection_window_size == 15,
            c.pointwise_mutation_rate == 167773,
            c.channel_size == 1,
            c.num_engines == 16,
            c.population_size == 4096,
            c.min_creature_length == 2,
            c.max_creature_length == 2,
            c.input_slot_freq == 1677722,
            c.crossover_degree == 8388608,
            c.crossover_xbit,
            c.mask_combiner == MaskOp::Xor,
            c.mask_inheritance == MaskOp::Uniform,
            c.mask_mut_rate == 3355444,
    {
        Config {
            seed,
            arch,
            tournament_size: 32,
            mate_selection_factor: 0x0100_0000,
            selection_window_size: 15,
            pointwise_mutation_rate: 167773,
            channel_size: 1,
            num_engines: 16,
            population_size: 4096,
            min_creature_length: 2,
            max_creature_length: 2,
            input_slot_freq: 1677722,
            crossover_degree: 8388608,
            crossover_xbit: true,
            mask_combiner: MaskOp::Xor,
            mask_inheritance: MaskOp::Uniform,
            mask_mut_rate: 3355444,
        }
    }
}

} // verus!
