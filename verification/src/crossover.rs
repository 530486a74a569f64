//! Homologous crossover: two parents, two masks, two offspring.

use crate::creature::{chain_name, Creature};
use crate::genotype::{entry_of, first_gadget, lemma_first_gadget_bounds, Allele, Chain};
use crate::params::{chance, share, share_of, Config, MaskOp, UNIT};
use crate::rng::{choose_multiple, draw_u32, draw_u64};
use crate::seqs::lemma_taken_from_distinct;
use crate::target::{image_wf, Arch, Seg};
use rand_isaac::isaac64::Isaac64Rng;
use vstd::prelude::*;

verus! {

/// The bits of `a` where the mask is set, and those of `b` where it is not.
pub open spec fn blend(mask: u64, a: u64, b: u64) -> u64 {
    (mask & a) | (!mask & b)
}

/// The mask of a one-point crossover: the bits from `cut % 64` upwards, or,
/// flipped, the bits below.
pub open spec fn onept_mask(cut: u64, flip: bool) -> u64 {
    let i = cut % 64;
    let mask = (0xFFFF_FFFF_FFFF_FFFFu64 >> i) << i;
    if flip {
        mask ^ 0xFFFF_FFFF_FFFF_FFFFu64
    } else {
        mask
    }
}

/// Two masks made into one.  The one-point and the uniform way depend on a
/// draw, the one-point way on a coin as well.
pub open spec fn combined(m_bits: u64, p_bits: u64, combiner: MaskOp, draw: u64, flip: bool) -> u64 {
    match combiner {
        MaskOp::Xor => m_bits ^ p_bits,
        MaskOp::Nand => !(m_bits & p_bits),
        MaskOp::OnePt => blend(onept_mask(draw, flip), m_bits, p_bits),
        MaskOp::Uniform => blend(draw, m_bits, p_bits),
        MaskOp::And => m_bits & p_bits,
        MaskOp::Or => m_bits | p_bits,
    }
}

/// `x` is what the combiner makes of the two masks on some draw.
pub open spec fn is_combination(x: u64, m_bits: u64, p_bits: u64, combiner: MaskOp) -> bool {
    exists|draw: u64, flip: bool| x == #[trigger] combined(m_bits, p_bits, combiner, draw, flip)
}

/// Makes one mask of two, given the draw and the coin.
pub fn combine(m_bits: u64, p_bits: u64, combiner: MaskOp, draw: u64, flip: bool) -> (x: u64)
    ensures
        x == combined(m_bits, p_bits, combiner, draw, flip),
{
    match combiner {
        MaskOp::Xor => m_bits ^ p_bits,
        MaskOp::Nand => !(m_bits & p_bits),
        MaskOp::OnePt => {
            let i = draw % 64;
            let mut mask: u64 = (0xFFFF_FFFF_FFFF_FFFFu64 >> i) << i;
            if flip {
                mask = mask ^ 0xFFFF_FFFF_FFFF_FFFFu64;
            }
            (mask & m_bits) | (!mask & p_bits)
        },
        MaskOp::Uniform => (draw & m_bits) | (!draw & p_bits),
        MaskOp::And => m_bits & p_bits,
        MaskOp::Or => m_bits | p_bits,
    }
}

/// A coin from a draw: heads where the top bit is set.
pub fn coin(draw: u32) -> (heads: bool)
    ensures
        heads == (draw >= 0x8000_0000),
{
    draw >= 0x8000_0000
}

/// Makes one mask of two, drawing what the combiner needs.
pub fn combine_xbits(m_bits: u64, p_bits: u64, combiner: MaskOp, rng: &mut Isaac64Rng) -> (x: u64)
    ensures
        is_combination(x, m_bits, p_bits, combiner),
{
    match combiner {
        MaskOp::OnePt => {
            let cut = draw_u64(rng);
            let flip = coin(draw_u32(rng));
            combine(m_bits, p_bits, combiner, cut, flip)
        },
        MaskOp::Uniform => {
            let mask = draw_u64(rng);
            combine(m_bits, p_bits, combiner, mask, false)
        },
        _ => combine(m_bits, p_bits, combiner, 0, false),
    }
}

/// Position `i` is a crossover site of the mask: bit `i`, counted round the
/// 64 bits, has the wanted value.
pub open spec fn is_site(xbits: u64, polarity: bool, i: int) -> bool {
    ((xbits & (1u64 << ((i % 64) as u64))) != 0) == polarity
}

/// The crossover sites below `n`, in rising order.
pub open spec fn sites_below(xbits: u64, polarity: bool, n: int) -> Seq<usize>
    decreases n,
{
    if n <= 0 {
        Seq::empty()
    } else if is_site(xbits, polarity, n - 1) {
        sites_below(xbits, polarity, n - 1).push((n - 1) as usize)
    } else {
        sites_below(xbits, polarity, n - 1)
    }
}

/// The sites below `n` are sites, rise, and leave no site out.
pub proof fn lemma_sites_below(xbits: u64, polarity: bool, n: int)
    requires
        0 <= n <= usize::MAX,
    ensures
        sites_below(xbits, polarity, n).len() <= n,
        forall|k: int|
            0 <= k < sites_below(xbits, polarity, n).len() ==> {
                let s = #[trigger] sites_below(xbits, polarity, n)[k];
                s < n && is_site(xbits, polarity, s as int)
            },
        forall|a: int, b: int|
            0 <= a < b < sites_below(xbits, polarity, n).len() ==> sites_below(xbits, polarity, n)[a]
                < sites_below(xbits, polarity, n)[b],
        forall|i: int|
            0 <= i < n && is_site(xbits, polarity, i) ==> sites_below(xbits, polarity, n).contains(
                i as usize,
            ),
        sites_below(xbits, polarity, n).no_duplicates(),
    decreases n,
{
    if n > 0 {
        lemma_sites_below(xbits, polarity, n - 1);
        let before = sites_below(xbits, polarity, n - 1);
        let now = sites_below(xbits, polarity, n);
        if is_site(xbits, polarity, n - 1) {
            assert(now[now.len() - 1] == (n - 1) as usize);
        }
        assert forall|i: int| 0 <= i < n && is_site(xbits, polarity, i) implies now.contains(
            i as usize,
        ) by {
            if i < n - 1 {
                let k = choose|k: int| 0 <= k < before.len() && before[k] == i as usize;
                assert(now[k] == i as usize);
            }
        }
    }
}

/// The positions below `bound` at which the mask allows a crossover.
pub fn potential_sites(xbits: u64, bound: usize, polarity: bool) -> (sites: Vec<usize>)
    ensures
        sites@ == sites_below(xbits, polarity, bound as int),
{
    let mut sites: Vec<usize> = Vec::new();
    let mut i: usize = 0;
    while i < bound
        invariant
            i <= bound,
            sites@ == sites_below(xbits, polarity, i as int),
        decreases bound - i,
    {
        let bit: u64 = (i % 64) as u64;
        if ((xbits & (1u64 << bit)) != 0) == polarity {
            sites.push(i);
        }
        i += 1;
    }
    sites
}

/// Crossover sites chosen as the settings ask: sites of the mask below the
/// bound, none twice, and the set share of all there are.
pub open spec fn lawful_sites(
    sites: Seq<usize>,
    xbits: u64,
    bound: int,
    polarity: bool,
    degree: u32,
) -> bool {
    &&& sites.no_duplicates()
    &&& forall|k: int|
        0 <= k < sites.len() ==> (#[trigger] sites[k]) < bound && is_site(
            xbits,
            polarity,
            sites[k] as int,
        )
    &&& sites.len() == share_of(sites_below(xbits, polarity, bound).len(), degree)
}

/// Chooses the crossover sites for a mask at random.
pub fn xbits_sites(
    xbits: u64,
    bound: usize,
    crossover_degree: u32,
    polarity: bool,
    rng: &mut Isaac64Rng,
) -> (sites: Vec<usize>)
    ensures
        lawful_sites(sites@, xbits, bound as int, polarity, crossover_degree),
{
    let potential = potential_sites(xbits, bound, polarity);
    let num = share(potential.len(), crossover_degree);
    let ghost all = potential@;
    let sites = choose_multiple(potential, rng, num);
    proof {
        lemma_sites_below(xbits, polarity, bound as int);
        lemma_taken_from_distinct(sites@, all);
        assert forall|k: int| 0 <= k < sites@.len() implies (#[trigger] sites@[k]) < bound
            && is_site(xbits, polarity, sites@[k] as int) by {
            let j = choose|j: int| 0 <= j < all.len() && all[j] == sites@[k];
            assert(all[j] < bound);
        }
    }
    sites
}

/// The step that a draw stands for: the draw read as a signed number, and of
/// that the remainder by 16 with the sign of the number.
pub open spec fn step_of(draw: u64) -> int {
    if draw < 0x8000_0000_0000_0000 {
        draw as int % 16
    } else {
        -((0x1_0000_0000_0000_0000 - draw) % 16)
    }
}

pub fn small_step(draw: u64) -> (d: isize)
    ensures
        d == step_of(draw),
        -16 < d < 16,
{
    if draw < 0x8000_0000_0000_0000 {
        (draw % 16) as isize
    } else {
        let back: u64 = (u64::MAX - draw) + 1;
        -((back % 16) as isize)
    }
}

/// `a` is `of` moved by a small step.
pub open spec fn is_mutation(a: Allele, of: Allele, image: Seq<Seg>) -> bool {
    exists|d: int| -16 < d < 16 && a == #[trigger] of.moved(d, image)
}

/// Moves an allele by a small random step.
pub fn mutate_arithmetic(allele: &Allele, rng: &mut Isaac64Rng, image: &Vec<Seg>) -> (a: Allele)
    requires
        image_wf(image@),
    ensures
        is_mutation(a, *allele, image@),
        a.wf(),
        a is Gadget <==> *allele is Gadget,
{
    let delta = small_step(draw_u64(rng));
    allele.add(delta, image)
}

/// `r` is `u` with one bit flipped.
pub open spec fn one_bit_flipped(r: u64, u: u64) -> bool {
    exists|k: u64| k < 64 && r == u ^ (#[trigger] (1u64 << k))
}

/// `r` is `u`, or `u` with one bit flipped.
pub open spec fn is_flip(r: u64, u: u64) -> bool {
    r == u || one_bit_flipped(r, u)
}

/// `r` is what a flip at the given rate may make of `u`: `u` itself or `u`
/// with one bit flipped; at rate 0 `u` itself, and from rate one on `u` with
/// one bit flipped.
pub open spec fn flipped_at_rate(r: u64, u: u64, rate: u32) -> bool {
    &&& is_flip(r, u)
    &&& rate == 0 ==> r == u
    &&& rate >= UNIT ==> one_bit_flipped(r, u)
}

/// `u` with bit `k` flipped.
pub fn flip_bit(u: u64, k: u64) -> (r: u64)
    requires
        k < 64,
    ensures
        r == u ^ (1u64 << k),
{
    u ^ (1u64 << k)
}

/// Flips one random bit of a mask, at the given rate.
pub fn random_bit_flip(u: u64, rate: u32, rng: &mut Isaac64Rng) -> (r: u64)
    ensures
        flipped_at_rate(r, u, rate),
{
    if chance(draw_u32(rng), rate) {
        let k = draw_u64(rng) % 64;
        let r = flip_bit(u, k);
        assert(k < 64 && r == u ^ (1u64 << k));
        r
    } else {
        u
    }
}

/// `a` is what crosses over from `of`: the allele itself, or moved by a small
/// step.
pub open spec fn is_codon(a: Allele, of: Allele, image: Seq<Seg>) -> bool {
    a == of || is_mutation(a, of, image)
}

/// `child` is `template` with the donor's alleles crossed over at the sites.
pub open spec fn is_cross(
    child: Seq<Allele>,
    template: Seq<Allele>,
    donor: Seq<Allele>,
    sites: Seq<usize>,
    image: Seq<Seg>,
) -> bool {
    &&& child.len() == template.len()
    &&& forall|i: int|
        0 <= i < child.len() ==> if sites.contains(i as usize) {
            is_codon(#[trigger] child[i], donor[i], image)
        } else {
            child[i] == template[i]
        }
}

/// What the mutation rate fixes of a cross: at rate 0 every site holds the
/// donor's allele as it is, and from rate one on every site holds it moved
/// by a small step.
pub open spec fn crossed_at_rate(
    child: Seq<Allele>,
    donor: Seq<Allele>,
    sites: Seq<usize>,
    rate: u32,
    image: Seq<Seg>,
) -> bool {
    &&& rate == 0 ==> forall|i: int|
        0 <= i < child.len() && sites.contains(i as usize) ==> (#[trigger] child[i]) == donor[i]
    &&& rate >= UNIT ==> forall|i: int|
        0 <= i < child.len() && sites.contains(i as usize) ==> is_mutation(
            #[trigger] child[i],
            donor[i],
            image,
        )
}

/// A copy of the alleles.
pub fn copy_alleles(alleles: &Vec<Allele>) -> (copy: Vec<Allele>)
    ensures
        copy@ == alleles@,
{
    let mut copy: Vec<Allele> = Vec::new();
    let mut i: usize = 0;
    while i < alleles.len()
        invariant
            i <= alleles@.len(),
            copy@ == alleles@.take(i as int),
        decreases alleles@.len() - i,
    {
        copy.push(alleles[i]);
        assert(alleles@.take(i + 1) =~= alleles@.take(i as int).push(alleles@[i as int]));
        i += 1;
    }
    assert(alleles@.take(i as int) =~= alleles@);
    copy
}

/// Copies the template and writes over it, at each site, the donor's allele,
/// moved by a small step at the given rate.
pub fn cross(
    template: &Vec<Allele>,
    donor: &Vec<Allele>,
    sites: &Vec<usize>,
    mutation_rate: u32,
    rng: &mut Isaac64Rng,
    image: &Vec<Seg>,
) -> (egg: Vec<Allele>)
    requires
        image_wf(image@),
        forall|k: int|
            0 <= k < sites@.len() ==> (#[trigger] sites@[k]) < template@.len() && sites@[k]
                < donor@.len(),
    ensures
        is_cross(egg@, template@, donor@, sites@, image@),
        crossed_at_rate(egg@, donor@, sites@, mutation_rate, image@),
{
    let mut egg = copy_alleles(template);
    let mut j: usize = 0;
    assert(sites@.take(0) =~= Seq::<usize>::empty());
    while j < sites.len()
        invariant
            j <= sites@.len(),
            image_wf(image@),
            forall|k: int|
                0 <= k < sites@.len() ==> (#[trigger] sites@[k]) < template@.len() && sites@[k]
                    < donor@.len(),
            is_cross(egg@, template@, donor@, sites@.take(j as int), image@),
            crossed_at_rate(egg@, donor@, sites@.take(j as int), mutation_rate, image@),
        decreases sites@.len() - j,
    {
        let site = sites[j];
        let codon = if chance(draw_u32(rng), mutation_rate) {
            mutate_arithmetic(&donor[site], rng, image)
        } else {
            donor[site]
        };
        let ghost before = egg@;
        egg[site] = codon;
        proof {
            assert(egg@.len() == egg.len() <= usize::MAX);
            let done = sites@.take(j as int);
            let now = sites@.take(j + 1);
            assert(now =~= done.push(site));
            assert(now[j as int] == site);
            assert forall|i: int| 0 <= i < egg@.len() implies if now.contains(i as usize) {
                is_codon(#[trigger] egg@[i], donor@[i], image@)
            } else {
                egg@[i] == template@[i]
            } by {
                if i != site {
                    if done.contains(i as usize) {
                        let k = choose|k: int| 0 <= k < done.len() && done[k] == i as usize;
                        assert(now[k] == i as usize);
                    }
                    if now.contains(i as usize) {
                        let k = choose|k: int| 0 <= k < now.len() && now[k] == i as usize;
                        assert(done[k] == i as usize);
                    }
                    assert(egg@[i] == before[i]);
                }
            }
            if mutation_rate == 0 {
                assert forall|i: int|
                    0 <= i < egg@.len() && now.contains(i as usize) implies (#[trigger] egg@[i])
                    == donor@[i] by {
                    if i != site {
                        let k = choose|k: int| 0 <= k < now.len() && now[k] == i as usize;
                        assert(done[k] == i as usize);
                        assert(egg@[i] == before[i]);
                    }
                }
            }
            if mutation_rate >= UNIT {
                assert forall|i: int|
                    0 <= i < egg@.len() && now.contains(i as usize) implies is_mutation(
                    #[trigger] egg@[i],
                    donor@[i],
                    image@,
                ) by {
                    if i != site {
                        let k = choose|k: int| 0 <= k < now.len() && now[k] == i as usize;
                        assert(done[k] == i as usize);
                        assert(egg@[i] == before[i]);
                    }
                }
            }
        }
        j += 1;
    }
    assert(sites@.take(j as int) =~= sites@);
    egg
}

/// A cross keeps every allele an allele: no input slot leaves the slots.
pub proof fn lemma_cross_wf(
    child: Seq<Allele>,
    template: Seq<Allele>,
    donor: Seq<Allele>,
    sites: Seq<usize>,
    image: Seq<Seg>,
)
    requires
        is_cross(child, template, donor, sites, image),
        forall|i: int| 0 <= i < template.len() ==> (#[trigger] template[i]).wf(),
        forall|i: int| 0 <= i < donor.len() ==> (#[trigger] donor[i]).wf(),
        forall|k: int| 0 <= k < sites.len() ==> (#[trigger] sites[k]) < donor.len(),
        child.len() <= usize::MAX,
    ensures
        forall|i: int| 0 <= i < child.len() ==> (#[trigger] child[i]).wf(),
{
    assert forall|i: int| 0 <= i < child.len() implies (#[trigger] child[i]).wf() by {
        if sites.contains(i as usize) {
            let k = choose|k: int| 0 <= k < sites.len() && sites[k] == i as usize;
            assert(sites[k] < donor.len());
            assert(donor[i].wf());
            assert(is_codon(child[i], donor[i], image));
        } else {
            assert(template[i].wf());
        }
    }
}

/// Where the cross on one parent as template has no gadget, the cross on the
/// other has one: of two crosses with the parents' parts exchanged, one can
/// run.
pub proof fn lemma_one_cross_runs(
    one: Seq<Allele>,
    other: Seq<Allele>,
    sites: Seq<usize>,
    image: Seq<Seg>,
    child_one: Seq<Allele>,
    child_other: Seq<Allele>,
)
    requires
        entry_of(one) is Some,
        is_cross(child_one, one, other, sites, image),
        is_cross(child_other, other, one, sites, image),
        forall|k: int|
            0 <= k < sites.len() ==> (#[trigger] sites[k]) < one.len() && sites[k] < other.len(),
        one.len() <= usize::MAX,
    ensures
        entry_of(child_one) is Some || entry_of(child_other) is Some,
{
    lemma_first_gadget_bounds(one, 0);
    lemma_first_gadget_bounds(child_one, 0);
    lemma_first_gadget_bounds(child_other, 0);
    let g = first_gadget(one, 0);
    if entry_of(child_one) is None {
        assert(child_one[g] is Input);
        assert(sites.contains(g as usize));
        let k = choose|k: int| 0 <= k < sites.len() && sites[k] == g as usize;
        assert(sites[k] < other.len());
        assert(is_codon(child_other[g], one[g], image));
        assert(child_other[g] is Gadget);
    }
}

/// The cross of a template and a donor at the sites holds a gadget at place
/// `i`: the donor's allele there is one where `i` is a site, and else the
/// template's.  A small step does not change what an allele is.
pub open spec fn gadget_at_place(
    template: Seq<Allele>,
    donor: Seq<Allele>,
    sites: Seq<usize>,
    i: int,
) -> bool {
    if sites.contains(i as usize) {
        donor[i] is Gadget
    } else {
        template[i] is Gadget
    }
}

/// The cross of a template and a donor at the sites can run: it holds a
/// gadget to enter by.  This depends on the parents and the sites alone.
pub open spec fn cross_runs(template: Seq<Allele>, donor: Seq<Allele>, sites: Seq<usize>) -> bool {
    exists|i: int|
        0 <= i < template.len() && #[trigger] gadget_at_place(template, donor, sites, i)
}

/// A cross has an entry exactly where `cross_runs` says so.
pub proof fn lemma_cross_runs(
    child: Seq<Allele>,
    template: Seq<Allele>,
    donor: Seq<Allele>,
    sites: Seq<usize>,
    image: Seq<Seg>,
)
    requires
        is_cross(child, template, donor, sites, image),
        child.len() <= usize::MAX,
    ensures
        entry_of(child) is Some <==> cross_runs(template, donor, sites),
{
    lemma_first_gadget_bounds(child, 0);
    let g = first_gadget(child, 0);
    if entry_of(child) is Some {
        assert(child[g] is Gadget);
        if sites.contains(g as usize) {
            assert(is_codon(child[g], donor[g], image));
        }
        assert(gadget_at_place(template, donor, sites, g));
    }
    if cross_runs(template, donor, sites) {
        let i = choose|i: int|
            0 <= i < template.len() && #[trigger] gadget_at_place(template, donor, sites, i);
        if sites.contains(i as usize) {
            assert(is_codon(child[i], donor[i], image));
        }
        assert(child[i] is Gadget);
    }
}

/// Whether child `k` of a crossover, the first or the second, is bred on the
/// mother.  The parents take turns as the template, the mother first, and a
/// cross that cannot run is dropped: so the first child is bred on the mother
/// unless her cross cannot run, and the second on the father unless his
/// cannot.
pub open spec fn bred_on_mother(
    k: int,
    mother: Seq<Allele>,
    father: Seq<Allele>,
    sites: Seq<usize>,
) -> bool {
    if k == 0 {
        cross_runs(mother, father, sites)
    } else {
        !cross_runs(father, mother, sites)
    }
}

/// `child` was bred on `template` with alleles of `donor`: it is their
/// cross at the sites, mutated as the pointwise rate has it; it is one
/// generation on from the later of the two; it can run; and it bears the
/// children's mask, flipped as the mask rate has it.
pub open spec fn bred_from(
    child: Chain,
    template: Chain,
    donor: Chain,
    sites: Seq<usize>,
    child_xbits: u64,
    image: Seq<Seg>,
    config: Config,
) -> bool {
    &&& is_cross(child.alleles@, template.alleles@, donor.alleles@, sites, image)
    &&& crossed_at_rate(
        child.alleles@,
        donor.alleles@,
        sites,
        config.pointwise_mutation_rate,
        image,
    )
    &&& child.generation == vstd::math::max(template.generation as int, donor.generation as int)
        + 1
    &&& flipped_at_rate(child.xbits, child_xbits, config.mask_mut_rate)
    &&& child.wf()
}

/// Child `k` was bred on the parent whose turn it was, with alleles of the
/// other.
pub open spec fn bred_in_turn(
    k: int,
    child: Chain,
    mother: Chain,
    father: Chain,
    sites: Seq<usize>,
    child_xbits: u64,
    image: Seq<Seg>,
    config: Config,
) -> bool {
    if bred_on_mother(k, mother.alleles@, father.alleles@, sites) {
        bred_from(child, mother, father, sites, child_xbits, image, config)
    } else {
        bred_from(child, father, mother, sites, child_xbits, image, config)
    }
}

/// The genomes come of one crossover of the two parents: one mask to find
/// the sites by, one mask for the children, one choice of sites, and each
/// child bred on the parent whose turn it was with alleles of the other.
pub open spec fn crossing(
    genomes: Seq<Chain>,
    mother: Chain,
    father: Chain,
    config: Config,
    image: Seq<Seg>,
    xbits: u64,
    child_xbits: u64,
    sites: Seq<usize>,
) -> bool {
    &&& is_combination(xbits, mother.xbits, father.xbits, config.mask_combiner)
    &&& is_combination(child_xbits, mother.xbits, father.xbits, config.mask_inheritance)
    &&& lawful_sites(
        sites,
        xbits,
        vstd::math::min(mother.alleles@.len() as int, father.alleles@.len() as int),
        config.crossover_xbit,
        config.crossover_degree,
    )
    &&& forall|k: int|
        0 <= k < genomes.len() ==> bred_in_turn(
            k,
            #[trigger] genomes[k],
            mother,
            father,
            sites,
            child_xbits,
            image,
            config,
        )
}

/// The genomes of the creatures, in order.
pub open spec fn genomes_of(creatures: Seq<Creature>) -> Seq<Chain> {
    creatures.map_values(|c: Creature| c.genome)
}

/// A creature as it leaves a crossover: named after its genome, not yet
/// numbered, not yet scored.
pub open spec fn newborn(c: Creature, arch: Arch) -> bool {
    &&& c.index == 0
    &&& c.fitness is None
    &&& c.name@ == chain_name(c.genome, arch)
}

/// Breeds two offspring of two parents.  The parents take turns as the
/// template, the mother first; a child that has no gadget to enter by is
/// dropped and the turn passes on.  So the first child is bred on the mother
/// and the second on the father, unless the cross on one of them cannot run,
/// in which case both are bred on the other.  At a pointwise mutation rate
/// of 0 every site holds the donor's allele as it is, and at a mask mutation
/// rate of 0 every child bears the children's mask as it is.
pub fn homologous_crossover(
    mother: &Creature,
    father: &Creature,
    rng: &mut Isaac64Rng,
    config: &Config,
    image: &Vec<Seg>,
) -> (offspring: Vec<Creature>)
    requires
        mother.genome.wf(),
        father.genome.wf(),
        mother.genome.generation < usize::MAX,
        father.genome.generation < usize::MAX,
        image_wf(image@),
    ensures
        offspring@.len() == 2,
        forall|k: int|
            0 <= k < 2 ==> newborn(#[trigger] offspring@[k], config.arch)
                && offspring@[k].phenome.cases@.len() == 0,
        forall|k: int|
            0 <= k < 2 ==> (#[trigger] offspring@[k]).genome.generation == vstd::math::max(
                mother.genome.generation as int,
                father.genome.generation as int,
            ) + 1 && offspring@[k].genome.wf(),
        exists|xbits: u64, child_xbits: u64, sites: Seq<usize>| #[trigger]
            crossing(
                genomes_of(offspring@),
                mother.genome,
                father.genome,
                *config,
                image@,
                xbits,
                child_xbits,
                sites,
            ),
{
    let bound = if mother.genome.alleles.len() < father.genome.alleles.len() {
        mother.genome.alleles.len()
    } else {
        father.genome.alleles.len()
    };
    let xbits = combine_xbits(mother.genome.xbits, father.genome.xbits, config.mask_combiner, rng);
    let child_xbits = combine_xbits(
        mother.genome.xbits,
        father.genome.xbits,
        config.mask_inheritance,
        rng,
    );
    let sites = xbits_sites(xbits, bound, config.crossover_degree, config.crossover_xbit, rng);
    let mut offspring: Vec<Creature> = Vec::new();
    let mut mother_leads = true;
    let ghost mut failed: Option<Seq<Allele>> = None;
    let ghost m = mother.genome.alleles@;
    let ghost f = father.genome.alleles@;
    while offspring.len() < 2
        invariant
            offspring@.len() <= 2,
            image_wf(image@),
            mother.genome.wf(),
            father.genome.wf(),
            mother.genome.generation < usize::MAX,
            father.genome.generation < usize::MAX,
            m == mother.genome.alleles@,
            f == father.genome.alleles@,
            bound == vstd::math::min(m.len() as int, f.len() as int),
            lawful_sites(
                sites@,
                xbits,
                bound as int,
                config.crossover_xbit,
                config.crossover_degree,
            ),
            failed matches Some(prev) ==> entry_of(prev) is None && if mother_leads {
                is_cross(prev, f, m, sites@, image@)
            } else {
                is_cross(prev, m, f, sites@, image@)
            },
            offspring@.len() == 0 && !mother_leads ==> !cross_runs(m, f, sites@),
            offspring@.len() == 1 && mother_leads ==> !cross_runs(f, m, sites@) || !cross_runs(
                m,
                f,
                sites@,
            ),
            forall|k: int|
                0 <= k < offspring@.len() ==> newborn(#[trigger] offspring@[k], config.arch)
                    && offspring@[k].phenome.cases@.len() == 0 && bred_in_turn(
                    k,
                    offspring@[k].genome,
                    mother.genome,
                    father.genome,
                    sites@,
                    child_xbits,
                    image@,
                    *config,
                ),
        decreases
                2 * (2 - offspring@.len()) + if failed is Some {
                    0int
                } else {
                    1int
                },
    {
        let (template, donor) = if mother_leads {
            (mother, father)
        } else {
            (father, mother)
        };
        mother_leads = !mother_leads;
        let egg = cross(
            &template.genome.alleles,
            &donor.genome.alleles,
            &sites,
            config.pointwise_mutation_rate,
            rng,
            image,
        );
        let child_gen = if template.genome.generation > donor.genome.generation {
            template.genome.generation + 1
        } else {
            donor.genome.generation + 1
        };
        let zygote = Chain {
            alleles: egg,
            xbits: random_bit_flip(child_xbits, config.mask_mut_rate, rng),
            generation: child_gen,
        };
        proof {
            assert(zygote.alleles@.len() == zygote.alleles.len() <= usize::MAX);
            assert(donor.genome.alleles@.len() == donor.genome.alleles.len() <= usize::MAX);
            lemma_cross_wf(
                zygote.alleles@,
                template.genome.alleles@,
                donor.genome.alleles@,
                sites@,
                image@,
            );
            lemma_cross_runs(
                zygote.alleles@,
                template.genome.alleles@,
                donor.genome.alleles@,
                sites@,
                image@,
            );
            if failed is Some {
                lemma_one_cross_runs(
                    donor.genome.alleles@,
                    template.genome.alleles@,
                    sites@,
                    image@,
                    failed->0,
                    zygote.alleles@,
                );
            }
        }
        if zygote.entry().is_some() {
            let ghost before = offspring@;
            let newcomer = Creature::new(zygote, 0, config.arch);
            let ghost child = newcomer;
            offspring.push(newcomer);
            proof {
                failed = None;
                assert(bred_from(
                    child.genome,
                    template.genome,
                    donor.genome,
                    sites@,
                    child_xbits,
                    image@,
                    *config,
                ));
                assert(bred_in_turn(
                    before.len() as int,
                    child.genome,
                    mother.genome,
                    father.genome,
                    sites@,
                    child_xbits,
                    image@,
                    *config,
                ));
                assert forall|k: int| 0 <= k < offspring@.len() implies newborn(
                    #[trigger] offspring@[k],
                    config.arch,
                ) && offspring@[k].phenome.cases@.len() == 0 && bred_in_turn(
                    k,
                    offspring@[k].genome,
                    mother.genome,
                    father.genome,
                    sites@,
                    child_xbits,
                    image@,
                    *config,
                ) by {
                    if k < before.len() {
                        assert(offspring@[k] == before[k]);
                    } else {
                        assert(offspring@[k] == child);
                    }
                }
            }
        } else {
            proof {
                failed = Some(zygote.alleles@);
            }
        }
    }
    proof {
        assert(crossing(
            genomes_of(offspring@),
            mother.genome,
            father.genome,
            *config,
            image@,
            xbits,
            child_xbits,
            sites@,
        ));
    }
    offspring
}

/// Every child of a crossing is one generation on from the later of its
/// parents.
pub proof fn lemma_offspring_generation(
    genomes: Seq<Chain>,
    mother: Chain,
    father: Chain,
    config: Config,
    image: Seq<Seg>,
    xbits: u64,
    child_xbits: u64,
    sites: Seq<usize>,
)
    requires
        crossing(genomes, mother, father, config, image, xbits, child_xbits, sites),
    ensures
        forall|k: int|
            0 <= k < genomes.len() ==> (#[trigger] genomes[k]).generation == vstd::math::max(
                mother.generation as int,
                father.generation as int,
            ) + 1,
{
    assert forall|k: int| 0 <= k < genomes.len() implies (#[trigger] genomes[k]).generation
        == vstd::math::max(mother.generation as int, father.generation as int) + 1 by {
        assert(bred_in_turn(k, genomes[k], mother, father, sites, child_xbits, image, config));
    }
}

/// A cross is as long as its template, holds the template's alleles off the
/// sites, and at each site the donor's allele, as it is or moved by a small
/// step.
pub proof fn lemma_cross_alleles(
    child: Seq<Allele>,
    template: Seq<Allele>,
    donor: Seq<Allele>,
    sites: Seq<usize>,
    image: Seq<Seg>,
)
    requires
        is_cross(child, template, donor, sites, image),
    ensures
        child.len() == template.len(),
        forall|i: int|
            0 <= i < child.len() && !sites.contains(i as usize) ==> (#[trigger] child[i])
                == template[i],
        forall|i: int|
            0 <= i < child.len() && sites.contains(i as usize) ==> (#[trigger] child[i])
                == donor[i] || is_mutation(child[i], donor[i], image),
{
    assert forall|i: int|
        0 <= i < child.len() && sites.contains(i as usize) implies (#[trigger] child[i])
        == donor[i] || is_mutation(child[i], donor[i], image) by {
        assert(is_codon(child[i], donor[i], image));
    }
}

/// Every site of a crossing is a place below the shorter parent's length at
/// which the combined mask has the bit value that the settings ask for.
pub proof fn lemma_sites_polarity(
    genomes: Seq<Chain>,
    mother: Chain,
    father: Chain,
    config: Config,
    image: Seq<Seg>,
    xbits: u64,
    child_xbits: u64,
    sites: Seq<usize>,
)
    requires
        crossing(genomes, mother, father, config, image, xbits, child_xbits, sites),
    ensures
        is_combination(xbits, mother.xbits, father.xbits, config.mask_combiner),
        forall|k: int|
            0 <= k < sites.len() ==> ((xbits & (1u64 << (((#[trigger] sites[k]) % 64) as u64)))
                != 0) == config.crossover_xbit,
        forall|k: int|
            0 <= k < sites.len() ==> (#[trigger] sites[k]) < mother.alleles@.len() && sites[k]
                < father.alleles@.len(),
{
    assert forall|k: int| 0 <= k < sites.len() implies ((xbits & (1u64 << (((
    #[trigger] sites[k]) % 64) as u64))) != 0) == config.crossover_xbit by {
        assert(is_site(xbits, config.crossover_xbit, sites[k] as int));
    }
}

/// Where the whole share of the sites is asked for, every site of the mask
/// below the bound is chosen.
pub proof fn lemma_full_degree_takes_every_site(
    sites: Seq<usize>,
    xbits: u64,
    bound: int,
    polarity: bool,
    degree: u32,
)
    requires
        lawful_sites(sites, xbits, bound, polarity, degree),
        degree >= UNIT,
        0 <= bound <= usize::MAX,
    ensures
        forall|i: int|
            0 <= i < bound && is_site(xbits, polarity, i) ==> sites.contains(#[trigger] (i as usize)),
{
    let all = sites_below(xbits, polarity, bound);
    lemma_sites_below(xbits, polarity, bound);
    let n = all.len() as int;
    assert(share_of(all.len(), degree) == all.len()) by {
        let u = UNIT as int;
        assert(n * degree >= n * u) by (nonlinear_arith)
            requires
                degree >= u,
                n >= 0,
        ;
        vstd::arithmetic::div_mod::lemma_div_is_ordered(n * u, n * degree + u - 1, u);
        vstd::arithmetic::div_mod::lemma_div_multiples_vanish(n, u);
        assert(n * u == u * n) by (nonlinear_arith);
    }
    sites.unique_seq_to_set();
    all.unique_seq_to_set();
    vstd::seq_lib::seq_to_set_is_finite(sites);
    vstd::seq_lib::seq_to_set_is_finite(all);
    assert(sites.to_set().subset_of(all.to_set())) by {
        assert forall|x: usize| sites.to_set().contains(x) implies all.to_set().contains(x) by {
            let k = choose|k: int| 0 <= k < sites.len() && sites[k] == x;
            assert(sites[k] < bound && is_site(xbits, polarity, sites[k] as int));
            assert(all.contains((x as int) as usize));
        }
    }
    vstd::set_lib::lemma_subset_equality(sites.to_set(), all.to_set());
    assert forall|i: int| 0 <= i < bound && is_site(xbits, polarity, i) implies sites.contains(
        #[trigger] (i as usize),
    ) by {
        assert(all.contains(i as usize));
        assert(all.to_set().contains(i as usize));
        assert(sites.to_set().contains(i as usize));
    }
}

/// Where the cross on either parent can run, the first child is bred on the
/// mother and the second on the father.
pub proof fn lemma_parents_take_turns(
    genomes: Seq<Chain>,
    mother: Chain,
    father: Chain,
    config: Config,
    image: Seq<Seg>,
    xbits: u64,
    child_xbits: u64,
    sites: Seq<usize>,
)
    requires
        crossing(genomes, mother, father, config, image, xbits, child_xbits, sites),
        genomes.len() == 2,
        cross_runs(mother.alleles@, father.alleles@, sites),
        cross_runs(father.alleles@, mother.alleles@, sites),
    ensures
        bred_from(genomes[0], mother, father, sites, child_xbits, image, config),
        bred_from(genomes[1], father, mother, sites, child_xbits, image, config),
        genomes[0].alleles@.len() == mother.alleles@.len(),
        genomes[1].alleles@.len() == father.alleles@.len(),
{
    assert(bred_in_turn(0, genomes[0], mother, father, sites, child_xbits, image, config));
    assert(bred_in_turn(1, genomes[1], mother, father, sites, child_xbits, image, config));
}

} // verus!
