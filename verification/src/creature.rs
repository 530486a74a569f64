//! The creature: a genome with the problems posed to it, what it did on
//! them, and how well that was.

use crate::genotype::{packed, Chain};
use crate::phenotype::{
    any_hatched, case_index, copy_input, inputs_of, lemma_case_index, Case, Fitness, Input,
    Phenome,
};
use crate::target::Arch;
use crate::words::{le_bytes64, pack_word64le};
use std::collections::hash_map::DefaultHasher;
use std::hash::Hash;
use std::hash::Hasher;
use vstd::prelude::*;
use vstd::std_specs::hash::DefaultHasherAdditionalSpecFns;
use vstd::string::*;

verus! {

/// What hashing a byte vector writes into a hasher.
pub uninterp spec fn hash_writes(bytes: Seq<u8>) -> Seq<Seq<u8>>;

/// `Hash::hash` of a byte vector: what it writes into the hasher depends on
/// the bytes alone, and comes after what the hasher has taken before.
#[verifier::external_body]
fn feed(hasher: &mut DefaultHasher, bytes: &Vec<u8>)
    ensures
        final(hasher)@ == old(hasher)@ + hash_writes(bytes@),
{
    bytes.hash(hasher)
}

/// The hash of a byte string in a fresh hasher.
pub open spec fn digest(bytes: Seq<u8>) -> u64 {
    DefaultHasher::spec_finish(Seq::<Seq<u8>>::empty() + hash_writes(bytes))
}

/// The consonants that names are made of.
pub open spec fn consonants() -> Seq<char> {
    seq!['b', 'c', 'd', 'f', 'g', 'h', 'j', 'k', 'l', 'm', 'n', 'v', 'w', 'x', 'z', 'y']
}

/// The vowels that names are made of.
pub open spec fn vowels() -> Seq<char> {
    seq!['a', 'e', 'i', 'o', 'u']
}

/// The syllable for a byte: consonant, vowel, and the consonant again.
pub open spec fn syllable(b: u8) -> Seq<char> {
    seq![consonants()[b as int % 16], vowels()[b as int % 5], consonants()[b as int % 16]]
}

/// Number of syllables in a name.
pub const SYLLABLES: usize = 8;

/// The first `n` syllables of the name for `bytes`, with a hyphen after every
/// second syllable but the last of a name.
pub open spec fn name_part(bytes: Seq<u8>, n: int) -> Seq<char>
    decreases n,
{
    if n <= 0 {
        Seq::empty()
    } else {
        name_part(bytes, n - 1) + syllable(bytes[n - 1]) + if (n - 1) % 2 == 1 && n
            < SYLLABLES {
            seq!['-']
        } else {
            Seq::empty()
        }
    }
}

/// The name for a hash: one syllable for each of its bytes, least
/// significant first.
pub open spec fn name_of(hash: u64) -> Seq<char> {
    name_part(le_bytes64(hash), SYLLABLES as int)
}

fn consonant(i: usize) -> (s: &'static str)
    requires
        i < 16,
    ensures
        s@ == seq![consonants()[i as int]],
{
    proof {
        reveal_strlit("b");
        reveal_strlit("c");
        reveal_strlit("d");
        reveal_strlit("f");
        reveal_strlit("g");
        reveal_strlit("h");
        reveal_strlit("j");
        reveal_strlit("k");
        reveal_strlit("l");
        reveal_strlit("m");
        reveal_strlit("n");
        reveal_strlit("v");
        reveal_strlit("w");
        reveal_strlit("x");
        reveal_strlit("z");
        reveal_strlit("y");
    }
    let s = match i {
        0 => "b",
        1 => "c",
        2 => "d",
        3 => "f",
        4 => "g",
        5 => "h",
        6 => "j",
        7 => "k",
        8 => "l",
        9 => "m",
        10 => "n",
        11 => "v",
        12 => "w",
        13 => "x",
        14 => "z",
        _ => "y",
    };
    assert(s@ =~= seq![consonants()[i as int]]);
    s
}

fn vowel(i: usize) -> (s: &'static str)
    requires
        i < 5,
    ensures
        s@ == seq![vowels()[i as int]],
{
    proof {
        reveal_strlit("a");
        reveal_strlit("e");
        reveal_strlit("i");
        reveal_strlit("o");
        reveal_strlit("u");
    }
    let s = match i {
        0 => "a",
        1 => "e",
        2 => "i",
        3 => "o",
        _ => "u",
    };
    assert(s@ =~= seq![vowels()[i as int]]);
    s
}

/// The name that stands for a hash.
pub fn name_from_hash(hash: u64) -> (name: String)
    ensures
        name@ == name_of(hash),
{
    let hbytes = pack_word64le(hash);
    let mut name = String::new();
    let mut i: usize = 0;
    assert(hbytes@.len() == 8);
    while i < SYLLABLES
        invariant
            i <= SYLLABLES,
            hbytes@.len() == 8,
            name@ == name_part(hbytes@, i as int),
        decreases SYLLABLES - i,
    {
        let b = hbytes[i] as usize;
        let ghost before = name@;
        name.append(consonant(b % 16));
        name.append(vowel(b % 5));
        name.append(consonant(b % 16));
        assert(name@ =~= before + syllable(hbytes@[i as int]));
        if i % 2 == 1 && i < SYLLABLES - 1 {
            proof {
                reveal_strlit("-");
            }
            name.append("-");
            assert(name@ =~= before + syllable(hbytes@[i as int]) + seq!['-']);
        } else {
            assert(name@ =~= before + syllable(hbytes@[i as int]) + Seq::<char>::empty());
        }
        i += 1;
    }
    name
}

/// The name of a chain on an architecture: the name for the hash of its
/// payload without input.
pub open spec fn chain_name(chain: Chain, arch: Arch) -> Seq<char> {
    name_of(
        digest(
            packed(
                chain.alleles@,
                Seq::<u64>::empty(),
                arch.spec_addr_width(),
                arch.spec_endian(),
            ),
        ),
    )
}

/// Gives a chain its name.
pub fn baptise_chain(chain: &Chain, arch: Arch) -> (name: String)
    ensures
        name@ == chain_name(*chain, arch),
{
    let no_input: Vec<u64> = Vec::new();
    let p = chain.pack(no_input.as_slice(), arch);
    let mut hasher = DefaultHasher::new();
    feed(&mut hasher, &p);
    let hash: u64 = hasher.finish();
    assert(no_input@ =~= Seq::<u64>::empty());
    name_from_hash(hash)
}

/// The inputs after one more is posed: as they were where the input is
/// among them, and else with the input after them.
pub open spec fn posed(inputs: Seq<Seq<u64>>, input: Seq<u64>) -> Seq<Seq<u64>> {
    if inputs.contains(input) {
        inputs
    } else {
        inputs.push(input)
    }
}

/// What flows through the pipeline.
#[derive(Clone, Debug)]
pub struct Creature {
    pub genome: Chain,
    pub phenome: Phenome,
    pub index: usize,
    pub name: String,
    pub fitness: Option<Fitness>,
}

impl Creature {
    /// A creature that can flow: its chain can run, no problem is posed to it
    /// twice, and where it has a fitness, the fitness holds a score.
    pub open spec fn wf(&self) -> bool {
        &&& self.genome.wf()
        &&& self.phenome.wf()
        &&& self.fitness matches Some(f) ==> f@.len() >= 1
    }

    /// A creature around a genome, with no problem posed yet.
    pub fn new(genome: Chain, index: usize, arch: Arch) -> (c: Creature)
        ensures
            c.genome == genome,
            c.phenome.cases@.len() == 0,
            c.index == index,
            c.name@ == chain_name(genome, arch),
            c.fitness is None,
    {
        let name = baptise_chain(&genome, arch);
        Creature { genome, phenome: Phenome::new(), index, name, fitness: None }
    }

    /// Poses to the creature the problems of `parent`, unsolved, in place of
    /// its own.
    pub fn inherit_problems(&mut self, parent: &Creature)
        requires
            parent.phenome.cases@.len() > 0,
        ensures
            inputs_of(final(self).phenome.cases@) == inputs_of(parent.phenome.cases@),
            !any_hatched(final(self).phenome.cases@),
            final(self).genome == old(self).genome,
            final(self).index == old(self).index,
            final(self).name == old(self).name,
            final(self).fitness == old(self).fitness,
    {
        let mut larval: Vec<Case> = Vec::new();
        let mut i: usize = 0;
        while i < parent.phenome.cases.len()
            invariant
                i <= parent.phenome.cases@.len(),
                larval@.len() == i,
                inputs_of(larval@) == inputs_of(parent.phenome.cases@.take(i as int)),
                forall|k: int| 0 <= k < larval@.len() ==> (#[trigger] larval@[k]).pod is None,
            decreases parent.phenome.cases@.len() - i,
        {
            let ghost before = larval@;
            let input = copy_input(&parent.phenome.cases[i].input);
            larval.push(Case { input, pod: None });
            proof {
                let cases = parent.phenome.cases@;
                assert forall|k: int| 0 <= k < larval@.len() implies inputs_of(larval@)[k]
                    == inputs_of(cases.take(i + 1))[k] by {
                    if k < i {
                        assert(inputs_of(before)[k] == inputs_of(cases.take(i as int))[k]);
                    }
                }
                assert(inputs_of(larval@) =~= inputs_of(cases.take(i + 1)));
            }
            i += 1;
        }
        assert(parent.phenome.cases@.take(i as int) =~= parent.phenome.cases@);
        self.phenome = Phenome { cases: larval };
    }

    /// Poses one more problem to the creature, unsolved.  A problem posed
    /// before is posed afresh, in its old place.
    pub fn pose_problem(&mut self, input: &Input)
        requires
            old(self).phenome.wf(),
        ensures
            final(self).phenome.wf(),
            inputs_of(final(self).phenome.cases@) == posed(
                inputs_of(old(self).phenome.cases@),
                input@,
            ),
            ({
                let cases = old(self).phenome.cases@;
                let at = case_index(cases, input@, 0);
                &&& 0 <= at <= cases.len()
                &&& final(self).phenome.cases@[at].pod is None
                &&& forall|k: int|
                    0 <= k < cases.len() && k != at ==> final(self).phenome.cases@[k] == cases[k]
            }),
            !any_hatched(old(self).phenome.cases@) ==> !any_hatched(final(self).phenome.cases@),
            final(self).genome == old(self).genome,
            final(self).index == old(self).index,
            final(self).name == old(self).name,
            final(self).fitness == old(self).fitness,
    {
        let ghost before = self.phenome.cases@;
        proof {
            lemma_case_index(before, input@, 0);
        }
        self.phenome.insert(copy_input(input), None);
        proof {
            let now = self.phenome.cases@;
            let at = case_index(before, input@, 0);
            if at < before.len() {
                assert(inputs_of(before)[at] == input@);
                assert(inputs_of(now) =~= inputs_of(before));
            } else {
                assert(!inputs_of(before).contains(input@)) by {
                    if inputs_of(before).contains(input@) {
                        let k = choose|k: int|
                            0 <= k < inputs_of(before).len() && inputs_of(before)[k] == input@;
                        assert(before[k].input@ == input@);
                    }
                }
                assert(inputs_of(now) =~= inputs_of(before).push(input@));
            }
            if !any_hatched(before) && any_hatched(now) {
                let k = choose|k: int| 0 <= k < now.len() && (#[trigger] now[k]).pod is Some;
                if k != at {
                    assert(before[k].pod is Some);
                }
            }
        }
    }

    /// Whether the creature's chain has run on one of its problems.
    pub fn has_hatched(&self) -> (b: bool)
        ensures
            b == any_hatched(self.phenome.cases@),
    {
        self.phenome.hatched()
    }

    pub fn generation(&self) -> (g: usize)
        ensures
            g == self.genome.generation,
    {
        self.genome.generation
    }
}

} // verus!
