//! Genomes and creatures as text.

use crate::creature::Creature;
use crate::genotype::{Allele, Chain, Gadget};
use crate::target::{Arch, Mode};
use crate::text::{
    debug_list, decimal, decimal_digits, decimal_list, hex, hex_digits, join, joined_all, texts,
    wf, word_digits, zero_padded,
};
use vstd::prelude::*;
use vstd::string::*;

verus! {

/// The name of a mode.
pub open spec fn mode_name(mode: Mode) -> Seq<char> {
    match mode {
        Mode::Arm => "Arm"@,
        Mode::Thumb => "Thumb"@,
        Mode::Be => "Be"@,
        Mode::Le => "Le"@,
        Mode::Bits16 => "Bits16"@,
        Mode::Bits32 => "Bits32"@,
        Mode::Bits64 => "Bits64"@,
    }
}

/// A gadget as text.
pub open spec fn gadget_text(g: Gadget, arch: Arch) -> Seq<char> {
    let width = word_digits(arch) as nat;
    "[Entry: "@ + zero_padded(hex_digits(g.entry as nat), width) + ", Ret: "@ + zero_padded(
        hex_digits(g.ret_addr as nat),
        width,
    ) + ", SpD: "@ + hex_digits(g.sp_delta as nat) + ", Mode: "@ + mode_name(g.mode) + "]"@
}

/// An allele as text.
pub open spec fn allele_text(a: Allele, arch: Arch) -> Seq<char> {
    match a {
        Allele::Input(i) => "[Input Slot #"@ + decimal_digits(i as nat) + "]"@,
        Allele::Gadget(g) => gadget_text(g, arch),
    }
}

/// The 64 bits of a mask, highest first.
pub open spec fn bits_text(x: u64) -> Seq<char> {
    Seq::new(
        64,
        |i: int|
            if x & (1u64 << ((63 - i) as u64)) != 0 {
                '1'
            } else {
                '0'
            },
    )
}

/// The first `n` alleles, each on a line of its own behind a tab.
pub open spec fn alleles_text(alleles: Seq<Allele>, arch: Arch, n: int) -> Seq<char>
    decreases n,
{
    if n <= 0 {
        Seq::empty()
    } else {
        alleles_text(alleles, arch, n - 1) + "\t"@ + allele_text(alleles[n - 1], arch) + "\n"@
    }
}

/// A chain as text: its alleles, its mask and its generation.
pub open spec fn chain_text(chain: Chain, arch: Arch) -> Seq<char> {
    alleles_text(chain.alleles@, arch, chain.alleles@.len() as int) + "\tXBITS: "@ + bits_text(
        chain.xbits,
    ) + "\n\tGEN: "@ + decimal_digits(chain.generation as nat) + "\n"@
}

/// A fitness as text.
pub open spec fn fitness_text(fitness: Option<Vec<u64>>) -> Seq<char> {
    match fitness {
        Some(f) => "Some("@ + decimal_list(f@) + ")"@,
        None => "None"@,
    }
}

/// The life of a creature as text: its name, its genome, what it visited,
/// what it wrote, and its fitness.
pub open spec fn biography_text(
    c: Creature,
    arch: Arch,
    visited: Seq<Seq<char>>,
    written: Seq<Seq<char>>,
) -> Seq<char> {
    "BIOGRAPHY OF "@ + c.name@ + "\nGENOME:\n"@ + chain_text(c.genome, arch) + "\nPHENOME:\n"@
        + joined_all(visited, "\t\n"@) + "\n"@ + joined_all(written, "\t\n"@) + "\n"@
        + fitness_text(c.fitness)
}

fn mode_str(mode: Mode) -> (s: &'static str)
    ensures
        s@ == mode_name(mode),
{
    match mode {
        Mode::Arm => "Arm",
        Mode::Thumb => "Thumb",
        Mode::Be => "Be",
        Mode::Le => "Le",
        Mode::Bits16 => "Bits16",
        Mode::Bits32 => "Bits32",
        Mode::Bits64 => "Bits64",
    }
}

impl Gadget {
    /// The gadget as text.
    pub fn describe(&self, arch: Arch) -> (s: String)
        ensures
            s@ == gadget_text(*self, arch),
    {
        let mut s = String::new();
        s.append("[Entry: ");
        s.append(wf(self.entry, arch).as_str());
        s.append(", Ret: ");
        s.append(wf(self.ret_addr, arch).as_str());
        s.append(", SpD: ");
        s.append(hex(self.sp_delta as u64, 0).as_str());
        s.append(", Mode: ");
        s.append(mode_str(self.mode));
        s.append("]");
        s
    }
}

impl Allele {
    /// The allele as text.
    pub fn describe(&self, arch: Arch) -> (s: String)
        ensures
            s@ == allele_text(*self, arch),
    {
        match *self {
            Allele::Input(i) => {
                let mut s = String::new();
                s.append("[Input Slot #");
                s.append(decimal(i as u64).as_str());
                s.append("]");
                s
            },
            Allele::Gadget(g) => g.describe(arch),
        }
    }
}

/// The 64 bits of a mask as text, highest first.
pub fn bits(x: u64) -> (s: String)
    ensures
        s@ == bits_text(x),
{
    let mut s = String::new();
    let mut i: u64 = 0;
    while i < 64
        invariant
            i <= 64,
            s@ == bits_text(x).take(i as int),
        decreases 64 - i,
    {
        proof {
            reveal_strlit("0");
            reveal_strlit("1");
        }
        if x & (1u64 << (63 - i)) != 0 {
            s.append("1");
        } else {
            s.append("0");
        }
        assert(s@ =~= bits_text(x).take(i + 1));
        i += 1;
    }
    assert(bits_text(x).take(64) =~= bits_text(x));
    s
}

impl Chain {
    /// The chain as text.
    pub fn describe(&self, arch: Arch) -> (s: String)
        ensures
            s@ == chain_text(*self, arch),
    {
        let mut s = String::new();
        let mut i: usize = 0;
        while i < self.alleles.len()
            invariant
                i <= self.alleles@.len(),
                s@ == alleles_text(self.alleles@, arch, i as int),
            decreases self.alleles@.len() - i,
        {
            s.append("\t");
            s.append(self.alleles[i].describe(arch).as_str());
            s.append("\n");
            i += 1;
        }
        s.append("\tXBITS: ");
        s.append(bits(self.xbits).as_str());
        s.append("\n\tGEN: ");
        s.append(decimal(self.generation as u64).as_str());
        s.append("\n");
        s
    }
}

impl Creature {
    /// The life of the creature as text, given the reports of what it
    /// visited and of what it wrote.
    pub fn biography(&self, arch: Arch, visited: &Vec<String>, written: &Vec<String>) -> (s: String)
        ensures
            s@ == biography_text(*self, arch, texts(visited@), texts(written@)),
    {
        let mut s = String::new();
        s.append("BIOGRAPHY OF ");
        s.append(self.name.as_str());
        s.append("\nGENOME:\n");
        s.append(self.genome.describe(arch).as_str());
        s.append("\nPHENOME:\n");
        s.append(join(visited, "\t\n").as_str());
        s.append("\n");
        s.append(join(written, "\t\n").as_str());
        s.append("\n");
        match &self.fitness {
            Some(f) => {
                s.append("Some(");
                s.append(debug_list(f).as_str());
                s.append(")");
            },
            None => {
                s.append("None");
            },
        }
        s
    }
}

} // verus!
