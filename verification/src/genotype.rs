//! The genotype: gadgets, alleles and chains.

use crate::params::{chance, Config, UNIT};
use crate::rng::{draw_u32, draw_u64};
use crate::target::{
    align_inst_addr, aligned_addr, exec_segs, find_seg, image_wf, seg_of, usable_segs, Arch,
    Mode, Seg,
};
use crate::words::{
    le_value, lemma_le_value32, lemma_le_value64, pack_word, word_bytes, Endian,
};
use rand_isaac::isaac64::Isaac64Rng;
use vstd::prelude::*;

verus! {

/// Number of input slots that an allele can name.
pub const INPUT_SLOTS: usize = 16;

/// A piece of code in the target that ends by handing control on.
#[derive(Copy, Clone, Debug, PartialEq, Eq, Structural)]
pub struct Gadget {
    pub ret_addr: u64,
    pub entry: u64,
    pub sp_delta: usize,
    pub mode: Mode,
}

impl Gadget {
    /// The gadget moved by `delta` bytes, wrapping round within the segment
    /// that holds its entry.  A gadget outside every segment stays where it is.
    pub open spec fn shifted(self, delta: int, image: Seq<Seg>) -> Gadget {
        match seg_of(image, self.entry) {
            Some(seg) => Gadget {
                ret_addr: self.ret_addr,
                entry: (seg.addr + (self.entry - seg.addr + delta) % (seg.memsz as int)) as u64,
                sp_delta: self.sp_delta,
                mode: self.mode,
            },
            None => self,
        }
    }

    pub fn add(self, other: i64, image: &Vec<Seg>) -> (g: Gadget)
        requires
            image_wf(image@),
        ensures
            g == self.shifted(other as int, image@),
    {
        match find_seg(image, self.entry) {
            Some(seg) => {
                proof {
                    lemma_seg_of_holds(image@, self.entry);
                }
                let size: u128 = seg.memsz as u128;
                let offset: u128 = (self.entry - seg.addr) as u128;
                let new_offset: u128 = if other >= 0 {
                    (offset + other as u128) % size
                } else {
                    let back: u128 = (-(other as i128)) as u128;
                    let rest: u128 = back % size;
                    proof {
                        let z = size as int;
                        let q = back as int / z;
                        vstd::arithmetic::div_mod::lemma_fundamental_div_mod(back as int, z);
                        vstd::arithmetic::div_mod::lemma_mod_multiples_vanish(
                            -(q + 1),
                            offset + z - rest,
                            z,
                        );
                        assert(z * (-(q + 1)) + (offset + z - rest) == offset - back)
                            by (nonlinear_arith)
                            requires
                                back == z * q + rest,
                        ;
                    }
                    (offset + size - rest) % size
                };
                Gadget {
                    ret_addr: self.ret_addr,
                    entry: seg.addr + new_offset as u64,
                    sp_delta: self.sp_delta,
                    mode: self.mode,
                }
            },
            None => self,
        }
    }
}

/// The segment that `seg_of` finds holds the address and is one of the image.
pub proof fn lemma_seg_of_holds(image: Seq<Seg>, addr: u64)
    ensures
        seg_of(image, addr) matches Some(seg) ==> seg.contains(addr) && image.contains(seg),
{
    lemma_seg_index(image, addr, 0);
}

proof fn lemma_seg_index(image: Seq<Seg>, addr: u64, from: int)
    requires
        0 <= from,
    ensures
        from <= crate::target::seg_index(image, addr, from) <= image.len() || from > image.len(),
        crate::target::seg_index(image, addr, from) < image.len() ==> image[crate::target::seg_index(
            image,
            addr,
            from,
        )].contains(addr),
    decreases image.len() - from,
{
    if from < image.len() && !image[from].contains(addr) {
        lemma_seg_index(image, addr, from + 1);
    }
}

/// The unit of a genome: a gadget, or one of the words of the problem's input.
#[derive(Copy, Clone, Debug, PartialEq, Eq, Structural)]
pub enum Allele {
    Input(usize),
    Gadget(Gadget),
}

impl Allele {
    /// An input slot names one of the `INPUT_SLOTS` slots.
    pub open spec fn wf(self) -> bool {
        self matches Allele::Input(n) ==> n < INPUT_SLOTS
    }

    pub open spec fn spec_entry(self) -> Option<u64> {
        match self {
            Allele::Gadget(g) => Some(g.entry),
            Allele::Input(_) => None,
        }
    }

    /// The address at which the allele starts to run, if it is a gadget.
    pub fn entry(&self) -> (e: Option<u64>)
        ensures
            e == self.spec_entry(),
    {
        match *self {
            Allele::Gadget(g) => Some(g.entry),
            _ => None,
        }
    }

    /// The allele moved by `addend`: an input slot to the slot that many
    /// places on, counted round the `INPUT_SLOTS` slots; a gadget by that many
    /// bytes within its segment.
    pub open spec fn moved(self, addend: int, image: Seq<Seg>) -> Allele {
        match self {
            Allele::Input(n) => Allele::Input(((n + addend) % (INPUT_SLOTS as int)) as usize),
            Allele::Gadget(g) => Allele::Gadget(g.shifted(addend, image)),
        }
    }

    pub fn add(&self, addend: isize, image: &Vec<Seg>) -> (a: Allele)
        requires
            image_wf(image@),
        ensures
            a == self.moved(addend as int, image@),
            a.wf(),
            a is Gadget <==> *self is Gadget,
    {
        match *self {
            Allele::Input(n) => {
                let step: usize = if addend >= 0 {
                    (addend as usize) % INPUT_SLOTS
                } else {
                    INPUT_SLOTS - 1 - ((-(addend + 1)) as usize) % INPUT_SLOTS
                };
                Allele::Input((n % INPUT_SLOTS + step) % INPUT_SLOTS)
            },
            Allele::Gadget(g) => Allele::Gadget(g.add(addend as i64, image)),
        }
    }
}

/// A genome: alleles in order, the mask that steers mating and crossover, and
/// the number of generations behind it.
#[derive(Clone, Debug)]
pub struct Chain {
    pub alleles: Vec<Allele>,
    pub xbits: u64,
    pub generation: usize,
}

/// Position of the first gadget at or after `from`, or the number of alleles
/// where there is none.
pub open spec fn first_gadget(alleles: Seq<Allele>, from: int) -> int
    decreases alleles.len() - from,
{
    if from < 0 || from >= alleles.len() {
        alleles.len() as int
    } else if alleles[from] is Gadget {
        from
    } else {
        first_gadget(alleles, from + 1)
    }
}

/// Entry address of the first gadget among the alleles.
pub open spec fn entry_of(alleles: Seq<Allele>) -> Option<u64> {
    let i = first_gadget(alleles, 0);
    if i < alleles.len() {
        alleles[i].spec_entry()
    } else {
        None
    }
}

/// The word that an allele puts into the payload: a gadget its entry, an
/// input slot the input word it names, counted round the input, or 0 where
/// there is no input.
pub open spec fn payload_word(allele: Allele, input: Seq<u64>) -> u64 {
    match allele {
        Allele::Gadget(g) => g.entry,
        Allele::Input(i) => if input.len() > 0 {
            input[i as int % input.len() as int]
        } else {
            0
        },
    }
}

/// The words of the alleles, each laid out in `size` bytes, one after the other.
pub open spec fn payload_bytes(alleles: Seq<Allele>, input: Seq<u64>, size: usize, endian: Endian) -> Seq<
    u8,
>
    decreases alleles.len(),
{
    if alleles.len() == 0 {
        Seq::empty()
    } else {
        payload_bytes(alleles.drop_last(), input, size, endian) + word_bytes(
            payload_word(alleles.last(), input),
            size,
            endian,
        )
    }
}

/// The payload of a genome: the words of its alleles from the first gadget on.
pub open spec fn packed(alleles: Seq<Allele>, input: Seq<u64>, size: usize, endian: Endian) -> Seq<
    u8,
> {
    payload_bytes(
        alleles.subrange(first_gadget(alleles, 0), alleles.len() as int),
        input,
        size,
        endian,
    )
}

pub proof fn lemma_first_gadget_bounds(alleles: Seq<Allele>, from: int)
    requires
        0 <= from <= alleles.len(),
    ensures
        from <= first_gadget(alleles, from) <= alleles.len(),
        first_gadget(alleles, from) < alleles.len() ==> alleles[first_gadget(alleles, from)] is Gadget,
        forall|k: int| from <= k < first_gadget(alleles, from) ==> alleles[k] is Input,
    decreases alleles.len() - from,
{
    if from < alleles.len() && !(alleles[from] is Gadget) {
        lemma_first_gadget_bounds(alleles, from + 1);
    }
}

impl Chain {
    /// A chain that can run: every input slot exists and there is a gadget to
    /// enter by.
    pub open spec fn wf(&self) -> bool {
        &&& forall|i: int| 0 <= i < self.alleles@.len() ==> (#[trigger] self.alleles@[i]).wf()
        &&& entry_of(self.alleles@) is Some
    }

    pub fn len(&self) -> (n: usize)
        ensures
            n == self.alleles@.len(),
    {
        self.alleles.len()
    }

    pub fn is_empty(&self) -> (b: bool)
        ensures
            b == (self.alleles@.len() == 0),
    {
        self.alleles.len() == 0
    }

    /// The payload of the chain for one input, in the word size and byte
    /// order of `arch`.
    pub fn pack(&self, input: &[u64], arch: Arch) -> (p: Vec<u8>)
        ensures
            p@ == packed(self.alleles@, input@, arch.spec_addr_width(), arch.spec_endian()),
    {
        let size = arch.addr_width();
        let endian = arch.endian();
        let mut p: Vec<u8> = Vec::new();
        let mut start = false;
        let mut i: usize = 0;
        let ghost fg = first_gadget(self.alleles@, 0);
        proof {
            lemma_first_gadget_bounds(self.alleles@, 0);
        }
        while i < self.alleles.len()
            invariant
                i <= self.alleles@.len(),
                size == 4 || size == 8,
                fg == first_gadget(self.alleles@, 0),
                0 <= fg <= self.alleles@.len(),
                !start ==> i <= fg && p@.len() == 0,
                start ==> fg <= i && p@ == payload_bytes(
                    self.alleles@.subrange(fg, i as int),
                    input@,
                    size,
                    endian,
                ),
                forall|k: int| 0 <= k < fg ==> self.alleles@[k] is Input,
                fg < self.alleles@.len() ==> self.alleles@[fg] is Gadget,
            decreases self.alleles@.len() - i,
        {
            let allele = self.alleles[i];
            let skip = match allele {
                Allele::Input(_) => !start,
                Allele::Gadget(_) => false,
            };
            if !skip {
                proof {
                    if !start {
                        assert(i == fg);
                        assert(self.alleles@.subrange(fg, i as int) =~= Seq::<Allele>::empty());
                    }
                    assert(self.alleles@.subrange(fg, i + 1).drop_last() =~= self.alleles@.subrange(
                        fg,
                        i as int,
                    ));
                }
                start = true;
                let w: u64 = match allele {
                    Allele::Input(slot) => {
                        if input.len() > 0 {
                            input[slot % input.len()]
                        } else {
                            0
                        }
                    },
                    Allele::Gadget(g) => g.entry,
                };
                let ghost before = p@;
                let mut word = pack_word(w, size, endian);
                p.append(&mut word);
                proof {
                    let done = self.alleles@.subrange(fg, i as int);
                    let now = self.alleles@.subrange(fg, i + 1);
                    assert(now.drop_last() =~= done);
                    assert(now.last() == allele);
                    assert(w == payload_word(allele, input@));
                    assert(before == payload_bytes(done, input@, size, endian));
                    assert(p@ == before + word_bytes(w, size, endian));
                    assert(payload_bytes(now, input@, size, endian) == payload_bytes(
                        now.drop_last(),
                        input@,
                        size,
                        endian,
                    ) + word_bytes(payload_word(now.last(), input@), size, endian));
                }
            }
            i += 1;
        }
        proof {
            if !start {
                assert(self.alleles@.subrange(fg, self.alleles@.len() as int) =~= Seq::<
                    Allele,
                >::empty());
            }
        }
        p
    }

    /// The address at which the chain starts to run: the entry of its first
    /// gadget.
    pub fn entry(&self) -> (e: Option<u64>)
        ensures
            e == entry_of(self.alleles@),
    {
        let mut i: usize = 0;
        while i < self.alleles.len()
            invariant
                i <= self.alleles@.len(),
                first_gadget(self.alleles@, 0) == first_gadget(self.alleles@, i as int),
            decreases self.alleles@.len() - i,
        {
            if let Some(e) = self.alleles[i].entry() {
                return Some(e);
            }
            i += 1;
        }
        None
    }
}

/// The address that a draw lands on in a segment of the image: the draw,
/// counted round the segment, brought down to an instruction start.
pub open spec fn landing(image: Seq<Seg>, s: int, draw: u64, mode: Mode) -> u64 {
    aligned_addr((image[s].addr + draw % image[s].memsz) as u64, mode)
}

/// What a seeded allele may be: an input slot that exists, or a gadget in
/// the given mode, with nothing known of its return and its stack use, at an
/// address that some draw lands on in a usable segment.
pub open spec fn seeded_allele(a: Allele, image: Seq<Seg>, mode: Mode) -> bool {
    match a {
        Allele::Input(k) => k < INPUT_SLOTS,
        Allele::Gadget(g) => g.ret_addr == 0 && g.sp_delta == 0 && g.mode == mode && exists|
            s: int,
            draw: u64,
        |
            0 <= s < image.len() && image[s].usable() && g.entry == #[trigger] landing(
                image,
                s,
                draw,
                mode,
            ),
    }
}

/// What the input slot rate fixes of a chain seeded on an image with a
/// usable segment: at rate 0 every allele is a gadget, and from rate one on
/// every allele but the first is an input slot.
pub open spec fn slots_at_rate(alleles: Seq<Allele>, rate: u32) -> bool {
    &&& rate == 0 ==> forall|i: int| 0 <= i < alleles.len() ==> (#[trigger] alleles[i]) is Gadget
    &&& rate >= UNIT ==> forall|i: int| 1 <= i < alleles.len() ==> (#[trigger] alleles[i]) is Input
}

/// The length that a draw gives to a seeded chain: from `min_len` up to, and
/// without, `max_len`; `min_len` where the two are equal.
pub open spec fn seeded_len(draw: u64, min_len: usize, max_len: usize) -> int {
    let range = if max_len - min_len > 1 {
        max_len - min_len
    } else {
        1
    };
    draw % (range as u64) + min_len
}

pub fn chain_length(draw: u64, min_len: usize, max_len: usize) -> (n: usize)
    requires
        min_len <= max_len,
    ensures
        n == seeded_len(draw, min_len, max_len),
        min_len <= n,
        n < max_len || n == min_len,
{
    let range: usize = if max_len - min_len > 1 {
        max_len - min_len
    } else {
        1
    };
    (draw % (range as u64)) as usize + min_len
}

/// The gadget that a draw lands on in a segment.
pub fn gadget_at(seg: &Seg, draw: u64, mode: Mode) -> (g: Gadget)
    requires
        seg.wf(),
        seg.memsz > 0,
    ensures
        g.entry == aligned_addr((seg.addr + draw % seg.memsz) as u64, mode),
        g.ret_addr == 0,
        g.sp_delta == 0,
        g.mode == mode,
{
    let unaligned = seg.addr + draw % seg.memsz;
    Gadget { ret_addr: 0, entry: align_inst_addr(unaligned, mode), sp_delta: 0, mode }
}

/// The input slot that a draw names.
pub fn input_slot(draw: u64) -> (a: Allele)
    ensures
        a == Allele::Input((draw % 16) as usize),
        a.wf(),
{
    Allele::Input((draw % 16) as usize)
}

impl Chain {
    /// A random chain for the image.  Where the image has a usable segment,
    /// the first allele is a gadget, and each later one is an input slot at
    /// the rate of the settings and a gadget else.  Where it has none, there
    /// is nothing to point a gadget at, and every allele is an input slot.
    pub fn from_seed(
        rng: &mut Isaac64Rng,
        len_range: (usize, usize),
        config: &Config,
        image: &Vec<Seg>,
    ) -> (chain: Chain)
        requires
            len_range.0 <= len_range.1,
            image_wf(image@),
        ensures
            chain.generation == 0,
            len_range.0 <= chain.alleles@.len(),
            chain.alleles@.len() < len_range.1 || chain.alleles@.len() == len_range.0,
            forall|i: int|
                0 <= i < chain.alleles@.len() ==> seeded_allele(
                    #[trigger] chain.alleles@[i],
                    image@,
                    config.arch.spec_mode(),
                ),
            usable_segs(image@).len() > 0 && chain.alleles@.len() > 0 ==> chain.alleles@[0] is Gadget
                && chain.wf(),
            usable_segs(image@).len() > 0 ==> slots_at_rate(
                chain.alleles@,
                config.input_slot_freq,
            ),
            usable_segs(image@).len() == 0 ==> entry_of(chain.alleles@) is None,
    {
        let xbits: u64 = draw_u64(rng);
        let segs = exec_segs(image);
        let mode = config.arch.mode();
        let mut alleles: Vec<Allele> = Vec::new();
        let glen = chain_length(draw_u64(rng), len_range.0, len_range.1);
        let mut n: usize = 0;
        while n < glen
            invariant
                n <= glen,
                alleles@.len() == n,
                image_wf(image@),
                mode == config.arch.spec_mode(),
                segs@ == usable_segs(image@),
                forall|i: int|
                    0 <= i < segs@.len() ==> (#[trigger] segs@[i]).usable() && image@.contains(
                        segs@[i],
                    ),
                forall|i: int|
                    0 <= i < alleles@.len() ==> seeded_allele(#[trigger] alleles@[i], image@, mode),
                segs@.len() > 0 && n > 0 ==> alleles@[0] is Gadget,
                segs@.len() > 0 ==> slots_at_rate(alleles@, config.input_slot_freq),
                segs@.len() == 0 ==> forall|i: int|
                    0 <= i < alleles@.len() ==> (#[trigger] alleles@[i]) is Input,
            decreases glen - n,
        {
            let allele = if segs.len() == 0 {
                input_slot(draw_u64(rng))
            } else {
                let seg = segs[(draw_u64(rng) % (segs.len() as u64)) as usize];
                let draw = draw_u64(rng);
                if n > 0 && chance(draw_u32(rng), config.input_slot_freq) {
                    input_slot(draw_u64(rng))
                } else {
                    proof {
                        let s = choose|s: int| 0 <= s < image@.len() && image@[s] == seg;
                        assert(image@[s].wf());
                    }
                    let g = gadget_at(&seg, draw, mode);
                    proof {
                        let s = choose|s: int| 0 <= s < image@.len() && image@[s] == seg;
                        assert(g.entry == landing(image@, s, draw, mode));
                    }
                    Allele::Gadget(g)
                }
            };
            let ghost before = alleles@;
            alleles.push(allele);
            proof {
                if segs@.len() > 0 {
                    assert forall|i: int| 0 <= i < alleles@.len() implies (i < n ==> alleles@[i]
                        == before[i]) && (i == n ==> alleles@[i] == allele) by {}
                    assert(slots_at_rate(alleles@, config.input_slot_freq));
                }
            }
            n += 1;
        }
        let chain = Chain { alleles, xbits, generation: 0 };
        proof {
            lemma_first_gadget_bounds(chain.alleles@, 0);
            if segs@.len() > 0 && chain.alleles@.len() > 0 {
                assert forall|i: int| 0 <= i < chain.alleles@.len() implies (
                #[trigger] chain.alleles@[i]).wf() by {
                    assert(seeded_allele(chain.alleles@[i], image@, mode));
                }
            }
        }
        chain
    }
}

/// The payload of alleles is one word after the other: word `i` of it is the
/// layout of the word of allele `i`.
pub proof fn lemma_payload_words(alleles: Seq<Allele>, input: Seq<u64>, size: usize, endian: Endian)
    requires
        size == 4 || size == 8,
    ensures
        payload_bytes(alleles, input, size, endian).len() == alleles.len() * size,
        forall|i: int|
            0 <= i < alleles.len() ==> #[trigger] payload_bytes(
                alleles,
                input,
                size,
                endian,
            ).subrange(i * size, (i + 1) * size) == word_bytes(
                payload_word(alleles[i], input),
                size,
                endian,
            ),
    decreases alleles.len(),
{
    let n = alleles.len() as int;
    let all = payload_bytes(alleles, input, size, endian);
    if n > 0 {
        let init = alleles.drop_last();
        let before = payload_bytes(init, input, size, endian);
        let word = word_bytes(payload_word(alleles.last(), input), size, endian);
        lemma_payload_words(init, input, size, endian);
        assert(word.len() == size);
        assert(all == before + word);
        assert((n - 1) * size + size == n * size) by (nonlinear_arith);
        assert forall|i: int| 0 <= i < n implies #[trigger] all.subrange(i * size, (i + 1) * size)
            == word_bytes(payload_word(alleles[i], input), size, endian) by {
            assert(i * size + size == (i + 1) * size) by (nonlinear_arith);
            if i < n - 1 {
                assert((i + 1) * size <= (n - 1) * size) by (nonlinear_arith)
                    requires
                        i + 1 <= n - 1,
                        size > 0,
                ;
                assert(0 <= i * size) by (nonlinear_arith)
                    requires
                        0 <= i,
                        size > 0,
                ;
                assert(all.subrange(i * size, (i + 1) * size) =~= before.subrange(
                    i * size,
                    (i + 1) * size,
                ));
                assert(init[i] == alleles[i]);
            } else {
                assert(all.subrange(i * size, (i + 1) * size) =~= word);
            }
        }
    }
}

/// A chain of gadgets only, packed without input for a little-endian
/// architecture, is one word for each gadget, and each word read back is the
/// entry of its gadget.  Where words have four bytes, this is said of
/// entries that fit in four bytes.
pub proof fn lemma_pack_round_trip(alleles: Seq<Allele>, arch: Arch)
    requires
        forall|i: int| 0 <= i < alleles.len() ==> (#[trigger] alleles[i]) is Gadget,
        arch.spec_endian() == Endian::Little,
        arch.spec_addr_width() == 4 ==> forall|i: int|
            0 <= i < alleles.len() ==> (#[trigger] alleles[i])->Gadget_0.entry <= 0xFFFF_FFFF,
    ensures
        packed(alleles, Seq::empty(), arch.spec_addr_width(), arch.spec_endian()).len()
            == alleles.len() * arch.spec_addr_width(),
        forall|i: int|
            0 <= i < alleles.len() ==> le_value(
                #[trigger] packed(
                    alleles,
                    Seq::empty(),
                    arch.spec_addr_width(),
                    arch.spec_endian(),
                ).subrange(i * arch.spec_addr_width(), (i + 1) * arch.spec_addr_width()),
            ) == alleles[i]->Gadget_0.entry,
{
    let size = arch.spec_addr_width();
    let input = Seq::<u64>::empty();
    lemma_first_gadget_bounds(alleles, 0);
    assert(first_gadget(alleles, 0) == 0);
    assert(alleles.subrange(0, alleles.len() as int) =~= alleles);
    lemma_payload_words(alleles, input, size, Endian::Little);
    let all = packed(alleles, input, size, Endian::Little);
    assert forall|i: int| 0 <= i < alleles.len() implies le_value(
        #[trigger] all.subrange(i * size, (i + 1) * size),
    ) == alleles[i]->Gadget_0.entry by {
        let entry = alleles[i]->Gadget_0.entry;
        assert(payload_word(alleles[i], input) == entry);
        if size == 4 {
            assert(entry & 0xFFFF_FFFF == entry) by (bit_vector)
                requires
                    entry <= 0xFFFF_FFFF,
            ;
            lemma_le_value32((entry & 0xFFFF_FFFF) as u32);
        } else {
            lemma_le_value64(entry);
        }
    }
}

} // verus!
