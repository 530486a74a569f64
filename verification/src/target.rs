//! The target binary as the search sees it: its architecture and the
//! segments of its memory image.

use crate::words::Endian;
use vstd::prelude::*;

verus! {

/// Instruction mode of a processor.
#[derive(Copy, Clone, Debug, PartialEq, Eq, Structural)]
pub enum Mode {
    Arm,
    Thumb,
    Be,
    Le,
    Bits16,
    Bits32,
    Bits64,
}

/// Processor family, with the mode it starts in.
#[derive(Copy, Clone, Debug, PartialEq, Eq, Structural)]
pub enum Arch {
    Arm(Mode),
    Mips(Mode),
    X86(Mode),
}

impl Arch {
    pub open spec fn spec_mode(self) -> Mode {
        match self {
            Arch::Arm(m) => m,
            Arch::Mips(m) => m,
            Arch::X86(m) => m,
        }
    }

    /// The mode the processor is in.
    pub fn mode(&self) -> (m: Mode)
        ensures
            m == self.spec_mode(),
    {
        match *self {
            Arch::Arm(m) => m,
            Arch::Mips(m) => m,
            Arch::X86(m) => m,
        }
    }

    pub open spec fn spec_with_mode(self, mode: Mode) -> Arch {
        match self {
            Arch::Arm(_) => Arch::Arm(mode),
            Arch::Mips(_) => Arch::Mips(mode),
            Arch::X86(_) => Arch::X86(mode),
        }
    }

    /// The same family in another mode.
    pub fn with_mode(&self, mode: Mode) -> (a: Arch)
        ensures
            a == self.spec_with_mode(mode),
    {
        match *self {
            Arch::Arm(_) => Arch::Arm(mode),
            Arch::Mips(_) => Arch::Mips(mode),
            Arch::X86(_) => Arch::X86(mode),
        }
    }

    /// Bytes in an address: 8 on x86, 4 elsewhere.
    pub open spec fn spec_addr_width(self) -> usize {
        match self {
            Arch::X86(_) => 8,
            _ => 4,
        }
    }

    pub fn addr_width(&self) -> (w: usize)
        ensures
            w == self.spec_addr_width(),
            w == 4 || w == 8,
    {
        match *self {
            Arch::X86(_) => 8,
            _ => 4,
        }
    }

    /// Byte order of a word in memory: big on big-endian MIPS, little elsewhere.
    pub open spec fn spec_endian(self) -> Endian {
        match self {
            Arch::Mips(Mode::Be) => Endian::Big,
            _ => Endian::Little,
        }
    }

    pub fn endian(&self) -> (e: Endian)
        ensures
            e == self.spec_endian(),
    {
        match *self {
            Arch::Mips(Mode::Be) => Endian::Big,
            _ => Endian::Little,
        }
    }
}

/// The architecture that an ELF machine name stands for.
pub open spec fn arch_of_machine(name: Seq<char>) -> Option<Arch> {
    if name == "ARM"@ {
        Some(Arch::Arm(Mode::Arm))
    } else if name == "MIPS"@ {
        Some(Arch::Mips(Mode::Be))
    } else if name == "MIPS_RS3_LE"@ {
        Some(Arch::Mips(Mode::Le))
    } else if name == "X86_64"@ {
        Some(Arch::X86(Mode::Bits64))
    } else if name == "386"@ {
        Some(Arch::X86(Mode::Bits32))
    } else {
        None
    }
}

/// Bytes between two instruction starts: 4 on ARM and MIPS, 2 in Thumb mode,
/// 1 on x86.
pub open spec fn inst_alignment(mode: Mode) -> u64 {
    match mode {
        Mode::Arm | Mode::Be | Mode::Le => 4,
        Mode::Thumb => 2,
        _ => 1,
    }
}

/// The nearest instruction start at or below `addr`.
pub open spec fn aligned_addr(addr: u64, mode: Mode) -> u64 {
    (addr - addr % inst_alignment(mode)) as u64
}

pub fn align_inst_addr(addr: u64, mode: Mode) -> (a: u64)
    ensures
        a == aligned_addr(addr, mode),
        a <= addr,
        a % inst_alignment(mode) == 0,
{
    match mode {
        Mode::Arm | Mode::Be | Mode::Le => addr - addr % 4,
        Mode::Thumb => addr - addr % 2,
        _ => addr,
    }
}

/// One segment of the memory image.
#[derive(Copy, Clone, Debug, PartialEq, Eq, Structural)]
pub struct Seg {
    /// Address of the first byte.
    pub addr: u64,
    /// Number of bytes.
    pub memsz: u64,
    /// Whether code may run from the segment.
    pub executable: bool,
}

impl Seg {
    /// The segment ends within the address space.
    pub open spec fn wf(self) -> bool {
        self.addr + self.memsz <= u64::MAX + 1
    }

    pub open spec fn contains(self, addr: u64) -> bool {
        self.addr <= addr && addr - self.addr < self.memsz
    }

    /// Whether `addr` lies in the segment.
    pub fn holds(&self, addr: u64) -> (b: bool)
        ensures
            b == self.contains(addr),
    {
        self.addr <= addr && addr - self.addr < self.memsz
    }

    /// A segment that a gadget can be drawn from: executable and not empty.
    pub open spec fn usable(self) -> bool {
        self.executable && self.memsz > 0
    }
}

/// Every segment of the image ends within the address space.
pub open spec fn image_wf(image: Seq<Seg>) -> bool {
    forall|i: int| 0 <= i < image.len() ==> (#[trigger] image[i]).wf()
}

/// Position of the first segment at or after `from` that holds `addr`, or the
/// length of the image where none does.
pub open spec fn seg_index(image: Seq<Seg>, addr: u64, from: int) -> int
    decreases image.len() - from,
{
    if from < 0 || from >= image.len() {
        image.len() as int
    } else if image[from].contains(addr) {
        from
    } else {
        seg_index(image, addr, from + 1)
    }
}

/// The first segment of the image that holds `addr`.
pub open spec fn seg_of(image: Seq<Seg>, addr: u64) -> Option<Seg> {
    let i = seg_index(image, addr, 0);
    if i < image.len() {
        Some(image[i])
    } else {
        None
    }
}

pub fn find_seg(image: &Vec<Seg>, addr: u64) -> (found: Option<Seg>)
    ensures
        found == seg_of(image@, addr),
{
    let mut i: usize = 0;
    while i < image.len()
        invariant
            i <= image.len(),
            seg_index(image@, addr, 0) == seg_index(image@, addr, i as int),
        decreases image.len() - i,
    {
        if image[i].holds(addr) {
            return Some(image[i]);
        }
        i += 1;
    }
    None
}

/// The usable segments of the image, in their order.
pub open spec fn usable_segs(image: Seq<Seg>) -> Seq<Seg> {
    image.filter(|s: Seg| s.usable())
}

pub fn exec_segs(image: &Vec<Seg>) -> (r: Vec<Seg>)
    ensures
        r@ == usable_segs(image@),
        forall|i: int| 0 <= i < r@.len() ==> (#[trigger] r@[i]).usable() && image@.contains(r@[i]),
{
    let mut r: Vec<Seg> = Vec::new();
    let mut i: usize = 0;
    while i < image.len()
        invariant
            i <= image.len(),
            r@ == usable_segs(image@.take(i as int)),
            forall|k: int|
                0 <= k < r@.len() ==> (#[trigger] r@[k]).usable() && image@.contains(r@[k]),
        decreases image.len() - i,
    {
        let s = image[i];
        proof {
            assert(image@.take(i + 1) =~= image@.take(i as int).push(s));
            crate::seqs::lemma_filter_push(image@.take(i as int), s, |s: Seg| s.usable());
            assert(image@[i as int] == s);
        }
        if s.executable && s.memsz > 0 {
            r.push(s);
        }
        i += 1;
    }
    assert(image@.take(i as int) =~= image@);
    r
}

} // verus!
