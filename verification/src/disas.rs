//! Listings: machine code and observations as text.

use crate::creature::Creature;
use crate::phenotype::{Case, Pod, VisitRecord, WriteRecord};
use crate::target::{Arch, Mode};
use crate::text::{
    debug_list, decimal_list, hex, hex_digits, hex_list, hex_words, join, joined_all, texts, wf,
    word_digits, zero_padded,
};
use crate::words::{le_bytes64, pack_word64le};
use capstone::arch::BuildsCapstone;
use capstone::Capstone;
use vstd::prelude::*;
use vstd::string::*;

verus! {

/// The disassembler of `capstone`, carried through as an opaque value.
#[verifier::external_type_specification]
#[verifier::external_body]
pub struct ExCapstone(capstone::Capstone);

/// `Capstone::new().x86().mode(Mode64).build()`: a disassembler for 64-bit
/// x86, where one can be had.  Nothing is claimed of it.
#[verifier::external_body]
pub fn x86_disassembler() -> Option<Capstone> {
    Capstone::new().x86().mode(capstone::arch::x86::ArchMode::Mode64).build().ok()
}

/// `Capstone::new().arm().mode(Arm).build()`: a disassembler for ARM, where
/// one can be had.  Nothing is claimed of it.
#[verifier::external_body]
pub fn arm_disassembler() -> Option<Capstone> {
    Capstone::new().arm().mode(capstone::arch::arm::ArchMode::Arm).build().ok()
}

/// `Capstone::new().arm().mode(Thumb).build()`: a disassembler for Thumb,
/// where one can be had.  Nothing is claimed of it.
#[verifier::external_body]
pub fn thumb_disassembler() -> Option<Capstone> {
    Capstone::new().arm().mode(capstone::arch::arm::ArchMode::Thumb).build().ok()
}

/// One disassembled instruction, as far as the disassembler names it.
#[derive(Clone, Debug, PartialEq, Eq)]
pub struct InsnText {
    pub mnemonic: Option<String>,
    pub op_str: Option<String>,
}

/// `Capstone::disasm_count` at address 0, with `Insn::mnemonic` and
/// `Insn::op_str` of each instruction found.  It fails for a count of 0;
/// nothing else is claimed of what it finds.
#[verifier::external_body]
pub(crate) fn disasm_count(cs: &Capstone, insts: &Vec<u8>, count: usize) -> (found: Option<
    Vec<InsnText>,
>)
    ensures
        count == 0 ==> found is None,
{
    match cs.disasm_count(insts, 0, count) {
        Ok(dis) => Some(
            dis.iter().map(
                |i|
                    InsnText {
                        mnemonic: i.mnemonic().map(|s| s.to_string()),
                        op_str: i.op_str().map(|s| s.to_string()),
                    },
            ).collect(),
        ),
        Err(_) => None,
    }
}

/// The text, or two question marks where there is none.
pub open spec fn named(part: Option<String>) -> Seq<char> {
    match part {
        Some(s) => s@,
        None => "??"@,
    }
}

/// An instruction as text: its mnemonic, a blank, and its operands.
pub open spec fn insn_text(i: InsnText) -> Seq<char> {
    named(i.mnemonic) + " "@ + named(i.op_str)
}

/// The bytes in hexadecimal, two digits each, with blanks between them.
pub open spec fn hex_dump(insts: Seq<u8>) -> Seq<char> {
    hex_words(insts.map_values(|b: u8| b as u64), 2)
}

/// A listing: the instructions found, with a semicolon and a blank between
/// two of them; or, where disassembly failed, the bytes in hexadecimal.
pub open spec fn listing_text(found: Option<Vec<InsnText>>, insts: Seq<u8>) -> Seq<char> {
    match found {
        Some(dis) => joined_all(dis@.map_values(|i: InsnText| insn_text(i)), "; "@),
        None => hex_dump(insts),
    }
}

fn name_or_unknown(part: &Option<String>) -> (s: String)
    ensures
        s@ == named(*part),
{
    let mut s = String::new();
    match part {
        Some(p) => s.append(p.as_str()),
        None => s.append("??"),
    }
    s
}

/// Writes a listing of what the disassembler found.
pub fn listing(found: &Option<Vec<InsnText>>, insts: &Vec<u8>) -> (s: String)
    ensures
        s@ == listing_text(*found, insts@),
{
    match found {
        Some(dis) => {
            let mut parts: Vec<String> = Vec::new();
            let mut i: usize = 0;
            while i < dis.len()
                invariant
                    i <= dis@.len(),
                    parts@.len() == i,
                    forall|k: int| 0 <= k < i ==> (#[trigger] parts@[k])@ == insn_text(dis@[k]),
                decreases dis@.len() - i,
            {
                let mut line = name_or_unknown(&dis[i].mnemonic);
                line.append(" ");
                line.append(name_or_unknown(&dis[i].op_str).as_str());
                parts.push(line);
                i += 1;
            }
            assert(texts(parts@) =~= dis@.map_values(|i: InsnText| insn_text(i)));
            join(&parts, "; ")
        },
        None => {
            let mut words: Vec<u64> = Vec::new();
            let mut i: usize = 0;
            while i < insts.len()
                invariant
                    i <= insts@.len(),
                    words@.len() == i,
                    forall|k: int| 0 <= k < i ==> words@[k] == insts@[k] as u64,
                decreases insts@.len() - i,
            {
                words.push(insts[i] as u64);
                i += 1;
            }
            assert(words@ =~= insts@.map_values(|b: u8| b as u64));
            hex_list(&words, 2)
        },
    }
}

/// The kinds of code that can be disassembled.
#[derive(Copy, Clone, Debug, PartialEq, Eq, Structural)]
pub enum Dialect {
    X86,
    Arm,
    Thumb,
}

/// The dialect of an architecture in a mode: 64-bit x86, ARM and Thumb can
/// be disassembled, nothing else.
pub open spec fn dialect_of(arch: Arch) -> Option<Dialect> {
    match arch {
        Arch::X86(Mode::Bits64) => Some(Dialect::X86),
        Arch::Arm(Mode::Arm) => Some(Dialect::Arm),
        Arch::Arm(Mode::Thumb) => Some(Dialect::Thumb),
        _ => None,
    }
}

/// `text` is a listing of the bytes.
pub open spec fn is_listing(text: Seq<char>, insts: Seq<u8>) -> bool {
    exists|found: Option<Vec<InsnText>>| text == #[trigger] listing_text(found, insts)
}

/// Lists the bytes with the disassembler that was had, if one was: there is
/// a listing exactly where there is a disassembler.  A count of 0 finds no
/// instructions, and the bytes are listed in hexadecimal.
pub fn disas_with(engine: &Option<Capstone>, insts: &Vec<u8>, num_insts: usize) -> (text: Option<
    String,
>)
    ensures
        text is Some <==> engine is Some,
        text matches Some(t) ==> is_listing(t@, insts@),
        text matches Some(t) ==> num_insts == 0 ==> t@ == hex_dump(insts@),
{
    match engine {
        Some(cs) => {
            let found = disasm_count(cs, insts, num_insts);
            Some(listing(&found, insts))
        },
        None => None,
    }
}

/// Disassembles up to `num_insts` instructions.  There is no listing for an
/// architecture that cannot be disassembled, and none where no disassembler
/// can be had.  Bytes that are no code are listed in hexadecimal.
pub fn disas(insts: &Vec<u8>, arch: Arch, num_insts: usize) -> (text: Option<String>)
    ensures
        dialect_of(arch) is None ==> text is None,
        text matches Some(t) ==> is_listing(t@, insts@),
        text matches Some(t) ==> num_insts == 0 ==> t@ == hex_dump(insts@),
{
    let engine = match arch {
        Arch::X86(Mode::Bits64) => x86_disassembler(),
        Arch::Arm(Mode::Arm) => arm_disassembler(),
        Arch::Arm(Mode::Thumb) => thumb_disassembler(),
        _ => None,
    };
    disas_with(&engine, insts, num_insts)
}

/// Number of bytes that are read for one instruction where its size is not
/// known.
pub const LONGEST_INSTRUCTION: usize = 15;

/// Number of bytes to read for a listing at an address.
pub fn read_len(num_bytes: usize) -> (n: usize)
    ensures
        n == if num_bytes == 0 {
            LONGEST_INSTRUCTION
        } else {
            num_bytes
        },
{
    if num_bytes == 0 {
        LONGEST_INSTRUCTION
    } else {
        num_bytes
    }
}

/// What stands for an address at which there is nothing to read.
pub open spec fn invalid_address(addr: u64) -> Seq<char> {
    "[INVALID ADDRESS: "@ + zero_padded(hex_digits(addr as nat), 8) + "]"@
}

/// A line for code at an address: the address, a tab, and the listing.
pub open spec fn static_text(addr: u64, listing: Seq<char>) -> Seq<char> {
    zero_padded(hex_digits(addr as nat), 8) + "\t"@ + listing
}

/// `line` is a line for what was read at an address: for bytes, a line with
/// a listing of them, and else the word that nothing was read.
pub open spec fn is_static_line(line: Seq<char>, bytes: Option<Vec<u8>>, addr: u64) -> bool {
    match bytes {
        Some(b) => exists|l: Seq<char>| is_listing(l, b@) && line == #[trigger] static_text(addr, l),
        None => line == invalid_address(addr),
    }
}

/// Lists the code that was read at an address.  Where nothing could be read,
/// the line says so.
pub fn disas_static(bytes: &Option<Vec<u8>>, addr: u64, arch: Arch, num_insts: usize) -> (line:
    Option<String>)
    ensures
        bytes is None ==> line is Some,
        bytes is Some && dialect_of(arch) is None ==> line is None,
        line matches Some(l) ==> is_static_line(l@, *bytes, addr),
{
    match bytes {
        Some(b) => {
            match disas(b, arch, num_insts) {
                Some(text) => {
                    let mut line = hex(addr, 8);
                    line.append("\t");
                    line.append(text.as_str());
                    assert(line@ == static_text(addr, text@));
                    Some(line)
                },
                None => None,
            }
        },
        None => {
            let mut line = String::new();
            line.append("[INVALID ADDRESS: ");
            line.append(hex(addr, 8).as_str());
            line.append("]");
            Some(line)
        },
    }
}

/// A visit as text: the line of its instruction, and the registers in
/// hexadecimal.
pub open spec fn visit_text(vrec: VisitRecord, line: Seq<char>) -> Seq<char> {
    line + "    [REGS: "@ + hex_words(vrec.registers@, 1) + "]"@
}

/// `text` is a visit written with a line for what was read at its address.
pub open spec fn is_visit_line(text: Seq<char>, vrec: VisitRecord, bytes: Option<Vec<u8>>) -> bool {
    exists|line: Seq<char>|
        is_static_line(line, bytes, vrec.pc) && text == #[trigger] visit_text(vrec, line)
}

/// Writes a visit, given the line of its instruction.
pub fn visit_line(vrec: &VisitRecord, line: &str) -> (s: String)
    ensures
        s@ == visit_text(*vrec, line@),
{
    let mut s = String::new();
    s.append(line);
    s.append("    [REGS: ");
    s.append(hex_list(&vrec.registers, 1).as_str());
    s.append("]");
    s
}

/// A write as text: where it was made, where it went and what it wrote, as
/// machine words, and a listing of the bytes written.
pub open spec fn write_text(wrec: WriteRecord, arch: Arch, listing: Seq<char>) -> Seq<char> {
    let width = word_digits(arch) as nat;
    zero_padded(hex_digits(wrec.pc as nat), width) + ": "@ + zero_padded(
        hex_digits(wrec.dest_addr as nat),
        width,
    ) + " -> "@ + zero_padded(hex_digits(wrec.value as nat), width) + " | "@ + listing
}

/// `text` is a write written with a listing of its bytes.
pub open spec fn is_write_line(text: Seq<char>, wrec: WriteRecord, arch: Arch) -> bool {
    exists|l: Seq<char>|
        is_listing(l, written_bytes(wrec)) && text == #[trigger] write_text(wrec, arch, l)
}

/// Writes a write, given the listing of its bytes.
pub fn write_line(wrec: &WriteRecord, arch: Arch, listing: &str) -> (s: String)
    ensures
        s@ == write_text(*wrec, arch, listing@),
{
    let mut s = wf(wrec.pc, arch);
    s.append(": ");
    s.append(wf(wrec.dest_addr, arch).as_str());
    s.append(" -> ");
    s.append(wf(wrec.value, arch).as_str());
    s.append(" | ");
    s.append(listing);
    s
}

/// The bytes that a write put into memory: the low `size` bytes of its value.
pub open spec fn written_bytes(wrec: WriteRecord) -> Seq<u8> {
    le_bytes64(wrec.value).take(wrec.size as int)
}

/// Nothing was read at any of the visits, so that no visit needs a
/// disassembler.
pub open spec fn nothing_read(code: Seq<Option<Vec<u8>>>) -> bool {
    forall|i: int| 0 <= i < code.len() ==> (#[trigger] code[i]) is None
}

/// Bytes were read at a visit that was made in a mode that cannot be
/// disassembled.
pub open spec fn beyond_listing(visited: Seq<VisitRecord>, arch: Arch, code: Seq<Option<Vec<u8>>>) -> bool {
    exists|i: int|
        0 <= i < visited.len() && (#[trigger] code[i]) is Some && dialect_of(
            arch.spec_with_mode(visited[i].mode),
        ) is None
}

impl Pod {
    /// One line for each instruction that ran, given the bytes that were read
    /// at each of them.  A visit at which nothing was read needs no
    /// disassembler, so there are lines where nothing was read at all.  There
    /// are no lines where bytes were read at a visit in a mode that cannot be
    /// disassembled.
    pub fn disas_visited(&self, arch: Arch, code: &Vec<Option<Vec<u8>>>) -> (lines: Option<
        Vec<String>,
    >)
        requires
            code@.len() == self.visited@.len(),
        ensures
            lines matches Some(v) ==> v@.len() == self.visited@.len() && forall|i: int|
                0 <= i < v@.len() ==> is_visit_line((#[trigger] v@[i])@, self.visited@[i], code@[i]),
            nothing_read(code@) ==> lines is Some,
            beyond_listing(self.visited@, arch, code@) ==> lines is None,
    {
        let mut v: Vec<String> = Vec::new();
        let mut i: usize = 0;
        while i < self.visited.len()
            invariant
                i <= self.visited@.len(),
                code@.len() == self.visited@.len(),
                v@.len() == i,
                forall|k: int|
                    0 <= k < i ==> is_visit_line((#[trigger] v@[k])@, self.visited@[k], code@[k]),
                forall|k: int|
                    0 <= k < i ==> !((#[trigger] code@[k]) is Some && dialect_of(
                        arch.spec_with_mode(self.visited@[k].mode),
                    ) is None),
            decreases self.visited@.len() - i,
        {
            let vrec = &self.visited[i];
            match disas_static(&code[i], vrec.pc, arch.with_mode(vrec.mode), 1) {
                Some(line) => {
                    let text = visit_line(vrec, line.as_str());
                    assert(is_visit_line(text@, self.visited@[i as int], code@[i as int]));
                    v.push(text);
                },
                None => {
                    return None;
                },
            }
            i += 1;
        }
        Some(v)
    }

    /// One line for each write that was kept.  A pod that wrote nothing has
    /// no lines, and needs no disassembler for that.  There are no lines for
    /// writes on an architecture that cannot be disassembled.
    pub fn dump_written(&self, arch: Arch) -> (lines: Option<Vec<String>>)
        requires
            forall|i: int| 0 <= i < self.writelog@.len() ==> (#[trigger] self.writelog@[i]).size <= 8,
        ensures
            lines matches Some(v) ==> v@.len() == self.writelog@.len() && forall|i: int|
                0 <= i < v@.len() ==> is_write_line((#[trigger] v@[i])@, self.writelog@[i], arch),
            self.writelog@.len() == 0 ==> lines is Some,
            dialect_of(arch) is None && self.writelog@.len() > 0 ==> lines is None,
    {
        let mut v: Vec<String> = Vec::new();
        let mut i: usize = 0;
        while i < self.writelog.len()
            invariant
                i <= self.writelog@.len(),
                forall|k: int|
                    0 <= k < self.writelog@.len() ==> (#[trigger] self.writelog@[k]).size <= 8,
                v@.len() == i,
                forall|k: int|
                    0 <= k < i ==> is_write_line((#[trigger] v@[k])@, self.writelog@[k], arch),
                i > 0 ==> dialect_of(arch) is Some,
            decreases self.writelog@.len() - i,
        {
            let wrec = self.writelog[i];
            let mut bytes = pack_word64le(wrec.value);
            bytes.truncate(wrec.size);
            match disas(&bytes, arch, wrec.size) {
                Some(text) => {
                    let line = write_line(&wrec, arch, text.as_str());
                    proof {
                        assert(bytes@ =~= written_bytes(wrec));
                        assert(is_write_line(line@, self.writelog@[i as int], arch));
                    }
                    v.push(line);
                },
                None => {
                    return None;
                },
            }
            i += 1;
        }
        Some(v)
    }
}

/// The head of a creature's visits on one input.
pub open spec fn visited_text(input: Seq<u64>, lines: Seq<Seq<char>>, rets: Seq<u64>, width: nat) -> Seq<
    char,
> {
    "ON INPUT "@ + decimal_list(input) + ", VISITED:\n\t"@ + joined_all(lines, "\n\t"@)
        + "\nRETS: "@ + hex_words(rets, width)
}

/// The head of a creature's writes on one input.
pub open spec fn wrote_text(input: Seq<u64>, lines: Seq<Seq<char>>) -> Seq<char> {
    "ON INPUT "@ + decimal_list(input) + ", WROTE:\n\t"@ + joined_all(lines, "\n\t"@)
}

/// Writes what a chain visited on one input, given the lines of its pod.
pub fn visited_report(input: &Vec<u64>, lines: &Vec<String>, rets: &Vec<u64>, arch: Arch) -> (s: String)
    ensures
        s@ == visited_text(input@, texts(lines@), rets@, word_digits(arch) as nat),
{
    let width = match arch {
        Arch::X86(Mode::Bits64) => 16,
        Arch::X86(Mode::Bits16) => 4,
        _ => 8,
    };
    let mut s = String::new();
    s.append("ON INPUT ");
    s.append(debug_list(input).as_str());
    s.append(", VISITED:\n\t");
    s.append(join(lines, "\n\t").as_str());
    s.append("\nRETS: ");
    s.append(hex_list(rets, width).as_str());
    s
}

/// Writes what a chain wrote on one input, given the lines of its pod.
pub fn wrote_report(input: &Vec<u64>, lines: &Vec<String>) -> (s: String)
    ensures
        s@ == wrote_text(input@, texts(lines@)),
{
    let mut s = String::new();
    s.append("ON INPUT ");
    s.append(debug_list(input).as_str());
    s.append(", WROTE:\n\t");
    s.append(join(lines, "\n\t").as_str());
    s
}

/// The cases among the first `n` that hold a pod, in order.
pub open spec fn hatched_upto(cases: Seq<Case>, n: int) -> Seq<Case>
    decreases n,
{
    if n <= 0 {
        Seq::empty()
    } else if cases[n - 1].pod is Some {
        hatched_upto(cases, n - 1).push(cases[n - 1])
    } else {
        hatched_upto(cases, n - 1)
    }
}

/// The places among the first `n` of the cases that hold a pod, in order.
pub open spec fn hatched_places(cases: Seq<Case>, n: int) -> Seq<int>
    decreases n,
{
    if n <= 0 {
        Seq::empty()
    } else if cases[n - 1].pod is Some {
        hatched_places(cases, n - 1).push(n - 1)
    } else {
        hatched_places(cases, n - 1)
    }
}

/// The cases of a creature that hold a pod, in order.
pub open spec fn hatched_cases(c: Creature) -> Seq<Case> {
    hatched_upto(c.phenome.cases@, c.phenome.cases@.len() as int)
}

/// `text` reports what the chain wrote on a case: the head with the input,
/// and one line for each write that was kept.
pub open spec fn is_wrote_report(text: Seq<char>, case: Case, arch: Arch) -> bool {
    exists|lines: Seq<String>|
        {
            &&& lines.len() == case.pod->0.writelog@.len()
            &&& forall|i: int|
                0 <= i < lines.len() ==> is_write_line(
                    (#[trigger] lines[i])@,
                    case.pod->0.writelog@[i],
                    arch,
                )
            &&& text == #[trigger] wrote_text(case.input@, texts(lines))
        }
}

/// `text` reports what the chain visited on a case, given the bytes read at
/// each visit: the head with the input, one line for each visit, and the
/// return instructions that ran.
pub open spec fn is_visited_report(
    text: Seq<char>,
    case: Case,
    arch: Arch,
    code: Seq<Option<Vec<u8>>>,
) -> bool {
    exists|lines: Seq<String>|
        {
            &&& lines.len() == case.pod->0.visited@.len()
            &&& forall|i: int|
                0 <= i < lines.len() ==> is_visit_line(
                    (#[trigger] lines[i])@,
                    case.pod->0.visited@[i],
                    code[i],
                )
            &&& text == #[trigger] visited_text(
                case.input@,
                texts(lines),
                case.pod->0.retlog@,
                word_digits(arch) as nat,
            )
        }
}

/// The writes of every pod of the creature are at most a word long.
pub open spec fn writes_fit(c: Creature) -> bool {
    forall|i: int, j: int|
        0 <= i < c.phenome.cases@.len() && c.phenome.cases@[i].pod is Some && 0 <= j
            < c.phenome.cases@[i].pod->0.writelog@.len() ==> (
        #[trigger] c.phenome.cases@[i].pod->0.writelog@[j]).size <= 8
}

/// No pod among the first `n` cases kept a write.
pub open spec fn nothing_written(cases: Seq<Case>, n: int) -> bool {
    forall|i: int|
        0 <= i < n && i < cases.len() && (#[trigger] cases[i]).pod is Some
            ==> cases[i].pod->0.writelog@.len() == 0
}

/// For no pod among the first `n` cases was anything read at a visit.
pub open spec fn nothing_read_of(cases: Seq<Case>, code: Seq<Vec<Option<Vec<u8>>>>, n: int) -> bool {
    forall|i: int|
        0 <= i < n && i < cases.len() && (#[trigger] cases[i]).pod is Some ==> nothing_read(
            code[i]@,
        )
}

/// For a pod among the first `n` cases, bytes were read at a visit that was
/// made in a mode that cannot be disassembled.
pub open spec fn beyond_listing_of(
    cases: Seq<Case>,
    arch: Arch,
    code: Seq<Vec<Option<Vec<u8>>>>,
    n: int,
) -> bool {
    exists|i: int|
        0 <= i < n && i < cases.len() && (#[trigger] cases[i]).pod is Some && beyond_listing(
            cases[i].pod->0.visited@,
            arch,
            code[i]@,
        )
}

impl Creature {
    /// One report for each problem that the chain ran on: what it wrote
    /// there.  A creature none of whose pods kept a write has its reports
    /// without a disassembler.  There are no reports where a pod kept a
    /// write on an architecture that cannot be disassembled.
    pub fn dump_written(&self, arch: Arch) -> (dump: Option<Vec<String>>)
        requires
            writes_fit(*self),
        ensures
            dump matches Some(v) ==> v@.len() == hatched_cases(*self).len() && forall|k: int|
                0 <= k < v@.len() ==> is_wrote_report(
                    (#[trigger] v@[k])@,
                    hatched_cases(*self)[k],
                    arch,
                ),
            nothing_written(self.phenome.cases@, self.phenome.cases@.len() as int) ==> dump
                is Some,
            dialect_of(arch) is None && !nothing_written(
                self.phenome.cases@,
                self.phenome.cases@.len() as int,
            ) ==> dump is None,
    {
        let mut dump: Vec<String> = Vec::new();
        let mut i: usize = 0;
        while i < self.phenome.cases.len()
            invariant
                i <= self.phenome.cases@.len(),
                writes_fit(*self),
                dump@.len() == hatched_upto(self.phenome.cases@, i as int).len(),
                forall|k: int|
                    0 <= k < dump@.len() ==> is_wrote_report(
                        (#[trigger] dump@[k])@,
                        hatched_upto(self.phenome.cases@, i as int)[k],
                        arch,
                    ),
                dialect_of(arch) is None ==> nothing_written(self.phenome.cases@, i as int),
            decreases self.phenome.cases@.len() - i,
        {
            let case = &self.phenome.cases[i];
            match &case.pod {
                Some(pod) => {
                    assert forall|j: int| 0 <= j < pod.writelog@.len() implies (
                    #[trigger] pod.writelog@[j]).size <= 8 by {
                        assert(self.phenome.cases@[i as int].pod->0.writelog@[j].size <= 8);
                    }
                    match pod.dump_written(arch) {
                        Some(lines) => {
                            let report = wrote_report(&case.input, &lines);
                            assert(is_wrote_report(report@, *case, arch)) by {
                                assert(report@ == wrote_text(case.input@, texts(lines@)));
                            }
                            dump.push(report);
                        },
                        None => {
                            return None;
                        },
                    }
                },
                None => {},
            }
            i += 1;
        }
        Some(dump)
    }

    /// One report for each problem that the chain ran on: what it visited
    /// there, given, for each case, the bytes read at each visit of its pod.
    /// Where nothing was read at any visit, the reports are had without a
    /// disassembler.  There are no reports where bytes were read at a visit
    /// in a mode that cannot be disassembled.
    pub fn disas_visited(&self, arch: Arch, code: &Vec<Vec<Option<Vec<u8>>>>) -> (dump: Option<
        Vec<String>,
    >)
        requires
            code@.len() == self.phenome.cases@.len(),
            forall|i: int|
                0 <= i < self.phenome.cases@.len() && (#[trigger] self.phenome.cases@[i]).pod
                    is Some ==> code@[i]@.len() == self.phenome.cases@[i].pod->0.visited@.len(),
        ensures
            dump matches Some(v) ==> {
                let places = hatched_places(
                    self.phenome.cases@,
                    self.phenome.cases@.len() as int,
                );
                &&& v@.len() == places.len()
                &&& forall|k: int|
                    0 <= k < v@.len() ==> is_visited_report(
                        (#[trigger] v@[k])@,
                        self.phenome.cases@[places[k]],
                        arch,
                        code@[places[k]]@,
                    )
            },
            nothing_read_of(self.phenome.cases@, code@, self.phenome.cases@.len() as int)
                ==> dump is Some,
            beyond_listing_of(self.phenome.cases@, arch, code@, self.phenome.cases@.len() as int)
                ==> dump is None,
    {
        let mut dump: Vec<String> = Vec::new();
        let mut i: usize = 0;
        while i < self.phenome.cases.len()
            invariant
                i <= self.phenome.cases@.len(),
                code@.len() == self.phenome.cases@.len(),
                forall|i: int|
                    0 <= i < self.phenome.cases@.len() && (#[trigger] self.phenome.cases@[i]).pod
                        is Some ==> code@[i]@.len() == self.phenome.cases@[i].pod->0.visited@.len(),
                dump@.len() == hatched_places(self.phenome.cases@, i as int).len(),
                forall|k: int|
                    0 <= k < dump@.len() ==> is_visited_report(
                        (#[trigger] dump@[k])@,
                        self.phenome.cases@[hatched_places(self.phenome.cases@, i as int)[k]],
                        arch,
                        code@[hatched_places(self.phenome.cases@, i as int)[k]]@,
                    ),
                !beyond_listing_of(self.phenome.cases@, arch, code@, i as int),
            decreases self.phenome.cases@.len() - i,
        {
            let case = &self.phenome.cases[i];
            match &case.pod {
                Some(pod) => {
                    match pod.disas_visited(arch, &code[i]) {
                        Some(lines) => {
                            let report = visited_report(&case.input, &lines, &pod.retlog, arch);
                            assert(is_visited_report(report@, *case, arch, code@[i as int]@)) by {
                                assert(report@ == visited_text(
                                    case.input@,
                                    texts(lines@),
                                    pod.retlog@,
                                    word_digits(arch) as nat,
                                ));
                            }
                            dump.push(report);
                        },
                        None => {
                            return None;
                        },
                    }
                },
                None => {},
            }
            i += 1;
        }
        Some(dump)
    }
}

} // verus!
