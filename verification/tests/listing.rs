use roper::creature::Creature;
use roper::describe::bits;
use roper::disas::{
    disas, disas_static, disas_with, listing, read_len, visit_line, visited_report, write_line,
    wrote_report, x86_disassembler, InsnText,
};
use roper::genotype::{Allele, Chain, Gadget};
use roper::phenotype::{Pod, VisitRecord, WriteRecord};
use roper::settings::mkseed;
use roper::target::{Arch, Mode};
use roper::text::{debug_list, decimal, hex_list, join};

const X64: Arch = Arch::X86(Mode::Bits64);
const ARM: Arch = Arch::Arm(Mode::Arm);

fn insn(mnemonic: Option<&str>, op_str: Option<&str>) -> InsnText {
    InsnText { mnemonic: mnemonic.map(|s| s.to_string()), op_str: op_str.map(|s| s.to_string()) }
}

fn gadget(entry: u64) -> Gadget {
    Gadget { ret_addr: 0x20, entry, sp_delta: 0x1f, mode: Mode::Thumb }
}

#[test]
fn lists_are_written_with_separators() {
    assert_eq!(join(&vec![], ", "), "");
    assert_eq!(join(&vec!["a".to_string()], ", "), "a");
    assert_eq!(join(&vec!["a".to_string(), "b".to_string(), "".to_string()], ", "), "a, b, ");
    assert_eq!(decimal(0), "0");
    assert_eq!(decimal(1234567890), "1234567890");
    assert_eq!(decimal(u64::MAX), "18446744073709551615");
    assert_eq!(debug_list(&vec![]), "[]");
    assert_eq!(debug_list(&vec![1, 20, 300]), format!("{:?}", vec![1u64, 20, 300]));
    assert_eq!(hex_list(&vec![1, 0xab, 0x100], 2), "01 ab 100");
    assert_eq!(hex_list(&vec![], 2), "");
}

#[test]
fn a_listing_names_each_instruction() {
    let found = Some(vec![insn(Some("mov"), Some("r0, r1")), insn(None, Some("x")), insn(Some("ret"), None)]);
    assert_eq!(listing(&found, &vec![1, 2]), "mov r0, r1; ?? x; ret ??");
    assert_eq!(listing(&Some(vec![]), &vec![1, 2]), "");
    assert_eq!(listing(&None, &vec![1, 0xAB, 0]), "01 ab 00");
    assert_eq!(listing(&None, &vec![]), "");
}

#[test]
fn machine_code_is_disassembled() {
    assert_eq!(disas(&vec![0x90, 0xC3], X64, 2), Some("nop ; ret ".to_string()));
    assert_eq!(disas(&vec![0x90, 0xC3], X64, 1), Some("nop ".to_string()));
    assert_eq!(disas(&vec![0x48, 0x89, 0xD8], X64, 1), Some("mov rax, rbx".to_string()));
    assert_eq!(disas(&vec![0x1E, 0xFF, 0x2F, 0xE1], ARM, 1), Some("bx lr".to_string()));
    assert_eq!(disas(&vec![0x70, 0x47], Arch::Arm(Mode::Thumb), 1), Some("bx lr".to_string()));
    assert_eq!(disas(&vec![0x90], X64, 0), Some("90".to_string()));
    assert_eq!(disas(&vec![0x90], Arch::Mips(Mode::Be), 1), None);
    assert_eq!(disas(&vec![0x90], Arch::X86(Mode::Bits32), 1), None);
}

#[test]
fn code_at_an_address_is_listed_behind_the_address() {
    assert_eq!(disas_static(&Some(vec![0x90]), 0x1000, X64, 1), Some("00001000\tnop ".to_string()));
    assert_eq!(disas_static(&None, 0x1000, X64, 1), Some("[INVALID ADDRESS: 00001000]".to_string()));
    assert_eq!(disas_static(&None, 0x1000, Arch::Mips(Mode::Be), 1), Some("[INVALID ADDRESS: 00001000]".to_string()));
    assert_eq!(disas_static(&Some(vec![0x90]), 0x1000, Arch::Mips(Mode::Be), 1), None);
    assert_eq!(read_len(0), 15);
    assert_eq!(read_len(4), 4);
}

#[test]
fn visits_and_writes_are_written_as_lines() {
    let v = VisitRecord { pc: 0x1000, mode: Mode::Arm, inst_size: 4, registers: vec![0, 0xff, 0x1234] };
    assert_eq!(visit_line(&v, "00001000\tbx lr"), "00001000\tbx lr    [REGS: 0 ff 1234]");
    let w = WriteRecord { pc: 0x1000, dest_addr: 0x2000, value: 0xC390, size: 2 };
    assert_eq!(write_line(&w, ARM, "nop"), "00001000: 00002000 -> 0000c390 | nop");
    assert_eq!(
        write_line(&w, X64, "nop"),
        "0000000000001000: 0000000000002000 -> 000000000000c390 | nop"
    );
    assert_eq!(
        visited_report(&vec![1, 2], &vec!["a".to_string(), "b".to_string()], &vec![0x10, 0x20], ARM),
        "ON INPUT [1, 2], VISITED:\n\ta\n\tb\nRETS: 00000010 00000020"
    );
    assert_eq!(wrote_report(&vec![7], &vec!["x".to_string()]), "ON INPUT [7], WROTE:\n\tx");
}

#[test]
fn a_pod_is_dumped_line_by_line() {
    let pod = Pod::new(
        vec![],
        vec![
            VisitRecord { pc: 0x1000, mode: Mode::Bits64, inst_size: 1, registers: vec![1] },
            VisitRecord { pc: 0x1001, mode: Mode::Bits64, inst_size: 1, registers: vec![2] },
        ],
        vec![WriteRecord { pc: 0x1000, dest_addr: 0x2000, value: 0xC390, size: 2 }],
        vec![0x1001],
    );
    assert_eq!(
        pod.disas_visited(X64, &vec![Some(vec![0x90]), None]),
        Some(vec![
            "00001000\tnop     [REGS: 1]".to_string(),
            "[INVALID ADDRESS: 00001001]    [REGS: 2]".to_string(),
        ])
    );
    assert_eq!(
        pod.dump_written(X64),
        Some(vec!["0000000000001000: 0000000000002000 -> 000000000000c390 | nop ; ret ".to_string()])
    );
    assert_eq!(pod.dump_written(Arch::Mips(Mode::Le)), None);
    let mut c = Creature::new(
        Chain { alleles: vec![Allele::Gadget(gadget(0x1000))], xbits: 5, generation: 2 },
        0,
        X64,
    );
    c.pose_problem(&vec![9]);
    c.pose_problem(&vec![8]);
    c.phenome.insert(vec![8], Some(pod));
    assert_eq!(
        c.dump_written(X64),
        Some(vec![
            "ON INPUT [8], WROTE:\n\t0000000000001000: 0000000000002000 -> 000000000000c390 | nop ; ret ".to_string()
        ])
    );
    assert_eq!(
        c.disas_visited(X64, &vec![vec![], vec![Some(vec![0xC3]), None]]),
        Some(vec![
            "ON INPUT [8], VISITED:\n\t00001000\tret     [REGS: 1]\n\t[INVALID ADDRESS: 00001001]    [REGS: 2]\nRETS: 0000000000001001".to_string()
        ])
    );
}

#[test]
fn genomes_are_described() {
    assert_eq!(
        gadget(0x1000).describe(ARM),
        "[Entry: 00001000, Ret: 00000020, SpD: 1f, Mode: Thumb]"
    );
    assert_eq!(Allele::Input(12).describe(ARM), "[Input Slot #12]");
    assert_eq!(Allele::Gadget(gadget(1)).describe(ARM), gadget(1).describe(ARM));
    assert_eq!(bits(5), format!("{:064b}", 5u64));
    assert_eq!(bits(u64::MAX), format!("{:064b}", u64::MAX));
    assert_eq!(bits(0x8000_0000_0000_0000), format!("{:064b}", 0x8000_0000_0000_0000u64));
    let chain = Chain { alleles: vec![Allele::Input(3), Allele::Gadget(gadget(0x1000))], xbits: 5, generation: 42 };
    assert_eq!(
        chain.describe(ARM),
        format!(
            "\t[Input Slot #3]\n\t[Entry: 00001000, Ret: 00000020, SpD: 1f, Mode: Thumb]\n\tXBITS: {:064b}\n\tGEN: 42\n",
            5u64
        )
    );
    let mut c = Creature::new(chain, 0, ARM);
    let text = c.biography(ARM, &vec!["v1".to_string(), "v2".to_string()], &vec!["w".to_string()]);
    assert_eq!(
        text,
        format!("BIOGRAPHY OF {}\nGENOME:\n{}\nPHENOME:\nv1\t\nv2\nw\nNone", c.name, c.genome.describe(ARM))
    );
    c.fitness = Some(vec![1, 20]);
    assert!(c.biography(ARM, &vec![], &vec![]).ends_with("\nPHENOME:\n\n\nSome([1, 20])"));
}

#[test]
fn a_seed_made_from_a_number_repeats_one_byte() {
    assert_eq!(mkseed(0), [0u8; 32]);
    assert_eq!(mkseed(1), [4u8; 32]);
    assert_eq!(mkseed(0x4000_0000_0000_0041), [5u8; 32]);
    assert_eq!(mkseed(u64::MAX), [0xFFu8; 32]);
}

#[test]
fn a_listing_is_had_exactly_where_a_disassembler_is() {
    assert_eq!(disas_with(&None, &vec![0x90], 1), None);
    assert_eq!(disas_with(&None, &vec![], 0), None);
    let engine = x86_disassembler();
    assert!(engine.is_some());
    assert_eq!(disas_with(&engine, &vec![0x90, 0xC3], 2), Some("nop ; ret ".to_string()));
    assert_eq!(disas_with(&engine, &vec![0x90, 0xC3], 0), Some("90 c3".to_string()));
    assert_eq!(disas_with(&engine, &vec![], 1), Some("".to_string()));
}

#[test]
fn what_needs_no_disassembler_is_reported_on_every_architecture() {
    let mips = Arch::Mips(Mode::Be);
    let silent = Pod::new(
        vec![],
        vec![VisitRecord { pc: 0x40, mode: Mode::Be, inst_size: 4, registers: vec![7] }],
        vec![],
        vec![],
    );
    assert_eq!(silent.dump_written(mips), Some(vec![]));
    assert_eq!(
        silent.disas_visited(mips, &vec![None]),
        Some(vec!["[INVALID ADDRESS: 00000040]    [REGS: 7]".to_string()])
    );
    assert_eq!(silent.disas_visited(mips, &vec![Some(vec![0, 0, 0, 0])]), None);
    let empty = Pod::new(vec![], vec![], vec![], vec![]);
    assert_eq!(empty.disas_visited(mips, &vec![]), Some(vec![]));
    let mut c = Creature::new(
        Chain { alleles: vec![Allele::Gadget(gadget(0x1000))], xbits: 0, generation: 0 },
        0,
        mips,
    );
    c.pose_problem(&vec![1]);
    assert_eq!(c.dump_written(mips), Some(vec![]));
    assert_eq!(c.disas_visited(mips, &vec![vec![]]), Some(vec![]));
    c.phenome.insert(vec![1], Some(silent));
    assert_eq!(c.dump_written(mips), Some(vec!["ON INPUT [1], WROTE:\n\t".to_string()]));
    assert_eq!(
        c.disas_visited(mips, &vec![vec![None]]),
        Some(vec![
            "ON INPUT [1], VISITED:\n\t[INVALID ADDRESS: 00000040]    [REGS: 7]\nRETS: ".to_string()
        ])
    );
    assert_eq!(c.disas_visited(mips, &vec![vec![Some(vec![0, 0, 0, 0])]]), None);
    let wrote = Pod::new(
        vec![],
        vec![],
        vec![WriteRecord { pc: 1, dest_addr: 2, value: 3, size: 4 }],
        vec![],
    );
    assert_eq!(wrote.dump_written(mips), None);
    c.phenome.insert(vec![2], Some(wrote));
    assert_eq!(c.dump_written(mips), None);
}
