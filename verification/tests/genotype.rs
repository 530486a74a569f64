use rand::SeedableRng;
use rand_isaac::isaac64::Isaac64Rng;
use roper::genotype::{chain_length, gadget_at, input_slot, Allele, Chain, Gadget};
use roper::params::Config;
use roper::target::{align_inst_addr, exec_segs, find_seg, Arch, Mode, Seg};

fn gadget(entry: u64) -> Gadget {
    Gadget { ret_addr: 0, entry, sp_delta: 0, mode: Mode::Arm }
}

fn chain(alleles: Vec<Allele>) -> Chain {
    Chain { alleles, xbits: 0, generation: 0 }
}

fn image() -> Vec<Seg> {
    vec![
        Seg { addr: 0x1000, memsz: 0x100, executable: true },
        Seg { addr: 0x8000, memsz: 0x400, executable: false },
        Seg { addr: 0x2000, memsz: 0, executable: true },
    ]
}

#[test]
fn allele_entry_is_the_gadget_entry() {
    assert_eq!(Allele::Gadget(gadget(0x1234)).entry(), Some(0x1234));
    assert_eq!(Allele::Input(3).entry(), None);
}

#[test]
fn input_slot_moves_round_the_sixteen_slots() {
    let img = image();
    assert_eq!(Allele::Input(3).add(5, &img), Allele::Input(8));
    assert_eq!(Allele::Input(15).add(1, &img), Allele::Input(0));
    assert_eq!(Allele::Input(0).add(-1, &img), Allele::Input(15));
    assert_eq!(Allele::Input(2).add(-15, &img), Allele::Input(3));
    assert_eq!(Allele::Input(7).add(0, &img), Allele::Input(7));
    assert_eq!(Allele::Input(7).add(isize::MIN, &img), Allele::Input(7));
}

#[test]
fn gadget_moves_round_its_segment() {
    let img = image();
    assert_eq!(gadget(0x1010).add(4, &img).entry, 0x1014);
    assert_eq!(gadget(0x10FF).add(1, &img).entry, 0x1000);
    assert_eq!(gadget(0x1000).add(-1, &img).entry, 0x10FF);
    assert_eq!(gadget(0x1010).add(0x100, &img).entry, 0x1010);
    assert_eq!(gadget(0x1010).add(-0x101, &img).entry, 0x100F);
    let moved = gadget(0x1010).add(7, &img);
    assert_eq!(moved.mode, Mode::Arm);
    assert_eq!(moved.ret_addr, 0);
    assert_eq!(moved.sp_delta, 0);
}

#[test]
fn gadget_outside_every_segment_stays() {
    let img = image();
    assert_eq!(gadget(0x5000).add(9, &img), gadget(0x5000));
    assert_eq!(gadget(0x2000).add(9, &img), gadget(0x2000));
}

#[test]
fn find_seg_takes_the_first_segment_that_holds_the_address() {
    let img = image();
    assert_eq!(find_seg(&img, 0x1000), Some(img[0]));
    assert_eq!(find_seg(&img, 0x10FF), Some(img[0]));
    assert_eq!(find_seg(&img, 0x1100), None);
    assert_eq!(find_seg(&img, 0x83FF), Some(img[1]));
    assert_eq!(find_seg(&img, 0x2000), None);
}

#[test]
fn exec_segs_keeps_the_usable_segments() {
    let img = image();
    assert_eq!(exec_segs(&img), vec![img[0]]);
}

#[test]
fn addresses_are_aligned_down() {
    assert_eq!(align_inst_addr(0x1003, Mode::Arm), 0x1000);
    assert_eq!(align_inst_addr(0x1003, Mode::Be), 0x1000);
    assert_eq!(align_inst_addr(0x1003, Mode::Thumb), 0x1002);
    assert_eq!(align_inst_addr(0x1003, Mode::Bits64), 0x1003);
}

#[test]
fn chain_entry_is_the_first_gadget() {
    let c = chain(vec![Allele::Input(1), Allele::Gadget(gadget(0x10)), Allele::Gadget(gadget(0x20))]);
    assert_eq!(c.entry(), Some(0x10));
    assert_eq!(chain(vec![Allele::Input(1)]).entry(), None);
    assert_eq!(chain(vec![]).entry(), None);
    assert_eq!(c.len(), 3);
    assert!(!c.is_empty());
    assert!(chain(vec![]).is_empty());
}

#[test]
fn pack_starts_at_the_first_gadget() {
    let c = chain(vec![
        Allele::Input(0),
        Allele::Gadget(gadget(0x1122_3344)),
        Allele::Input(1),
        Allele::Input(5),
    ]);
    let arm = Arch::Arm(Mode::Arm);
    assert_eq!(
        c.pack(&[0xAA, 0xBB, 0xCC], arm),
        vec![0x44, 0x33, 0x22, 0x11, 0xBB, 0, 0, 0, 0xCC, 0, 0, 0]
    );
    assert_eq!(
        c.pack(&[], arm),
        vec![0x44, 0x33, 0x22, 0x11, 0, 0, 0, 0, 0, 0, 0, 0]
    );
    assert_eq!(chain(vec![Allele::Input(2)]).pack(&[7], arm), Vec::<u8>::new());
}

#[test]
fn pack_follows_the_architecture() {
    let c = chain(vec![Allele::Gadget(gadget(0x0102_0304))]);
    assert_eq!(c.pack(&[], Arch::Mips(Mode::Be)), vec![1, 2, 3, 4]);
    assert_eq!(c.pack(&[], Arch::Mips(Mode::Le)), vec![4, 3, 2, 1]);
    assert_eq!(
        c.pack(&[], Arch::X86(Mode::Bits64)),
        vec![4, 3, 2, 1, 0, 0, 0, 0]
    );
}

#[test]
fn pack_round_trip_of_gadget_chains() {
    let entries: Vec<u64> = vec![0x1000, 0xDEAD_BEEF, 0, 0x7FFF_FFFF];
    let c = chain(entries.iter().map(|e| Allele::Gadget(gadget(*e))).collect());
    for arch in [Arch::Arm(Mode::Arm), Arch::X86(Mode::Bits64)] {
        let width = arch.addr_width();
        let p = c.pack(&[], arch);
        assert_eq!(p.len(), entries.len() * width);
        for (i, e) in entries.iter().enumerate() {
            let mut word: u64 = 0;
            for k in 0..width {
                word |= (p[i * width + k] as u64) << (8 * k);
            }
            assert_eq!(word, *e);
        }
    }
}

#[test]
fn seeded_pieces_follow_their_draws() {
    assert_eq!(chain_length(13, 4, 8), 5);
    assert_eq!(chain_length(13, 2, 2), 2);
    assert_eq!(chain_length(u64::MAX, 4, 5), 4);
    assert_eq!(input_slot(0x123), Allele::Input(3));
    let seg = Seg { addr: 0x1000, memsz: 0x100, executable: true };
    let g = gadget_at(&seg, 0x207, Mode::Arm);
    assert_eq!(g, Gadget { ret_addr: 0, entry: 0x1004, sp_delta: 0, mode: Mode::Arm });
    assert_eq!(gadget_at(&seg, 0x207, Mode::Thumb).entry, 0x1006);
}

#[test]
fn seeded_chains_start_with_a_gadget_in_an_executable_segment() {
    let img = image();
    let mut config = Config::new([7u8; 32], Arch::Arm(Mode::Arm));
    config.input_slot_freq = 0x0080_0000;
    let mut rng = Isaac64Rng::from_seed([7u8; 32]);
    let mut inputs = 0;
    for _ in 0..200 {
        let c = Chain::from_seed(&mut rng, (4, 8), &config, &img);
        assert!(c.len() >= 4 && c.len() < 8);
        assert_eq!(c.generation, 0);
        assert!(matches!(c.alleles[0], Allele::Gadget(_)));
        for a in c.alleles.iter() {
            match a {
                Allele::Input(k) => {
                    assert!(*k < 16);
                    inputs += 1;
                }
                Allele::Gadget(g) => {
                    assert!(g.entry >= 0x1000 && g.entry < 0x1100);
                    assert_eq!(g.entry % 4, 0);
                    assert_eq!(g.mode, Mode::Arm);
                }
            }
        }
    }
    assert!(inputs > 0);
}

#[test]
fn seeded_chains_without_executable_segment_hold_input_slots_only() {
    let img = vec![Seg { addr: 0x8000, memsz: 0x400, executable: false }];
    let config = Config::new([1u8; 32], Arch::Arm(Mode::Arm));
    let mut rng = Isaac64Rng::from_seed([1u8; 32]);
    let c = Chain::from_seed(&mut rng, (1, 1), &config, &img);
    assert_eq!(c.len(), 1);
    assert!(matches!(c.alleles[0], Allele::Input(_)));
    assert_eq!(c.entry(), None);
}

#[test]
fn the_input_slot_rate_decides_at_its_ends() {
    let img = image();
    let mut rng = Isaac64Rng::from_seed([3u8; 32]);
    let mut never = Config::new([3u8; 32], Arch::Arm(Mode::Arm));
    never.input_slot_freq = 0;
    let mut always = Config::new([3u8; 32], Arch::Arm(Mode::Arm));
    always.input_slot_freq = 0x0100_0000;
    for _ in 0..100 {
        let g = Chain::from_seed(&mut rng, (3, 9), &never, &img);
        assert!(g.alleles.iter().all(|a| matches!(a, Allele::Gadget(_))));
        let s = Chain::from_seed(&mut rng, (3, 9), &always, &img);
        assert!(matches!(s.alleles[0], Allele::Gadget(_)));
        assert!(s.alleles[1..].iter().all(|a| matches!(a, Allele::Input(_))));
    }
}
