use rand::SeedableRng;
use rand_isaac::isaac64::Isaac64Rng;
use roper::creature::Creature;
use roper::crossover::{
    coin, combine, combine_xbits, copy_alleles, cross, flip_bit, homologous_crossover,
    mutate_arithmetic, potential_sites, random_bit_flip, small_step, xbits_sites,
};
use roper::genotype::{Allele, Chain, Gadget};
use roper::params::{chance, scale, share, Config, MaskOp, UNIT};
use roper::target::{Arch, Mode, Seg};

const ARCH: Arch = Arch::Arm(Mode::Arm);

fn gadget(entry: u64) -> Allele {
    Allele::Gadget(Gadget { ret_addr: 0, entry, sp_delta: 0, mode: Mode::Arm })
}

fn creature(alleles: Vec<Allele>, xbits: u64, generation: usize) -> Creature {
    Creature::new(Chain { alleles, xbits, generation }, 0, ARCH)
}

fn image() -> Vec<Seg> {
    vec![Seg { addr: 0x1000, memsz: 0x1000, executable: true }]
}

fn rng(seed: u8) -> Isaac64Rng {
    Isaac64Rng::from_seed([seed; 32])
}

#[test]
fn fixed_point_chance_share_and_scale() {
    assert!(!chance(0, 0));
    assert!(!chance(u32::MAX, 0));
    assert!(chance(u32::MAX, UNIT));
    assert!(chance(0x7FFF_FFFF, 0x0080_0000));
    assert!(!chance(0x8000_0000, 0x0080_0000));
    assert_eq!(share(4, UNIT), 4);
    assert_eq!(share(4, 0x0080_0000), 2);
    assert_eq!(share(5, 0x0080_0000), 3);
    assert_eq!(share(5, 0), 0);
    assert_eq!(share(5, 1), 1);
    assert_eq!(share(5, u32::MAX), 5);
    assert_eq!(scale(4, UNIT as u64), Some(4));
    assert_eq!(scale(32, 0x0180_0000), Some(48));
    assert_eq!(scale(5, 0x0180_0000), Some(7));
    assert_eq!(scale(usize::MAX, 0x0200_0000), None);
}

#[test]
fn masks_are_combined_by_the_operator() {
    let (m, p) = (0b1100u64, 0b1010u64);
    assert_eq!(combine(m, p, MaskOp::Xor, 99, true), 0b0110);
    assert_eq!(combine(m, p, MaskOp::And, 99, true), 0b1000);
    assert_eq!(combine(m, p, MaskOp::Or, 99, true), 0b1110);
    assert_eq!(combine(m, p, MaskOp::Nand, 99, true), !0b1000u64);
    assert_eq!(combine(m, p, MaskOp::Uniform, 0b0101, false), 0b1110);
    assert_eq!(combine(m, p, MaskOp::OnePt, 2, false), 0b1110);
    assert_eq!(combine(m, p, MaskOp::OnePt, 2, true), 0b1000);
    assert_eq!(combine(m, p, MaskOp::OnePt, 64 + 2, true), 0b1000);
    assert_eq!(combine(m, p, MaskOp::OnePt, 0, false), m);
    assert_eq!(combine(m, p, MaskOp::OnePt, 0, true), p);
    assert!(coin(0x8000_0000));
    assert!(!coin(0x7FFF_FFFF));
}

#[test]
fn drawn_masks_take_each_bit_from_a_parent() {
    let mut r = rng(3);
    let (m, p) = (0xFFFF_0000_FFFF_0000u64, 0x0F0F_0F0F_0F0F_0F0Fu64);
    for _ in 0..100 {
        for op in [MaskOp::Uniform, MaskOp::OnePt] {
            let x = combine_xbits(m, p, op, &mut r);
            assert_eq!(x & (m & p), m & p);
            assert_eq!(x & !(m | p), 0);
        }
    }
    assert_eq!(combine_xbits(m, p, MaskOp::Xor, &mut r), m ^ p);
    assert_eq!(combine_xbits(m, p, MaskOp::And, &mut r), m & p);
}

#[test]
fn potential_sites_are_the_bits_of_the_wanted_value() {
    assert_eq!(potential_sites(0b1011, 4, true), vec![0, 1, 3]);
    assert_eq!(potential_sites(0b1011, 4, false), vec![2]);
    assert_eq!(potential_sites(0b1011, 2, true), vec![0, 1]);
    assert_eq!(potential_sites(u64::MAX, 0, true), Vec::<usize>::new());
    assert_eq!(potential_sites(1, 130, true), vec![0, 64, 128]);
}

#[test]
fn chosen_sites_are_a_share_of_the_potential_sites() {
    let mut r = rng(5);
    for _ in 0..50 {
        let sites = xbits_sites(0b1011_0110, 8, 0x0080_0000, true, &mut r);
        assert_eq!(sites.len(), 3);
        for (i, s) in sites.iter().enumerate() {
            assert!([1, 2, 4, 5, 7].contains(s));
            assert!(!sites[..i].contains(s));
        }
    }
    let mut all = xbits_sites(0b1011_0110, 8, UNIT, true, &mut r);
    all.sort();
    assert_eq!(all, vec![1, 2, 4, 5, 7]);
    assert_eq!(xbits_sites(0b1011_0110, 8, 0, true, &mut r), Vec::<usize>::new());
}

#[test]
fn small_steps_lie_within_fifteen() {
    assert_eq!(small_step(0), 0);
    assert_eq!(small_step(17), 1);
    assert_eq!(small_step(u64::MAX), -1);
    assert_eq!(small_step(u64::MAX - 16), -1);
    assert_eq!(small_step(0x8000_0000_0000_0000), 0);
    assert_eq!(small_step(0x7FFF_FFFF_FFFF_FFFF), 15);
    assert_eq!(small_step(0x8000_0000_0000_0001), -15);
}

#[test]
fn mutation_keeps_the_kind_of_allele() {
    let img = image();
    let mut r = rng(9);
    for _ in 0..100 {
        match mutate_arithmetic(&Allele::Input(5), &mut r, &img) {
            Allele::Input(k) => assert!(k < 16),
            _ => panic!("an input slot became a gadget"),
        }
        match mutate_arithmetic(&gadget(0x1800), &mut r, &img) {
            Allele::Gadget(g) => assert!(g.entry > 0x1800 - 16 && g.entry < 0x1800 + 16),
            _ => panic!("a gadget became an input slot"),
        }
    }
}

#[test]
fn bit_flips_change_one_bit_at_most() {
    assert_eq!(flip_bit(0, 3), 8);
    assert_eq!(flip_bit(8, 3), 0);
    assert_eq!(flip_bit(1, 63), 0x8000_0000_0000_0001);
    let mut r = rng(11);
    let mut flipped = 0;
    for _ in 0..200 {
        let x = random_bit_flip(0xF0F0, 0x0080_0000, &mut r);
        assert!((x ^ 0xF0F0u64).count_ones() <= 1);
        if x != 0xF0F0 {
            flipped += 1;
        }
        assert_eq!(random_bit_flip(0xF0F0, 0, &mut r), 0xF0F0);
        assert_eq!((random_bit_flip(0xF0F0, UNIT, &mut r) ^ 0xF0F0).count_ones(), 1);
    }
    assert!(flipped > 0 && flipped < 200);
}

#[test]
fn cross_writes_the_donor_over_the_template_at_the_sites() {
    let img = image();
    let mut r = rng(13);
    let template = vec![gadget(0x1000), gadget(0x1004), gadget(0x1008), Allele::Input(1)];
    let donor = vec![gadget(0x1100), Allele::Input(2), gadget(0x1108), gadget(0x110C)];
    let egg = cross(&template, &donor, &vec![1, 3], 0, &mut r, &img);
    assert_eq!(egg, vec![gadget(0x1000), Allele::Input(2), gadget(0x1008), gadget(0x110C)]);
    assert_eq!(cross(&template, &donor, &vec![], 0, &mut r, &img), template);
    assert_eq!(copy_alleles(&template), template);
    let moved = cross(&template, &donor, &vec![0, 2], UNIT, &mut r, &img);
    assert_eq!(moved.len(), 4);
    assert_eq!(moved[1], template[1]);
    assert_eq!(moved[3], template[3]);
    for i in [0usize, 2] {
        let (from, to) = (donor[i].entry().unwrap() as i64, moved[i].entry().unwrap() as i64);
        assert!((from - to).abs() < 16);
    }
}

#[test]
fn crossover_with_full_masks_exchanges_every_allele() {
    let img = image();
    let mut config = Config::new([0; 32], ARCH);
    config.mask_combiner = MaskOp::And;
    config.crossover_xbit = true;
    config.crossover_degree = UNIT;
    config.pointwise_mutation_rate = 0;
    let g = vec![gadget(0x1000), gadget(0x1004), gadget(0x1008), gadget(0x100C)];
    let h = vec![gadget(0x1100), gadget(0x1104), gadget(0x1108), gadget(0x110C)];
    let m = creature(g.clone(), u64::MAX, 3);
    let f = creature(h.clone(), u64::MAX, 5);
    let mut r = rng(17);
    let offspring = homologous_crossover(&m, &f, &mut r, &config, &img);
    assert_eq!(offspring.len(), 2);
    assert_eq!(offspring[0].genome.alleles, h);
    assert_eq!(offspring[1].genome.alleles, g);
    for o in offspring.iter() {
        assert_eq!(o.genome.generation, 6);
        assert_eq!(o.index, 0);
        assert_eq!(o.fitness, None);
        assert_eq!(o.phenome.len(), 0);
        assert!(!o.has_hatched());
    }
}

#[test]
fn offspring_keep_the_template_off_the_sites() {
    let img = image();
    let config = Config::new([0; 32], ARCH);
    let mut r = rng(19);
    for round in 0..100u64 {
        let m = creature(
            vec![gadget(0x1000), Allele::Input(1), gadget(0x1008), Allele::Input(3), gadget(0x1010)],
            round.wrapping_mul(0x9E37_79B9_7F4A_7C15),
            round as usize,
        );
        let f = creature(
            vec![Allele::Input(4), gadget(0x1104), Allele::Input(6)],
            !round.wrapping_mul(0x1234_5678_9ABC_DEF1),
            7,
        );
        let offspring = homologous_crossover(&m, &f, &mut r, &config, &img);
        assert_eq!(offspring.len(), 2);
        for o in offspring.iter() {
            assert_eq!(o.genome.generation, usize::max(round as usize, 7) + 1);
            assert!(o.genome.entry().is_some());
            let (template, donor) = if o.genome.alleles.len() == 5 {
                (&m.genome.alleles, &f.genome.alleles)
            } else {
                (&f.genome.alleles, &m.genome.alleles)
            };
            assert_eq!(o.genome.alleles.len(), template.len());
            for i in 0..template.len() {
                let a = o.genome.alleles[i];
                if a == template[i] {
                    continue;
                }
                assert!(i < 3);
                match (a, donor[i]) {
                    (Allele::Input(k), Allele::Input(_)) => assert!(k < 16),
                    (Allele::Gadget(x), Allele::Gadget(y)) => {
                        assert!((x.entry as i64 - y.entry as i64).abs() < 16)
                    }
                    _ => panic!("an allele changed its kind"),
                }
            }
        }
    }
}

#[test]
fn a_child_without_a_gadget_is_dropped() {
    let img = image();
    let mut config = Config::new([0; 32], ARCH);
    config.mask_combiner = MaskOp::And;
    config.crossover_degree = UNIT;
    config.pointwise_mutation_rate = 0;
    let m = creature(vec![gadget(0x1000)], u64::MAX, 0);
    let f = creature(vec![Allele::Input(1), gadget(0x1104)], u64::MAX, 0);
    let mut r = rng(23);
    let offspring = homologous_crossover(&m, &f, &mut r, &config, &img);
    assert_eq!(offspring.len(), 2);
    for o in offspring.iter() {
        assert_eq!(o.genome.alleles, vec![gadget(0x1000), gadget(0x1104)]);
    }
}

#[test]
fn the_parents_take_turns_as_the_template() {
    let img = image();
    let config = Config::new([0; 32], ARCH);
    for seed in 0..50u8 {
        let m = creature(
            vec![gadget(0x1000), gadget(0x1004), gadget(0x1008), gadget(0x100C), gadget(0x1010)],
            0x0123_4567_89AB_CDEF ^ seed as u64,
            1,
        );
        let f = creature(vec![gadget(0x1100), gadget(0x1104), gadget(0x1108)], !(seed as u64), 2);
        let offspring = homologous_crossover(&m, &f, &mut rng(seed), &config, &img);
        assert_eq!(offspring[0].genome.alleles.len(), 5);
        assert_eq!(offspring[1].genome.alleles.len(), 3);
    }
    // The cross on the mother cannot run: both children are bred on the father.
    let mut exact = Config::new([0; 32], ARCH);
    exact.mask_combiner = MaskOp::And;
    exact.crossover_degree = UNIT;
    exact.pointwise_mutation_rate = 0;
    let m = creature(vec![gadget(0x1000)], u64::MAX, 0);
    let f = creature(vec![Allele::Input(1), gadget(0x1104)], u64::MAX, 0);
    let both = homologous_crossover(&m, &f, &mut rng(1), &exact, &img);
    assert_eq!(both[0].genome.alleles.len(), 2);
    assert_eq!(both[1].genome.alleles.len(), 2);
    // The cross on the father cannot run: both children are bred on the mother.
    let turned = homologous_crossover(&f, &m, &mut rng(1), &exact, &img);
    assert_eq!(turned[0].genome.alleles, vec![gadget(0x1000), gadget(0x1104)]);
    assert_eq!(turned[1].genome.alleles, vec![gadget(0x1000), gadget(0x1104)]);
}

#[test]
fn the_rates_decide_at_their_ends() {
    let img = image();
    let g = vec![gadget(0x1800), gadget(0x1804), gadget(0x1808), gadget(0x180C)];
    let h = vec![gadget(0x1900), gadget(0x1904), gadget(0x1908), gadget(0x190C)];
    let mut config = Config::new([0; 32], ARCH);
    config.mask_combiner = MaskOp::And;
    config.mask_inheritance = MaskOp::Xor;
    config.crossover_degree = UNIT;
    for seed in 0..50u8 {
        let m = creature(g.clone(), u64::MAX, 0);
        let f = creature(h.clone(), u64::MAX ^ 0xFF00, 0);
        config.pointwise_mutation_rate = 0;
        config.mask_mut_rate = 0;
        let still = homologous_crossover(&m, &f, &mut rng(seed), &config, &img);
        assert_eq!(still[0].genome.alleles[..], h[..]);
        assert_eq!(still[1].genome.alleles[..], g[..]);
        assert_eq!(still[0].genome.xbits, 0xFF00);
        assert_eq!(still[1].genome.xbits, 0xFF00);
        config.pointwise_mutation_rate = UNIT;
        config.mask_mut_rate = UNIT;
        let moved = homologous_crossover(&m, &f, &mut rng(seed), &config, &img);
        for (child, donor) in [(&moved[0], &h), (&moved[1], &g)] {
            assert_eq!((child.genome.xbits ^ 0xFF00).count_ones(), 1);
            for i in 0..4 {
                let (from, to) = (donor[i].entry().unwrap() as i64, child.genome.alleles[i].entry().unwrap() as i64);
                assert!((from - to).abs() < 16);
            }
        }
        let changed = (0..4).any(|i| moved[0].genome.alleles[i] != h[i] || moved[1].genome.alleles[i] != g[i]);
        assert!(changed || seed > 0);
    }
    let mut r = rng(7);
    let moved = cross(&g, &h, &vec![0, 1, 2, 3], UNIT, &mut r, &img);
    assert!((0..4).any(|i| moved[i] != h[i]));
}
