use rand::SeedableRng;
use rand_isaac::isaac64::Isaac64Rng;
use roper::creature::Creature;
use roper::genotype::{Allele, Chain, Gadget};
use roper::params::{Config, MaskOp, UNIT};
use roper::ranking::{count_ones, reversed_positions, sort_by_key};
use roper::selector::{
    choose_doomed, choose_parents, compat_keys, fit_keys, fresh_seed, is_outdone, pareto_front,
    pick, rank_combatants, reversed_creatures, select, tournament, xover_compat, Breeder,
};
use roper::target::{Arch, Mode, Seg};

const ARCH: Arch = Arch::Arm(Mode::Arm);

fn creature(index: usize, xbits: u64, fitness: Vec<u64>) -> Creature {
    let alleles = vec![
        Allele::Gadget(Gadget { ret_addr: 0, entry: 0x1000 + 4 * index as u64, sp_delta: 0, mode: Mode::Arm }),
        Allele::Input(index % 16),
        Allele::Gadget(Gadget { ret_addr: 0, entry: 0x1800 + 4 * index as u64, sp_delta: 0, mode: Mode::Arm }),
    ];
    let mut c = Creature::new(Chain { alleles, xbits, generation: index }, index, ARCH);
    c.pose_problem(&vec![1, 2]);
    c.pose_problem(&vec![index as u64 + 10]);
    c.fitness = Some(fitness);
    c
}

fn hierarchy(n: usize) -> Vec<Creature> {
    (0..n).map(|i| creature(i, u64::MAX, vec![(i as u64 + 1) * 10, (i as u64 + 1) * 100])).collect()
}

fn image() -> Vec<Seg> {
    vec![Seg { addr: 0x1000, memsz: 0x1000, executable: true }]
}

fn config(tsize: usize) -> Config {
    let mut c = Config::new([5; 32], ARCH);
    c.tournament_size = tsize;
    c.mate_selection_factor = UNIT as u64;
    c.mask_combiner = MaskOp::Xor;
    c
}

#[test]
fn bits_in_common_are_counted() {
    assert_eq!(count_ones(0), 0);
    assert_eq!(count_ones(u64::MAX), 64);
    assert_eq!(count_ones(0x8000_0000_0000_0001), 2);
    assert_eq!(xover_compat(0b1110, 0b0111), 2);
    assert_eq!(xover_compat(u64::MAX, 0), 0);
}

#[test]
fn sorting_by_key_is_stable() {
    let keys = vec![5, 1, 5, 0, 1, 9];
    assert_eq!(sort_by_key(&vec![0, 1, 2, 3, 4, 5], &keys), vec![3, 1, 4, 0, 2, 5]);
    assert_eq!(sort_by_key(&vec![5, 4, 2, 0], &keys), vec![4, 2, 0, 5]);
    assert_eq!(sort_by_key(&vec![], &keys), Vec::<usize>::new());
    assert_eq!(reversed_positions(&vec![1, 2, 3]), vec![3, 2, 1]);
}

#[test]
fn keys_are_taken_from_masks_and_mean_scores() {
    let window = vec![
        creature(0, 0b1111, vec![10, 30]),
        creature(1, 0b0011, vec![7]),
        creature(2, 0, vec![1, 2]),
    ];
    assert_eq!(compat_keys(&window), vec![60, 62, 64]);
    assert_eq!(fit_keys(&window), vec![20, 7, 1]);
}

#[test]
fn combatants_are_pruned_by_mask_and_ranked_by_score() {
    let window = vec![
        creature(0, 0b1111, vec![10]),
        creature(1, 0b0001, vec![50]),
        creature(2, 0b0111, vec![30]),
        creature(3, 0b0000, vec![90]),
        creature(4, 0b0011, vec![30]),
        creature(5, 0b1111, vec![20]),
    ];
    let ranked = rank_combatants(&window, &vec![3, 1, 4, 2, 5, 0], 4);
    assert_eq!(ranked, vec![4, 2, 5, 0]);
    let all = rank_combatants(&window, &vec![3, 1, 4, 2, 5, 0], 6);
    assert_eq!(all, vec![3, 1, 4, 2, 5, 0]);
}

#[test]
fn the_front_holds_those_that_none_outdoes() {
    assert!(is_outdone(&vec![1, 2], &vec![2, 3]));
    assert!(!is_outdone(&vec![1, 2], &vec![2, 2]));
    assert!(!is_outdone(&vec![1, 2], &vec![1, 2]));
    let window = vec![
        creature(0, 0, vec![1, 9]),
        creature(1, 0, vec![5, 5]),
        creature(2, 0, vec![4, 4]),
        creature(3, 0, vec![9, 1]),
        creature(4, 0, vec![0, 0]),
    ];
    assert_eq!(pareto_front(&window, &vec![0, 1, 2, 3, 4]), vec![0, 1, 3]);
    assert_eq!(pareto_front(&window, &vec![4, 2]), vec![2]);
    assert_eq!(pareto_front(&window, &vec![4]), vec![4]);
    let ties = vec![creature(0, 0, vec![3]), creature(1, 0, vec![3])];
    assert_eq!(pareto_front(&ties, &vec![0, 1]), vec![0, 1]);
}

#[test]
fn parents_come_from_the_front_and_the_doomed_from_the_bottom() {
    assert_eq!(choose_parents(&vec![7, 3], &vec![9, 7, 3, 1]), (7, 3));
    assert_eq!(choose_parents(&vec![7], &vec![9, 7, 3, 1]), (7, 9));
    assert_eq!(choose_parents(&vec![9], &vec![9, 7, 3, 1]), (9, 7));
    assert_eq!(choose_doomed(&vec![9, 7, 3, 1], 9, 7), (1, 3));
    assert_eq!(choose_doomed(&vec![9, 7, 3, 1], 1, 3), (7, 9));
    assert_eq!(choose_doomed(&vec![9, 7, 3, 1], 1, 7), (3, 9));
    assert_eq!(choose_doomed(&vec![9, 7, 3, 1, 0], 0, 3), (1, 7));
    assert_eq!(choose_doomed(&vec![9, 7, 3, 1, 0], 42, 43), (0, 1));
}

#[test]
fn pick_takes_the_first_of_the_front_as_first_parent() {
    let window = hierarchy(8);
    let sel = pick(&window, vec![7, 5, 2, 0], &vec![7]);
    assert_eq!((sel.parent_a, sel.parent_b, sel.doomed_a, sel.doomed_b), (7, 5, 0, 2));
    assert_eq!(sel.ranked, vec![7, 5, 2, 0]);
}

#[test]
fn a_clear_hierarchy_makes_its_top_the_first_parent() {
    let window = hierarchy(8);
    for seed in 0..50u8 {
        let mut rng = Isaac64Rng::from_seed([seed; 32]);
        let sel = select(&window, &mut rng, 4, 4);
        assert_eq!(sel.ranked.len(), 4);
        let top = *sel.ranked.iter().max().unwrap();
        assert_eq!(sel.parent_a, top);
        assert_eq!(sel.ranked[0], top);
        assert_eq!(sel.parent_b, sel.ranked[1]);
        assert_eq!(sel.doomed_a, sel.ranked[3]);
        assert_eq!(sel.doomed_b, sel.ranked[2]);
        let mut four = vec![sel.parent_a, sel.parent_b, sel.doomed_a, sel.doomed_b];
        four.sort();
        four.dedup();
        assert_eq!(four.len(), 4);
        for i in sel.ranked.iter() {
            assert!(*i < 8);
        }
    }
}

#[test]
fn selection_picks_four_different_creatures() {
    for seed in 0..50u8 {
        let mut rng = Isaac64Rng::from_seed([seed; 32]);
        let window: Vec<Creature> = (0..12)
            .map(|i| {
                creature(
                    i,
                    (i as u64).wrapping_mul(0x9E37_79B9_7F4A_7C15),
                    vec![(i as u64 * 7) % 5, (i as u64 * 3) % 4, seed as u64 % 3],
                )
            })
            .collect();
        let sel = select(&window, &mut rng, 5, 9);
        assert_eq!(sel.ranked.len(), 5);
        let mut four = vec![sel.parent_a, sel.parent_b, sel.doomed_a, sel.doomed_b];
        for x in four.iter() {
            assert!(sel.ranked.contains(x));
        }
        four.sort();
        four.dedup();
        assert_eq!(four.len(), 4);
    }
}

#[test]
fn a_tournament_replaces_two_creatures_by_two_offspring() {
    let img = image();
    let cfg = config(4);
    let mut window = hierarchy(8);
    let before: Vec<usize> = window.iter().map(|c| c.index).collect();
    let offspring = tournament(&mut window, &[5; 32], &cfg, &img);
    assert_eq!(offspring.len(), 2);
    assert_eq!(window.len(), 6);
    let after: Vec<usize> = window.iter().map(|c| c.index).collect();
    for i in after.iter() {
        assert!(before.contains(i));
    }
    let gone: Vec<usize> = before.iter().filter(|i| !after.contains(i)).cloned().collect();
    assert_eq!(gone.len(), 2);
    for o in offspring.iter() {
        assert!(!o.has_hatched());
        assert_eq!(o.phenome.len(), 2);
        assert_eq!(o.phenome.cases[0].input, vec![1, 2]);
        assert_eq!(o.fitness, None);
        assert_eq!(o.index, 0);
        assert!(o.genome.generation >= 1 && o.genome.generation <= 8);
        assert!(o.genome.entry().is_some());
        assert_eq!(o.genome.alleles.len(), 3);
    }
    let father = offspring[0].phenome.cases[1].input[0] as usize - 10;
    assert_eq!(offspring[1].phenome.cases[1].input, vec![father as u64 + 10]);
    assert!(!gone.contains(&father));
    assert_eq!(offspring[0].genome.generation, offspring[1].genome.generation);
    assert!(offspring[0].genome.generation > father);
}

#[test]
fn a_tournament_draws_the_same_from_the_same_seed() {
    let img = image();
    let cfg = config(4);
    let mut one = hierarchy(8);
    let mut two = hierarchy(8);
    let a = tournament(&mut one, &[9; 32], &cfg, &img);
    let b = tournament(&mut two, &[9; 32], &cfg, &img);
    assert_eq!(a[0].name, b[0].name);
    assert_eq!(a[1].genome.alleles, b[1].genome.alleles);
    let left: Vec<usize> = one.iter().map(|c| c.index).collect();
    let right: Vec<usize> = two.iter().map(|c| c.index).collect();
    assert_eq!(left, right);
}

#[test]
fn fresh_seeds_have_thirty_two_bytes() {
    let mut rng = Isaac64Rng::from_seed([1; 32]);
    let a = fresh_seed(&mut rng);
    let b = fresh_seed(&mut rng);
    assert_eq!(a.len(), 32);
    assert_eq!(b.len(), 32);
    assert_ne!(a, b);
}

#[test]
fn the_breeder_waits_for_a_full_window() {
    let img = image();
    let cfg = config(4);
    let mut breeder = Breeder::new(6);
    let mut arrivals = hierarchy(6);
    let last = arrivals.pop().unwrap();
    for c in arrivals {
        assert!(breeder.take_in(c, &[3; 32], &cfg, &img).is_none());
    }
    assert_eq!(breeder.window.len(), 5);
    let round = breeder.take_in(last, &[3; 32], &cfg, &img).unwrap();
    assert_eq!(breeder.window.len(), 0);
    assert_eq!(round.released.len(), 4);
    assert_eq!(round.offspring.len(), 2);
    let mut twin = hierarchy(6);
    let mut bred = tournament(&mut twin, &[3; 32], &cfg, &img);
    twin.reverse();
    bred.reverse();
    let released: Vec<usize> = round.released.iter().map(|c| c.index).collect();
    let expected: Vec<usize> = twin.iter().map(|c| c.index).collect();
    assert_eq!(released, expected);
    assert_eq!(round.offspring[0].name, bred[0].name);
    assert_eq!(round.offspring[1].name, bred[1].name);
}

#[test]
fn creatures_are_turned_round() {
    let r = reversed_creatures(hierarchy(3));
    let order: Vec<usize> = r.iter().map(|c| c.index).collect();
    assert_eq!(order, vec![2, 1, 0]);
}
