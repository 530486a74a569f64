use roper::creature::{baptise_chain, name_from_hash, Creature};
use roper::evaluator::evaluate;
use roper::genotype::{Allele, Chain, Gadget};
use roper::phenotype::{
    collapse_writelog, podwise_totals, same_input, Case, FitFuncs, FitnessOps, Pareto, Phenome,
    Pod, PodScore, VisitRecord, WriteRecord,
};
use roper::target::{Arch, Mode};
use std::collections::hash_map::DefaultHasher;
use std::hash::{Hash, Hasher};

fn write(pc: u64, dest_addr: u64, value: u64) -> WriteRecord {
    WriteRecord { pc, dest_addr, value, size: 4 }
}

fn pod(retlog: Vec<u64>, writes: Vec<WriteRecord>) -> Pod {
    Pod::new(vec![0; 4], vec![], writes, retlog)
}

fn chain(entries: &[u64]) -> Chain {
    Chain {
        alleles: entries
            .iter()
            .map(|e| Allele::Gadget(Gadget { ret_addr: 0, entry: *e, sp_delta: 0, mode: Mode::Arm }))
            .collect(),
        xbits: 0,
        generation: 0,
    }
}

#[test]
fn collapse_keeps_the_last_write_to_each_address() {
    let a = 0x100;
    let b = 0x200;
    let raw = vec![write(1, a, 1), write(2, b, 2), write(3, a, 3)];
    assert_eq!(collapse_writelog(&raw), vec![write(2, b, 2), write(3, a, 3)]);
}

#[test]
fn collapse_of_distinct_addresses_changes_nothing() {
    let raw = vec![write(1, 10, 1), write(2, 20, 2), write(3, 30, 3)];
    assert_eq!(collapse_writelog(&raw), raw);
    assert_eq!(collapse_writelog(&vec![]), vec![]);
}

#[test]
fn collapse_of_one_address_keeps_one_write() {
    let raw = vec![write(1, 10, 1), write(2, 10, 2), write(3, 10, 3), write(4, 10, 4)];
    assert_eq!(collapse_writelog(&raw), vec![write(4, 10, 4)]);
}

#[test]
fn collapsed_log_has_distinct_addresses_in_order() {
    let mut raw = Vec::new();
    for i in 0..200u64 {
        raw.push(write(i, (i * 7) % 13, i));
    }
    let c = collapse_writelog(&raw);
    assert_eq!(c.len(), 13);
    for i in 0..c.len() {
        for j in (i + 1)..c.len() {
            assert_ne!(c[i].dest_addr, c[j].dest_addr);
            assert!(c[i].pc < c[j].pc);
        }
    }
    assert_eq!(collapse_writelog(&c), c);
}

#[test]
fn pod_new_collapses_the_write_log() {
    let p = Pod::new(
        vec![1, 2],
        vec![VisitRecord { pc: 4, mode: Mode::Arm, inst_size: 4, registers: vec![9] }],
        vec![write(1, 5, 1), write(2, 5, 2)],
        vec![8, 8, 9],
    );
    assert_eq!(p.registers, vec![1, 2]);
    assert_eq!(p.visited.len(), 1);
    assert_eq!(p.writelog, vec![write(2, 5, 2)]);
    assert_eq!(p.writelog_len(), 1);
    assert_eq!(p.retlog(), &vec![8, 8, 9]);
    assert_eq!(p.retlog_len(), 3);
    assert_eq!(p.collapse_writelog(), vec![write(2, 5, 2)]);
}

#[test]
fn unique_returns_are_counted_once() {
    assert_eq!(pod(vec![], vec![]).ff_uniq_retcount(), 0);
    assert_eq!(pod(vec![5], vec![]).ff_uniq_retcount(), 1);
    assert_eq!(pod(vec![5, 5, 5], vec![]).ff_uniq_retcount(), 1);
    assert_eq!(pod(vec![5, 6, 5, 7, 6], vec![]).ff_uniq_retcount(), 3);
}

#[test]
fn fitness_mean_rounds_down() {
    assert_eq!(vec![10000u64, 20000].mean(), 15000);
    assert_eq!(vec![1u64, 2].mean(), 1);
    assert_eq!(vec![7u64].mean(), 7);
    assert_eq!(vec![u64::MAX, u64::MAX].mean(), u64::MAX);
}

#[test]
fn dominated_by_compares_score_by_score() {
    assert!(vec![1u64, 2].dominated_by(&vec![1, 2]));
    assert!(vec![1u64, 2].dominated_by(&vec![3, 2]));
    assert!(!vec![1u64, 2].dominated_by(&vec![3, 1]));
    assert!(vec![1u64, 9].dominated_by(&vec![1]));
    assert!(Vec::<u64>::new().dominated_by(&vec![1]));
}

#[test]
fn phenome_insert_replaces_or_appends() {
    let mut p = Phenome::new();
    assert_eq!(p.len(), 0);
    assert!(!p.hatched());
    p.insert(vec![1, 2], None);
    p.insert(vec![3], None);
    assert_eq!(p.len(), 2);
    assert_eq!(p.position(&vec![3]), 1);
    assert_eq!(p.position(&vec![4]), 2);
    p.insert(vec![1, 2], Some(pod(vec![1], vec![])));
    assert_eq!(p.len(), 2);
    assert_eq!(p.cases[0].input, vec![1, 2]);
    assert!(p.cases[0].pod.is_some());
    assert!(p.cases[1].pod.is_none());
    assert!(p.hatched());
    assert!(same_input(&vec![1, 2], &vec![1, 2]));
    assert!(!same_input(&vec![1, 2], &vec![1]));
    assert!(!same_input(&vec![1, 2], &vec![1, 3]));
}

#[test]
fn podwise_means_are_in_ten_thousandths() {
    let p = Phenome {
        cases: vec![
            Case { input: vec![1], pod: Some(pod(vec![1, 1, 2], vec![write(1, 1, 1)])) },
            Case { input: vec![2], pod: None },
            Case { input: vec![3], pod: Some(pod(vec![4], vec![write(1, 1, 1), write(2, 2, 2)])) },
            Case { input: vec![4], pod: Some(pod(vec![], vec![])) },
        ],
    };
    assert_eq!(podwise_totals(&p, PodScore::Returns), (4, 3));
    assert_eq!(podwise_totals(&p, PodScore::UniqueReturns), (3, 3));
    assert_eq!(podwise_totals(&p, PodScore::Writes), (3, 3));
    assert_eq!(p.ff_mean_retcount(), 13333);
    assert_eq!(p.ff_mean_uniq_retcount(), 10000);
    assert_eq!(p.ff_mean_writecount(), 10000);
    assert_eq!(p.mean_podwise_fitness(PodScore::Returns), 13333);
    assert_eq!(p.avg_retlog_len(), 1);
    let empty = Phenome { cases: vec![Case { input: vec![1], pod: None }] };
    assert_eq!(empty.ff_mean_retcount(), 0);
    assert_eq!(empty.avg_retlog_len(), 0);
}

#[test]
fn evaluate_leaves_a_fitness_of_three_scores() {
    let arch = Arch::Arm(Mode::Arm);
    let mut c = Creature::new(chain(&[0x1000]), 7, arch);
    c.phenome.insert(vec![1], Some(pod(vec![1, 1, 2], vec![write(1, 1, 1)])));
    let name = c.name.clone();
    evaluate(&mut c);
    assert_eq!(c.fitness, Some(vec![20000, 30000, 10000]));
    assert_eq!(c.index, 7);
    assert_eq!(c.name, name);
    assert!(c.has_hatched());
    let mut unhatched = Creature::new(chain(&[0x1000]), 8, arch);
    unhatched.pose_problem(&vec![1]);
    evaluate(&mut unhatched);
    assert_eq!(unhatched.fitness, Some(vec![0, 0, 0]));
}

#[test]
fn names_are_eight_syllables_of_the_hash() {
    assert_eq!(name_from_hash(0), "babbab-babbab-babbab-babbab");
    assert_eq!(name_from_hash(0x0706_0504_0302_0100), "babcec-didfof-gughah-jejkik");
    assert_eq!(name_from_hash(u64::MAX), "yay".repeat(8).replacen("yayyay", "yayyay-", 3));
}

#[test]
fn a_chain_is_named_after_the_hash_of_its_payload() {
    let arch = Arch::Arm(Mode::Arm);
    let c = chain(&[0x1000, 0x2000]);
    let payload = c.pack(&[], arch);
    let mut hasher = DefaultHasher::new();
    payload.hash(&mut hasher);
    let expected = name_from_hash(hasher.finish());
    assert_eq!(baptise_chain(&c, arch), expected);
    assert_eq!(Creature::new(c, 0, arch).name, expected);
    assert_ne!(baptise_chain(&chain(&[0x1000]), arch), baptise_chain(&chain(&[0x1004]), arch));
}

#[test]
fn creature_problems_are_posed_and_inherited() {
    let arch = Arch::Arm(Mode::Arm);
    let mut parent = Creature::new(chain(&[0x1000]), 1, arch);
    assert!(!parent.has_hatched());
    assert_eq!(parent.generation(), 0);
    parent.pose_problem(&vec![1, 2]);
    parent.pose_problem(&vec![3]);
    parent.pose_problem(&vec![1, 2]);
    assert_eq!(parent.phenome.len(), 2);
    parent.phenome.insert(vec![3], Some(pod(vec![], vec![])));
    assert!(parent.has_hatched());
    let mut child = Creature::new(chain(&[0x2000]), 2, arch);
    child.pose_problem(&vec![9]);
    child.inherit_problems(&parent);
    assert_eq!(child.phenome.len(), 2);
    assert_eq!(child.phenome.cases[0].input, vec![1, 2]);
    assert_eq!(child.phenome.cases[1].input, vec![3]);
    assert!(!child.has_hatched());
    assert_eq!(child.index, 2);
}
