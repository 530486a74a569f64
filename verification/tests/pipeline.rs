use rand::SeedableRng;
use rand_isaac::isaac64::Isaac64Rng;
use roper::creature::Creature;
use roper::evaluator::evaluate;
use roper::evolver::{on_send_error, Destination, Failure, Pipeline, Pond, Relay};
use roper::genotype::{Allele, Chain, Gadget};
use roper::hatchery::{
    hatch, hatch_cases, stage, visit_record, write_record, Dispatch, Hatchery, Observed,
};
use roper::logger::{log, log_row, Analyst, CircBuf, Ingest};
use roper::params::{Config, UNIT};
use roper::phenotype::{Pod, WriteRecord};
use roper::seeder::{creature_of, new_creature, Seeder, Seeding};
use roper::target::{Arch, Mode, Seg};

const ARCH: Arch = Arch::Arm(Mode::Arm);

fn chain(entries: &[u64]) -> Chain {
    Chain {
        alleles: entries
            .iter()
            .map(|e| Allele::Gadget(Gadget { ret_addr: 0, entry: *e, sp_delta: 0, mode: Mode::Arm }))
            .collect(),
        xbits: 0,
        generation: 0,
    }
}

fn pod(retlog: Vec<u64>) -> Pod {
    Pod::new(vec![0; 4], vec![], vec![], retlog)
}

fn unhatched(index: usize) -> Creature {
    let mut c = Creature::new(chain(&[0x1000 + index as u64 * 4]), index, ARCH);
    c.pose_problem(&vec![1, 2]);
    c
}

fn hatched(index: usize) -> Creature {
    let mut c = unhatched(index);
    c.phenome.insert(vec![1, 2], Some(pod(vec![index as u64])));
    c
}

fn scored(index: usize, generation: usize, fitness: Vec<u64>) -> Creature {
    let mut c = hatched(index);
    c.genome.generation = generation;
    c.fitness = Some(fitness);
    c
}

fn image() -> Vec<Seg> {
    vec![Seg { addr: 0x1000, memsz: 0x1000, executable: true }]
}

#[test]
fn hatched_creatures_pass_the_hatchery_untouched() {
    let mut hatchery = Hatchery::new(2);
    for i in 0..1000 {
        let c = hatched(i);
        let name = c.name.clone();
        match hatchery.route(c) {
            Dispatch::Forward(same) => {
                assert_eq!(same.index, i);
                assert_eq!(same.name, name);
                assert_eq!(same.genome.alleles, hatched(i).genome.alleles);
                assert_eq!(same.phenome, hatched(i).phenome);
            }
            Dispatch::Hatch { .. } => panic!("a hatched creature was sent to an emulator"),
        }
    }
    assert_eq!(hatchery.counter, 0);
    assert_eq!(hatchery.num_already_hatched, 1000);
}

#[test]
fn unhatched_creatures_go_round_the_carousel() {
    let mut hatchery = Hatchery::new(3);
    let mut engines = Vec::new();
    for i in 0..7 {
        let c = if i == 2 { hatched(i) } else { unhatched(i) };
        match hatchery.route(c) {
            Dispatch::Hatch { engine, creature } => {
                assert_eq!(creature.index, i);
                engines.push(engine);
            }
            Dispatch::Forward(c) => assert_eq!(c.index, 2),
        }
    }
    assert_eq!(engines, vec![0, 1, 0, 1, 2, 0]);
    assert_eq!(hatchery.counter, 6);
    assert_eq!(hatchery.num_already_hatched, 1);
    assert_eq!(hatchery.coop, 1);
    assert!(!hatchery.report_due());
    assert!(Hatchery::new(1).report_due());
}

#[test]
fn a_run_is_staged_in_the_middle_of_the_stack() {
    let mut c = Creature::new(
        Chain {
            alleles: vec![
                Allele::Input(0),
                Allele::Gadget(Gadget { ret_addr: 0, entry: 0x1122_3344, sp_delta: 0, mode: Mode::Arm }),
                Allele::Input(1),
            ],
            xbits: 0,
            generation: 0,
        },
        0,
        ARCH,
    );
    c.pose_problem(&vec![0xAA, 0xBB]);
    let launch = stage(&c, &vec![0xAA, 0xBB], 0x7000_0000, 0x1000, ARCH);
    assert_eq!(launch.payload, vec![0x44, 0x33, 0x22, 0x11, 0xBB, 0, 0, 0]);
    assert_eq!(launch.stack_entry, 0x7000_0800);
    assert_eq!(launch.sp, 0x7000_0804);
    assert_eq!(launch.start_addr, 0x1122_3344);
    assert_eq!(launch.budget, 1024);
    let cut = stage(&c, &vec![0xAA, 0xBB], 0x7000_0000, 10, ARCH);
    assert_eq!(cut.payload, vec![0x44, 0x33, 0x22, 0x11, 0xBB]);
    assert_eq!(cut.stack_entry, 0x7000_0005);
    let wide = stage(&c, &vec![0xAA, 0xBB], 0x7000_0000, 0x1000, Arch::X86(Mode::Bits64));
    assert_eq!(wide.sp, 0x7000_0808);
    assert_eq!(wide.payload.len(), 16);
}

#[test]
fn observations_become_records_and_pods() {
    assert_eq!(
        write_record(1, 2, 4, -1),
        WriteRecord { pc: 1, dest_addr: 2, value: u64::MAX, size: 4 }
    );
    assert_eq!(write_record(1, 2, 4, 7).value, 7);
    assert_eq!(write_record(1, 2, 4, i64::MIN).value, 0x8000_0000_0000_0000);
    let v = visit_record(0x1000, Mode::Thumb, 0x12, vec![1, 2]);
    assert_eq!((v.pc, v.mode, v.inst_size), (0x1000, Mode::Thumb, 2));
    assert_eq!(v.registers, vec![1, 2]);
    let a = write_record(1, 0x10, 4, 1);
    let b = write_record(2, 0x20, 4, 2);
    let c = write_record(3, 0x10, 4, 3);
    let p = hatch(Observed {
        registers: vec![5],
        visited: vec![v.clone()],
        writelog: vec![a, b, c],
        retlog: vec![9],
        jmplog: vec![1, 2, 3],
    });
    assert_eq!(p.registers, vec![5]);
    assert_eq!(p.visited, vec![v]);
    assert_eq!(p.writelog, vec![b, c]);
    assert_eq!(p.retlog, vec![9]);
}

#[test]
fn hatch_cases_installs_one_pod_for_each_problem() {
    let mut c = unhatched(1);
    c.pose_problem(&vec![3]);
    c.pose_problem(&vec![4]);
    let phenome = hatch_cases(&c, vec![pod(vec![1]), pod(vec![2, 2]), pod(vec![])]);
    assert_eq!(phenome.len(), 3);
    assert_eq!(phenome.cases[0].input, vec![1, 2]);
    assert_eq!(phenome.cases[0].pod.as_ref().unwrap().retlog, vec![1]);
    assert_eq!(phenome.cases[1].input, vec![3]);
    assert_eq!(phenome.cases[1].pod.as_ref().unwrap().retlog, vec![2, 2]);
    assert_eq!(phenome.cases[2].input, vec![4]);
    assert_eq!(phenome.cases[2].pod.as_ref().unwrap().retlog, Vec::<u64>::new());
    assert!(phenome.hatched());
    c.phenome = phenome;
    assert!(c.has_hatched());
}

#[test]
fn the_seeder_emits_what_is_wanted_and_the_evaluator_scores_it() {
    let img = image();
    let mut config = Config::new([2; 32], ARCH);
    config.min_creature_length = 4;
    config.max_creature_length = 8;
    let problems = vec![vec![1, 2]];
    let mut rng = Isaac64Rng::from_seed(config.seed);
    let mut seeder = Seeder::new(100);
    let mut hatchery = Hatchery::new(2);
    let mut emitted = Vec::new();
    loop {
        match seeder.step(&mut rng, &problems, &config, &img) {
            Seeding::Emit(c) => emitted.push(c),
            Seeding::Rejected => panic!("a draw was rejected"),
            Seeding::Done => break,
        }
    }
    assert_eq!(emitted.len(), 100);
    assert_eq!(seeder.rejected, 0);
    let mut out = Vec::new();
    for (i, c) in emitted.into_iter().enumerate() {
        assert_eq!(c.index, i);
        assert!(c.genome.len() >= 4 && c.genome.len() < 8);
        assert!(c.genome.entry().is_some());
        assert_eq!(c.phenome.len(), 1);
        assert!(!c.has_hatched());
        let mut c = match hatchery.route(c) {
            Dispatch::Hatch { creature, .. } => creature,
            Dispatch::Forward(_) => panic!("an unhatched creature was sent on"),
        };
        c.phenome = hatch_cases(&c, vec![pod(vec![i as u64, 3])]);
        evaluate(&mut c);
        out.push(c);
    }
    assert_eq!(out.len(), 100);
    for (i, c) in out.iter().enumerate() {
        assert_eq!(c.index, i);
        assert!(c.fitness.as_ref().unwrap().len() >= 1);
    }
    assert!(matches!(seeder.step(&mut rng, &problems, &config, &img), Seeding::Done));
}

#[test]
fn the_seeder_rejects_every_draw_without_a_gadget() {
    let img = vec![Seg { addr: 0x8000, memsz: 0x100, executable: false }];
    let mut config = Config::new([2; 32], ARCH);
    config.min_creature_length = 1;
    config.max_creature_length = 1;
    config.input_slot_freq = UNIT;
    let mut rng = Isaac64Rng::from_seed(config.seed);
    let mut seeder = Seeder::new(10);
    for n in 1..=50 {
        assert!(matches!(seeder.step(&mut rng, &vec![vec![1]], &config, &img), Seeding::Rejected));
        assert_eq!(seeder.rejected, n);
        assert_eq!(seeder.index, 0);
    }
    assert!(new_creature(&mut rng, &vec![vec![1]], 0, &config, &img).is_none());
}

#[test]
fn creatures_are_made_of_chains_that_can_run() {
    let config = Config::new([2; 32], ARCH);
    let problems = vec![vec![1], vec![2, 3], vec![1]];
    let c = creature_of(chain(&[0x1000]), &problems, 5, &config).unwrap();
    assert_eq!(c.index, 5);
    assert_eq!(c.phenome.len(), 2);
    assert_eq!(c.phenome.cases[0].input, vec![1]);
    assert_eq!(c.phenome.cases[1].input, vec![2, 3]);
    assert_eq!(c.fitness, None);
    let no_gadget = Chain { alleles: vec![Allele::Input(1)], xbits: 0, generation: 0 };
    assert!(creature_of(no_gadget, &problems, 5, &config).is_none());
    assert!(creature_of(chain(&[]), &problems, 5, &config).is_none());
}

#[test]
fn a_pipeline_node_passes_items_until_its_limit() {
    let mut node = Pipeline::new(3, 0);
    for _ in 0..10 {
        assert_eq!(node.on_item(), Relay::Pass { fanout: 2 });
    }
    assert_eq!(node.count, 10);
    let mut limited = Pipeline::new(1, 3);
    assert_eq!(limited.on_item(), Relay::Pass { fanout: 0 });
    assert_eq!(limited.on_item(), Relay::Pass { fanout: 0 });
    assert_eq!(limited.on_item(), Relay::Conclude);
    assert_eq!(limited.on_item(), Relay::Conclude);
    assert_eq!(on_send_error(0), Failure::Fatal(99));
    assert_eq!(on_send_error(1), Failure::Logged);
    assert_eq!(on_send_error(7), Failure::Logged);
}

#[test]
fn the_pond_sends_a_window_on_once_it_holds_more() {
    let mut rng = Isaac64Rng::from_seed([4; 32]);
    let mut pond = Pond::new(4);
    for i in 0..4 {
        let c = if i % 2 == 0 { hatched(i) } else { unhatched(i) };
        assert!(pond.receive(c, &mut rng).is_empty());
    }
    assert_eq!(pond.pond.len(), 4);
    let sent = pond.receive(hatched(4), &mut rng);
    assert_eq!(sent.len(), 4);
    assert_eq!(pond.pond.len(), 1);
    let mut seen: Vec<usize> = sent.iter().map(|r| r.creature.index).collect();
    seen.push(pond.pond[0].index);
    seen.sort();
    assert_eq!(seen, vec![0, 1, 2, 3, 4]);
    for r in sent.iter() {
        let expected = if r.creature.has_hatched() { Destination::Breeder } else { Destination::Hatchery };
        assert_eq!(r.to, expected);
        assert_eq!(r.creature.has_hatched(), r.creature.index % 2 == 0);
    }
}

#[test]
fn the_rolling_window_keeps_the_latest() {
    let mut buf = CircBuf::new(3);
    for i in 0..3 {
        buf.push(hatched(i));
    }
    let held: Vec<usize> = buf.buf.iter().map(|c| c.index).collect();
    assert_eq!(held, vec![0, 1, 2]);
    buf.push(hatched(3));
    buf.push(hatched(4));
    let mut held: Vec<usize> = buf.buf.iter().map(|c| c.index).collect();
    assert_eq!(buf.buf[buf.head].index, 2);
    held.sort();
    assert_eq!(held, vec![2, 3, 4]);
    let mut none = CircBuf::new(0);
    none.push(hatched(0));
    assert_eq!(none.buf.len(), 0);
}

#[test]
fn the_analyst_counts_the_window() {
    let window = vec![
        scored(0, 3, vec![10, 30]),
        scored(1, 9, vec![50]),
        scored(2, 1, vec![40, 40, 40]),
        scored(3, 2, vec![70]),
    ];
    let mut analyst = Analyst::new();
    let report = analyst.analyse(&window);
    assert_eq!(report.count, 4);
    assert_eq!(report.sum_fit, 20 + 50 + 40 + 70);
    assert_eq!(report.sum_gen, 15);
    assert_eq!(report.sum_len, 4);
    assert_eq!(report.max_gen, 9);
    assert_eq!(report.max_fitness, 70);
    assert_eq!(report.records, vec![0, 1, 3]);
    assert!(report.first);
    let again = analyst.analyse(&vec![scored(4, 4, vec![60]), scored(5, 12, vec![71])]);
    assert_eq!(again.max_gen, 12);
    assert_eq!(again.max_fitness, 71);
    assert_eq!(again.records, vec![1]);
    assert!(!again.first);
    assert_eq!(analyst.log_counter, 2);
    let empty = analyst.analyse(&vec![]);
    assert_eq!((empty.count, empty.sum_fit, empty.max_fitness), (0, 0, 71));
}

#[test]
fn analyses_are_due_at_the_first_arrival_and_every_period() {
    let mut ingest = Ingest::new(3);
    let due: Vec<bool> = (0..7).map(|_| ingest.on_arrival()).collect();
    assert_eq!(due, vec![true, false, false, true, false, false, true]);
    let mut every = Ingest::new(1);
    assert!(every.on_arrival());
    assert!(every.on_arrival());
}

#[test]
fn log_rows_are_cells_between_tabs() {
    let names = vec!["MAX-GEN".to_string(), "MEAN-GEN".to_string()];
    let values = vec!["3.0000".to_string(), "1.5000".to_string()];
    assert_eq!(log_row(&names), "MAX-GEN\tMEAN-GEN\n");
    assert_eq!(log_row(&vec![]), "");
    assert_eq!(log_row(&vec!["x".to_string()]), "x\n");
    assert_eq!(log(&names, &values, 0), vec!["MAX-GEN\tMEAN-GEN\n", "3.0000\t1.5000\n"]);
    assert_eq!(log(&names, &values, 1), vec!["3.0000\t1.5000\n"]);
}

#[test]
fn the_pond_is_stirred_before_it_sends() {
    let mut stirred = false;
    for seed in 0..8u8 {
        let mut rng = Isaac64Rng::from_seed([seed; 32]);
        let mut pond = Pond::new(8);
        for i in 0..8 {
            assert!(pond.receive(hatched(i), &mut rng).is_empty());
        }
        let sent = pond.receive(hatched(8), &mut rng);
        let order: Vec<usize> = sent.iter().map(|r| r.creature.index).collect();
        if order != vec![8, 7, 6, 5, 4, 3, 2, 1] {
            stirred = true;
        }
    }
    assert!(stirred);
}
