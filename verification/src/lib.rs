//! Evolutionary search over chains of code-reuse gadgets.
//!
//! A population of creatures flows through five stages: the seeder makes
//! random chains, the hatchery runs each chain in an emulator, the evaluator
//! scores what the chain did, the breeder holds tournaments and breeds
//! offspring by crossover, and the logger keeps statistics.  This library
//! holds what the stages decide and compute; threads, channels, files and
//! the emulator itself belong to the program around it.
//!
//! Random decisions are taken from a seeded generator that is opaque to the
//! proofs, so what is proved of them holds for every draw.  Rates, shares and
//! scores are fixed-point integers.

pub mod creature;
pub mod crossover;
pub mod describe;
pub mod disas;
pub mod evaluator;
pub mod evolver;
pub mod genotype;
pub mod hatchery;
pub mod logger;
pub mod params;
pub mod phenotype;
pub mod ranking;
pub mod rng;
pub mod seeder;
pub mod selector;
pub mod seqs;
pub mod settings;
pub mod target;
pub mod text;
pub mod words;
