//! Core of the ECCVM prover stage: the relation-accumulation framework, the
//! MSM and set relations, and the round-ordering logic of the prover.
//!
//! - `field`: elements of the BN254 base field and their operations.
//! - `univariate`: low-degree univariates held by their evaluations, and their
//!   extension to a wider evaluation domain.
//! - `accumulator`: one univariate slot per sub-identity of a relation, with
//!   `scale`, `extend_and_batch_univariates` and a byte encoding.
//! - `msm_relation`: the MSM relation's sub-identities and `accumulate`.
//! - `msm_honest`: honest MSM rows, on which every sub-identity vanishes.
//! - `set_relation`: the set relation's accumulator layout.
//! - `params`: the relation parameters drawn by Fiat-Shamir.
//! - `prover`: the five proof-construction phases and their order.
//! - `utils`: the wNAF digit of two 2-bit slices.
//! - `rep3`: replicated shares of packed bit vectors.
pub mod field;
pub mod univariate;
pub mod accumulator;
pub mod msm_relation;
pub mod msm_honest;
pub mod params;
pub mod set_relation;
pub mod prover;
pub mod utils;
pub mod rep3;
