//! Execution core of a register-based bytecode runtime for a dynamically
//! typed functional language: tagged term encoding, process heap with boxed
//! objects, the per-process register machine, built-in function dispatch,
//! and the polymorphic term comparator.

pub mod atoms;
pub mod bif_arith;
pub mod bif_compare;
pub mod bif_lists;
pub mod bif_sys;
pub mod bignum;
pub mod call_bif;
pub mod compare;
pub mod context;
pub mod export;
pub mod fail;
pub mod gen_bif;
pub mod heap;
pub mod lterm;
pub mod model;
pub mod numcmp;
pub mod order;
pub mod process;
