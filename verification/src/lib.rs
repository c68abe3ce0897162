use vstd::prelude::*;

pub mod accesspath;
pub mod alias;
pub mod benchmarks;
pub mod callgraph;
pub mod cfg;
pub mod chars;
pub mod cli;
pub mod common;
pub mod context;
pub mod icfg;
pub mod engine;
pub mod frontend;
pub mod ir;
pub mod java;
pub mod parser;
pub mod pointsto;
pub mod python;
pub mod reporting;
pub mod rules;
pub mod scheduler;
pub mod semantic;
pub mod solver;
pub mod taint;
pub mod rulepacks;
pub mod text;

verus! {

} // verus!
