use vstd::prelude::*;

pub mod text;
pub mod path;
pub mod language;
pub mod syntax;
pub mod metrics;
pub mod measure;
pub mod svelte;
pub mod parse;
pub mod json;
pub mod diff;
pub mod glob;
pub mod config;
pub mod sort;
pub mod scan;
pub mod report;
pub mod hooks;
pub mod cli;

verus! {

} // verus!
