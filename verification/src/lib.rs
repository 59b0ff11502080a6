//! CRAP metric analysis for Rust code: complexity, coverage, idioms and
//! duplication, with the decisions of each analysis verified.

pub mod color;
pub mod text;
pub mod syntax;
pub mod complexity;
pub mod visitor;
pub mod idiom;
pub mod dryness;
pub mod coverage;
pub mod scoring;
pub mod cli;
pub mod report;
