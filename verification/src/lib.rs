//! Adversarial proxy logic for LLM agent reliability testing: budgets,
//! pricing, usage metering, fault mutation, session attribution and the
//! reliability report, each stated and proved with Verus.

use vstd::prelude::*;

pub mod budget;
pub mod config;
pub mod fault;
pub mod json;
pub mod openai;
pub mod pricing;
pub mod proxy;
pub mod report;
pub mod session;
pub mod test_runner;
pub mod text;
pub mod usage;

verus! {
} // verus!
