//! Service detection: the rule framework, the built-in rules, the staged
//! per-port plan, and the store of intermediate rule results.

pub mod framework;
pub mod plan;
pub mod rule_results;
pub mod rules;
