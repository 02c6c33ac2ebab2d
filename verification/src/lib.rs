//! Moving an account's room memberships to another account, one room at a
//! time: which rooms an operator selected, what is asked of each room and in
//! which order, how each room ended, and the record kept of it.

pub mod engine;
pub mod identifiers;
pub mod ledger;
pub mod outcome;
pub mod power_levels;
pub mod report;
pub mod run;
pub mod script;
pub mod selection;
pub mod snapshot;
