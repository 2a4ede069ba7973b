//! A workflow engine for value-carrying actions: weighted amount splitting, a
//! per-caller token ledger, immutable constructions of actions, and runs of
//! those constructions that advance one step at a time and resume on replies.

pub mod account;
pub mod action;
pub mod construction;
pub mod contract;
pub mod decimal;
pub mod errors;
pub mod ids;
pub mod json;
pub mod ledger;
pub mod methods;
pub mod reply;
pub mod splitter;
pub mod table;
pub mod wide;
