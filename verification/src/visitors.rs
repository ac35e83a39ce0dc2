//! The rewrite framework and the passes built on it.

pub mod constprop;
pub mod variable_checker;
pub mod visitor;
