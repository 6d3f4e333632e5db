//! Reading the plain-text changelist descriptions that a Perforce-style
//! command-line client prints, and preparing the query that asks for one.

pub mod changelist;
pub mod command;
pub mod laws;
pub mod parser;
pub mod text;
mod trusted;
