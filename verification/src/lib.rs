//! Durable, revision-aware project knowledge: the rules of a Project Context
//! Library, each with a contract that states exactly what it returns.

pub mod error;
pub mod git;
pub mod history;
pub mod knowledge;
pub mod layout;
pub mod mount;
pub mod order;
pub mod outside;
pub mod paths;
pub mod profile;
pub mod provider;
pub mod query;
pub mod scaffold;
pub mod status;
pub mod text;
