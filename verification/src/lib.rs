//! Verified core of the OSRS random boss and skill chooser.

pub mod text;
pub mod catalog;
pub mod ordered;
pub mod page;
pub mod sources;
pub mod update;
pub mod chooser;
