//! The logic behind the web dashboard's JSON API: request checks, project
//! cards and filters, statistics.

pub mod open;
pub mod projects;
pub mod stats;
