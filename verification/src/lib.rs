//! Verified core of the PyForge project manager.

pub mod text;
pub mod uv;
pub mod dates;
pub mod order;
pub mod deps;
pub mod index;
pub mod i18n;
pub mod system;
pub mod web;
pub mod detector;
pub mod scanner;
pub mod templates;
pub mod agent;
pub mod output;
pub mod cli;
