//! Verified building blocks for controlling and inspecting a traced process,
//! together with a few small, independently useful utilities.

pub mod assembly;
pub mod breakpoints;
pub mod control;
pub mod debug_info;
pub mod debugger;
pub mod debugger_command;
pub mod farm;
pub mod hangman;
pub mod inferior;
pub mod laws;
pub mod load_balance;
pub mod memory;
pub mod model;
pub mod patching;
pub mod rate_limiter;
pub mod text;
pub mod variables;
pub mod warmup;
