//! What the library promises of what it does outside itself: which requests an
//! operation makes, in which order, and what it makes of the answers.

pub mod board;
pub mod checks;
pub mod commands;
pub mod contents;
pub mod failures;
pub mod family;
pub mod global;
pub mod hook;
pub mod install;
pub mod machine;
pub mod overlay;
pub mod places;
pub mod reports;
pub mod setup;
pub mod system;
pub mod texts;
