//! The decisions behind the screens: what the log groups, what the vault holds, and what each
//! control offers.
pub mod button;
pub mod common;
pub mod emulator_art;
pub mod icon;
pub mod logs;
pub mod screen;
pub mod style;
pub mod vault;
