//! Finding saves and deciding what they are and where they belong.
pub mod emulator;
pub mod game_filter;
pub mod game_group;
pub mod info;
pub mod launchers;
pub mod layout;
pub mod semantic;
