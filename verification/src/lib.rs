//! SaveVault's engine: reading console save formats, recognising emulator data folders, and
//! deciding where a backed-up save has to go on this machine.
pub mod gui;
pub mod manifest;
pub mod metadata;
pub mod path;
pub mod scan;
