//! Tools for Super Smash Bros. 64 data files: resource pointers, stage main
//! files, collision data, and symbol-file to Nemu bookmark conversion.

pub mod bytes;
pub mod pointers;
pub mod stage;
pub mod music;
pub mod stage_file;
pub mod collision;
pub mod text;
pub mod order;
pub mod nemu;
pub mod flat;
pub mod bass;
pub mod nest;
pub mod paths;
pub mod stage_cli;
