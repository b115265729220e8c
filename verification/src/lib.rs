pub mod bytes;
pub mod tree;
pub mod flat;
pub mod table;
pub mod error;
pub mod paths;
pub mod create;
pub mod arx;
pub mod fs;
pub mod cache;
pub mod laws;
pub mod extract;
pub mod cmd_utils;
pub mod ui;
pub mod fs_adder;
pub mod listing;
pub mod bindings;
