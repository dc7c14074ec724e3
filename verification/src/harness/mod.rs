pub mod checker;
pub mod dest_probe;
pub mod disk_image;
pub mod faults;
pub mod fixtures;
pub mod parse;
pub mod recorder;
pub mod runner;
