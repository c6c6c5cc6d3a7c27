//! The project files of a Wingman site: its seed (configuration) and its plant (directory).

pub mod plant;
pub mod seed;
