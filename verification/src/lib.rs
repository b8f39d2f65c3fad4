pub mod config;
pub mod engines;
pub mod paths;
pub mod supervisor;
pub mod text;
