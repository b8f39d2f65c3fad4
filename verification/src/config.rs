//! The persisted user configuration, as the library models it. Reading and
//! writing the configuration file is the application's business; the library
//! only fixes the shape of the data and its default.
use vstd::prelude::*;

verus! {

/// A saved project entry: a display name and the path of the project file.
#[derive(Debug, Clone)]
pub struct ProjectConfig {
    pub name: String,
    pub path: String,
}

/// The user configuration: the saved projects and the chosen engine path.
#[derive(Debug, Clone)]
pub struct Config {
    pub projects: Vec<ProjectConfig>,
    pub unreal_engine_path: Option<String>,
}

impl Default for Config {
    /// The configuration before anything is saved: no projects, no engine
    /// path chosen.
    fn default() -> (c: Config)
        ensures
            c.projects@.len() == 0,
            c.unreal_engine_path is None,
    {
        Config { projects: Vec::new(), unreal_engine_path: None }
    }
}

} // verus!
