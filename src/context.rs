use vstd::prelude::*;

use crate::config::Config;
use crate::package::Package;
use crate::verbosity::VerbosityLevel;

verus! {

/// What the commands of the tool share: the configuration and the package once loaded, and
/// the verbosity level.
#[derive(Debug, Clone)]
pub struct Context {
    pub config: Option<Config>,
    pub package: Option<Package>,
    pub level: VerbosityLevel,
}

impl Default for Context {
    fn default() -> (r: Context)
        ensures
            r.config is None,
            r.package is None,
            r.level == VerbosityLevel::Default,
    {
        Context { config: None, package: None, level: VerbosityLevel::Default }
    }
}

impl Context {
    /// The same context at another verbosity level.
    pub fn with_level(self, level: VerbosityLevel) -> (r: Self)
        ensures
            r.level == level,
            r.config == self.config,
            r.package == self.package,
    {
        Context { level, ..self }
    }
}

} // verus!
