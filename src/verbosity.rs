use vstd::prelude::*;

verus! {

/// How much the tool logs.
#[derive(Debug, Clone, Copy, PartialEq, Eq, Structural)]
pub enum VerbosityLevel {
    /// Nothing at all.
    Silent,
    /// Errors only.
    Quiet,
    /// Errors and warnings.
    Default,
    /// Up to informational events.
    Verbose,
    /// Up to debugging events.
    ExtraVerbose,
    /// Everything.
    Trace,
}

impl Default for VerbosityLevel {
    fn default() -> (r: VerbosityLevel)
        ensures
            r == VerbosityLevel::Default,
    {
        VerbosityLevel::Default
    }
}

impl VerbosityLevel {
    pub fn is_trace(self) -> (r: bool)
        ensures
            r == (self == VerbosityLevel::Trace),
    {
        match self {
            VerbosityLevel::Trace => true,
            _ => false,
        }
    }
}

/// The level chosen by `quiet` uses of `-q` and `verbose` uses of `-v`: any `-q` wins.
pub open spec fn level_spec(verbose: u8, quiet: u8) -> VerbosityLevel {
    if quiet == 1 {
        VerbosityLevel::Quiet
    } else if quiet >= 2 {
        VerbosityLevel::Silent
    } else if verbose == 0 {
        VerbosityLevel::Default
    } else if verbose == 1 {
        VerbosityLevel::Verbose
    } else if verbose == 2 {
        VerbosityLevel::ExtraVerbose
    } else {
        VerbosityLevel::Trace
    }
}

/// The counts of the `-v` and `-q` flags.
#[derive(Debug, Clone, Copy, PartialEq, Eq, Structural)]
pub struct Verbosity {
    pub verbose: u8,
    pub quiet: u8,
}

impl Verbosity {
    pub fn new(verbose: u8, quiet: u8) -> (r: Self)
        ensures
            r.verbose == verbose,
            r.quiet == quiet,
    {
        Verbosity { verbose, quiet }
    }

    /// The verbosity level that the flags ask for.
    pub fn level(&self) -> (r: VerbosityLevel)
        ensures
            r == level_spec(self.verbose, self.quiet),
    {
        match self.quiet {
            0 => {},
            1 => return VerbosityLevel::Quiet,
            _ => return VerbosityLevel::Silent,
        }
        match self.verbose {
            0 => VerbosityLevel::Default,
            1 => VerbosityLevel::Verbose,
            2 => VerbosityLevel::ExtraVerbose,
            _ => VerbosityLevel::Trace,
        }
    }
}

} // verus!
