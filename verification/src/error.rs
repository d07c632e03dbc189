//! The failures that the engine reports.

use vstd::prelude::*;
use vstd::string::StringExecFns;

verus! {

/// Everything that can go wrong between discovery and the final merge.
#[derive(Debug)]
pub enum JouleProfilerError {
    /// The host's operating system has no counter interface.
    UnsupportedOS(String),
    /// The counter root does not exist.
    RaplNotAvailable(String),
    /// The counter root is not a directory.
    InvalidRaplPath(String),
    /// The counter hierarchy cannot be read with the current rights.
    InsufficientPermissions,
    /// The scan of the counter root found no domain.
    NoDomains,
    /// A counter could not be read, or a snapshot lacks a domain.
    RaplReadError(String),
    /// A counter file holds something else than a number.
    ParseEnergyError(String),
    /// No command was given to measure.
    NoCommand,
    /// The file for the workload's output could not be created.
    OutputFileCreationFailed(String),
    /// The workload's program was not found.
    CommandNotFound(String),
    /// The workload could not be started.
    CommandExecutionFailed(String),
    /// The boundary pattern is not a valid regular expression.
    InvalidPattern(String),
}

impl JouleProfilerError {
    /// The fixed part of the message of each kind of failure.
    pub open spec fn headline(&self) -> Seq<char> {
        match self {
            JouleProfilerError::UnsupportedOS(_) => "Unsupported operating system: "@,
            JouleProfilerError::RaplNotAvailable(_) => "RAPL not available at "@,
            JouleProfilerError::InvalidRaplPath(_) => "Invalid RAPL path: "@,
            JouleProfilerError::InsufficientPermissions => "Insufficient permissions to read RAPL counters"@,
            JouleProfilerError::NoDomains => "No RAPL domains found"@,
            JouleProfilerError::RaplReadError(_) => "Failed to read RAPL counter: "@,
            JouleProfilerError::ParseEnergyError(_) => "Failed to parse energy value: "@,
            JouleProfilerError::NoCommand => "No command specified"@,
            JouleProfilerError::OutputFileCreationFailed(_) => "Failed to create output file: "@,
            JouleProfilerError::CommandNotFound(_) => "Command not found: "@,
            JouleProfilerError::CommandExecutionFailed(_) => "Failed to execute command: "@,
            JouleProfilerError::InvalidPattern(_) => "Invalid token pattern: "@,
        }
    }

    /// The variable part of the message: what the failure carries.
    pub open spec fn detail(&self) -> Seq<char> {
        match self {
            JouleProfilerError::UnsupportedOS(d) => d@,
            JouleProfilerError::RaplNotAvailable(d) => d@,
            JouleProfilerError::InvalidRaplPath(d) => d@,
            JouleProfilerError::InsufficientPermissions => Seq::<char>::empty(),
            JouleProfilerError::NoDomains => Seq::<char>::empty(),
            JouleProfilerError::RaplReadError(d) => d@,
            JouleProfilerError::ParseEnergyError(d) => d@,
            JouleProfilerError::NoCommand => Seq::<char>::empty(),
            JouleProfilerError::OutputFileCreationFailed(d) => d@,
            JouleProfilerError::CommandNotFound(d) => d@,
            JouleProfilerError::CommandExecutionFailed(d) => d@,
            JouleProfilerError::InvalidPattern(d) => d@,
        }
    }

    /// The message shown to the user: the headline, then the detail.
    pub fn message(&self) -> (text: String)
        ensures
            text@ == self.headline() + self.detail(),
    {
        assert(self.headline() + Seq::<char>::empty() =~= self.headline());
        match self {
            JouleProfilerError::UnsupportedOS(d) => String::from_str(
                "Unsupported operating system: ",
            ).concat(d.as_str()),
            JouleProfilerError::RaplNotAvailable(d) => String::from_str(
                "RAPL not available at ",
            ).concat(d.as_str()),
            JouleProfilerError::InvalidRaplPath(d) => String::from_str(
                "Invalid RAPL path: ",
            ).concat(d.as_str()),
            JouleProfilerError::InsufficientPermissions => String::from_str(
                "Insufficient permissions to read RAPL counters",
            ),
            JouleProfilerError::NoDomains => String::from_str("No RAPL domains found"),
            JouleProfilerError::RaplReadError(d) => String::from_str(
                "Failed to read RAPL counter: ",
            ).concat(d.as_str()),
            JouleProfilerError::ParseEnergyError(d) => String::from_str(
                "Failed to parse energy value: ",
            ).concat(d.as_str()),
            JouleProfilerError::NoCommand => String::from_str("No command specified"),
            JouleProfilerError::OutputFileCreationFailed(d) => String::from_str(
                "Failed to create output file: ",
            ).concat(d.as_str()),
            JouleProfilerError::CommandNotFound(d) => String::from_str(
                "Command not found: ",
            ).concat(d.as_str()),
            JouleProfilerError::CommandExecutionFailed(d) => String::from_str(
                "Failed to execute command: ",
            ).concat(d.as_str()),
            JouleProfilerError::InvalidPattern(d) => String::from_str(
                "Invalid token pattern: ",
            ).concat(d.as_str()),
        }
    }
}

} // verus!
