use vstd::prelude::*;

verus! {

/// The error of every command. Each variant carries its message and
/// determines the process exit code.
#[derive(Debug, Clone, PartialEq, Eq)]
pub enum CliError {
    /// Nothing to show (exit code 1).
    NoData(String),
    /// Any other failure (exit code 2).
    Error(String),
}

/// Result of a command.
pub type CliResult<T> = Result<T, CliError>;

impl CliError {
    /// The exit code that the variant stands for.
    pub open spec fn spec_exit_code(&self) -> u8 {
        match self {
            CliError::NoData(_) => 1,
            CliError::Error(_) => 2,
        }
    }

    /// The exit code of the process that fails with this error.
    pub fn exit_code(&self) -> (code: u8)
        ensures
            code == self.spec_exit_code(),
    {
        match self {
            CliError::NoData(_) => 1,
            CliError::Error(_) => 2,
        }
    }

    /// The message that the error carries.
    pub open spec fn spec_message(&self) -> Seq<char> {
        match self {
            CliError::NoData(m) => m@,
            CliError::Error(m) => m@,
        }
    }

    /// The text that the error displays.
    pub fn message(&self) -> (m: String)
        ensures
            m@ == self.spec_message(),
    {
        match self {
            CliError::NoData(m) => m.clone(),
            CliError::Error(m) => m.clone(),
        }
    }
}

} // verus!
