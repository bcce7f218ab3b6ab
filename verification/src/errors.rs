//! The error kinds a generation run reports. Every kind is fatal to the
//! run that raises it; none is silently swallowed mid-walk.

use vstd::prelude::*;

verus! {

/// Why a generation run failed.
#[derive(Debug)]
pub enum GenerateFilesError {
    /// The resolved destination directory already exists and overwriting
    /// was not permitted. Holds the resolved destination path.
    DirectoryExists(String),
    /// No immediate child of the template root is a directory whose name
    /// holds the marker substring and opens a placeholder: there is no
    /// destination to write to.
    NoOutputDirPattern,
    /// Placeholder substitution failed for a path or a file body. Holds
    /// the text that failed to render.
    RenderFailure(String),
    /// The template's declared configuration could not be read or parsed.
    SourceConfig(String),
    /// A filesystem operation failed, or a file to be rendered did not
    /// hold text. Holds a description.
    IoError(String),
}

impl GenerateFilesError {
    /// A short, stable name for the kind of failure.
    pub fn kind_name(&self) -> (r: &'static str)
        ensures
            r@ == match self {
                GenerateFilesError::DirectoryExists(_) => "destination exists"@,
                GenerateFilesError::NoOutputDirPattern => "no output directory pattern found"@,
                GenerateFilesError::RenderFailure(_) => "render failure"@,
                GenerateFilesError::SourceConfig(_) => "source configuration error"@,
                GenerateFilesError::IoError(_) => "io error"@,
            },
    {
        match self {
            GenerateFilesError::DirectoryExists(_) => "destination exists",
            GenerateFilesError::NoOutputDirPattern => "no output directory pattern found",
            GenerateFilesError::RenderFailure(_) => "render failure",
            GenerateFilesError::SourceConfig(_) => "source configuration error",
            GenerateFilesError::IoError(_) => "io error",
        }
    }

    /// The detail text carried by the error, if any.
    pub fn detail(&self) -> (r: &str)
        ensures
            r@ == match self {
                GenerateFilesError::DirectoryExists(d) => d@,
                GenerateFilesError::NoOutputDirPattern => ""@,
                GenerateFilesError::RenderFailure(d) => d@,
                GenerateFilesError::SourceConfig(d) => d@,
                GenerateFilesError::IoError(d) => d@,
            },
    {
        match self {
            GenerateFilesError::DirectoryExists(d) => d.as_str(),
            GenerateFilesError::NoOutputDirPattern => "",
            GenerateFilesError::RenderFailure(d) => d.as_str(),
            GenerateFilesError::SourceConfig(d) => d.as_str(),
            GenerateFilesError::IoError(d) => d.as_str(),
        }
    }
}

} // verus!
