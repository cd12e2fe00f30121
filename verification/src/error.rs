use vstd::prelude::*;

verus! {

/// Every failure the tool can report. Parsing produces only `ConfigParse`,
/// always with a 1-indexed source line; the remaining variants originate in
/// the collaborators around the core (file access, subprocess runs, prompts)
/// and are passed through unchanged.
#[derive(Debug)]
pub enum DpkgError {
    ConfigNotFound { path: String },
    ConfigParse { line: usize, message: String },
    PermissionDenied(String),
    InstallFailed(String),
    YayNotFound,
    NetworkError(String),
    UserCancelled,
}

impl DpkgError {
    /// The process exit code that belongs to this error kind.
    pub fn exit_code(&self) -> (code: i32)
        ensures
            code == match self {
                DpkgError::ConfigNotFound { .. } => 1int,
                DpkgError::ConfigParse { .. } => 1int,
                DpkgError::PermissionDenied(_) => 2int,
                DpkgError::InstallFailed(_) => 3int,
                DpkgError::YayNotFound => 4int,
                DpkgError::NetworkError(_) => 5int,
                DpkgError::UserCancelled => 6int,
            },
    {
        match self {
            DpkgError::ConfigNotFound { .. } => 1,
            DpkgError::ConfigParse { .. } => 1,
            DpkgError::PermissionDenied(_) => 2,
            DpkgError::InstallFailed(_) => 3,
            DpkgError::YayNotFound => 4,
            DpkgError::NetworkError(_) => 5,
            DpkgError::UserCancelled => 6,
        }
    }
}

} // verus!
