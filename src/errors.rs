use vstd::prelude::*;

verus! {

/// Errors reported by the focus engine.
#[derive(Debug, Clone)]
pub enum AppError {
    ConfigError(String),
    IoError(String),
    PermissionDenied(String),
    TimerError(String),
    BlockerError(String),
}

impl AppError {
    /// The message carried by the error, whatever its kind.
    pub fn detail(&self) -> (r: &str)
        ensures
            match self {
                AppError::ConfigError(m) => r@ == m@,
                AppError::IoError(m) => r@ == m@,
                AppError::PermissionDenied(m) => r@ == m@,
                AppError::TimerError(m) => r@ == m@,
                AppError::BlockerError(m) => r@ == m@,
            },
    {
        match self {
            AppError::ConfigError(m) => m.as_str(),
            AppError::IoError(m) => m.as_str(),
            AppError::PermissionDenied(m) => m.as_str(),
            AppError::TimerError(m) => m.as_str(),
            AppError::BlockerError(m) => m.as_str(),
        }
    }
}

} // verus!
