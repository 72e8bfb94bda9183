//! The errors that reach the caller of the orchestration.

use crate::config::IkkiConfigError;
use crate::docker::DockerError;
use vstd::prelude::*;
use vstd::string::*;

verus! {

/// Why a command failed.
#[derive(Debug)]
pub enum IkkiError {
    /// A command named an image that the configuration does not hold.
    NoSuchImage(String),
    /// The watcher of the source directories failed.
    FileWatcher,
    /// No configuration file at the given path.
    NoConfig(String),
    /// The configuration was refused.
    Config(IkkiConfigError),
    /// A build, pull or container job failed.
    Build(DockerError),
    /// Anything unexpected, such as a closed channel.
    Other(String),
}

/// Another name of [`IkkiError`].
pub type UnisonError = IkkiError;

/// The text that tells a user of an error.
pub open spec fn error_text(e: IkkiError) -> Seq<char> {
    match e {
        IkkiError::NoSuchImage(name) => "Image does not exist: "@ + name@,
        IkkiError::FileWatcher => "FS change watcher failed"@,
        IkkiError::NoConfig(path) => "No Ikki configuration file found at: "@ + path@,
        IkkiError::Config(_) => "Ikki configuration error"@,
        IkkiError::Build(_) => "Docker build failed"@,
        IkkiError::Other(text) => "Unexpected error: "@ + text@,
    }
}

impl IkkiError {
    /// The text that tells a user of this error.
    pub fn message(&self) -> (text: String)
        ensures
            text@ == error_text(*self),
    {
        match self {
            IkkiError::NoSuchImage(name) => "Image does not exist: ".to_owned().concat(
                name.as_str(),
            ),
            IkkiError::FileWatcher => "FS change watcher failed".to_owned(),
            IkkiError::NoConfig(path) => "No Ikki configuration file found at: ".to_owned().concat(
                path.as_str(),
            ),
            IkkiError::Config(_) => "Ikki configuration error".to_owned(),
            IkkiError::Build(_) => "Docker build failed".to_owned(),
            IkkiError::Other(text) => "Unexpected error: ".to_owned().concat(text.as_str()),
        }
    }
}

} // verus!
