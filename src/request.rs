//! The instruction that the upsert carries out, and the errors around it.
use crate::locate::FindRepoError;
use vstd::prelude::*;

verus! {

/// A fully populated update: which repository and package, and which
/// release target gets which payload.
#[derive(Debug, Clone)]
pub struct Request<P> {
    pub repo_path: String,
    pub id: String,
    pub platform: String,
    /// `None` is the stable channel.
    pub channel: Option<String>,
    pub version: String,
    pub payload: P,
}

/// The same fields as [`Request`], each of them possibly still missing; the
/// payload is given by the path of a document that holds it.
#[derive(Debug, Clone, Default)]
pub struct PartialRequest {
    pub repo_path: Option<String>,
    pub id: Option<String>,
    pub platform: Option<String>,
    pub channel: Option<String>,
    pub version: Option<String>,
    pub payload_path: Option<String>,
}

/// Why a request could not be completed from user input.
#[derive(Debug)]
pub enum RequestError {
    /// The repository path could not be read.
    PathError(std::io::Error),
    /// No repository encloses the given path.
    NoRepo(FindRepoError),
    /// The payload document could not be read.
    Io(std::io::Error),
    /// The payload document is not valid TOML; the parser's message.
    PayloadToml(String),
    /// An entered value was refused.
    InvalidInput,
}

/// Why an update could not be written back.
#[derive(Debug)]
pub enum Error {
    /// A directory could not be created; its path.
    DirCreateFailed(String, std::io::Error),
    /// The descriptor file could not be written; its path.
    WriteToml(String, std::io::Error),
    /// The descriptor could not be serialized; its path and the message.
    SerializeToml(String, String),
    /// No repository encloses the given path.
    NoRepo(FindRepoError),
}

/// The channel that an entered line names: an empty line is the stable
/// channel.
pub fn channel_from_input(line: String) -> (r: Option<String>)
    ensures
        line@.len() == 0 ==> r is None,
        line@.len() > 0 ==> r == Some(line),
{
    if line.as_str().is_empty() {
        None
    } else {
        Some(line)
    }
}

} // verus!
