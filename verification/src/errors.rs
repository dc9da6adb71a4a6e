//! Error taxonomy of the engine.
//!
//! `UrlError` is fatal to session creation, `DirectoryError` to the affected
//! directory operation, and `FileDownloadError` is what the transfer loop
//! reports. Connection-establishment failures are the only retryable kind:
//! the loop around a session is simply re-entered on those, while every
//! other failure is surfaced as a display string and leaves the session
//! paused and resumable.

use vstd::prelude::*;

verus! {

/// Why a session could not be created from a URL.
#[derive(Debug, Clone)]
pub enum UrlError {
    /// The string did not look like a URL at all.
    InvalidUrl,
    /// The probe request could not be carried out; the payload is the
    /// transport's own description of the cause.
    FailedRequest(String),
}

/// A destination directory could not be read or used.
#[derive(Debug, Clone)]
pub enum DirectoryError {
    DirParse(String),
}

/// What the transfer loop can report upward.
#[derive(Debug, Clone)]
pub enum FileDownloadError {
    /// Indexing the downloads directory failed.
    DirIndex(DirectoryError),
    /// Creating or writing the output file failed.
    FileCreation(String),
    /// The request failed after the connection was up, or the response
    /// body was broken.
    RequestFailure(String),
    /// The connection itself could not be established; transient network
    /// loss, retried silently.
    ConnectFailure(String),
    /// Passing data between the loop and its observers failed.
    WatchChannel(String),
}

impl UrlError {
    /// The text shown next to a session that failed to be created.
    pub fn message(&self) -> (r: String)
        ensures
            self is InvalidUrl ==> r@ == "Not a valid url"@,
            self matches UrlError::FailedRequest(c) ==> r@ == "Couldn't reach url: "@ + c@,
    {
        match self {
            UrlError::InvalidUrl => "Not a valid url".to_owned(),
            UrlError::FailedRequest(cause) => {
                let mut m = "Couldn't reach url: ".to_owned();
                m.append(cause.as_str());
                m
            },
        }
    }
}

impl DirectoryError {
    /// The text shown when a directory cannot be used.
    pub fn message(&self) -> (r: String)
        ensures
            self matches DirectoryError::DirParse(c) ==> r@ == "Failed to parse directory provided: "@
                + c@,
    {
        match self {
            DirectoryError::DirParse(cause) => {
                let mut m = "Failed to parse directory provided: ".to_owned();
                m.append(cause.as_str());
                m
            },
        }
    }
}

/// True exactly on the errors that the loop swallows and retries:
/// connection establishment failed, so the same session is restarted
/// rather than bothering the user.
pub open spec fn spec_is_retryable(e: FileDownloadError) -> bool {
    e is ConnectFailure
}

impl FileDownloadError {
    /// Whether the transfer loop should be silently re-entered instead of
    /// reporting this error to the observer.
    pub fn is_retryable(&self) -> (r: bool)
        ensures
            r == spec_is_retryable(*self),
    {
        match self {
            FileDownloadError::ConnectFailure(_) => true,
            _ => false,
        }
    }

    /// The text shown next to the affected session.
    pub fn message(&self) -> (r: String)
        ensures
            self matches FileDownloadError::DirIndex(d) ==> r@
                == "Indexing downloads directory failed: "@ + spec_dir_message(*d),
            self matches FileDownloadError::FileCreation(c) ==> r@ == "Creating file failed: "@
                + c@,
            self matches FileDownloadError::RequestFailure(c) ==> r@ == "Request failed: "@ + c@,
            self matches FileDownloadError::ConnectFailure(c) ==> r@
                == "Couldn't establish a connection: "@ + c@,
            self matches FileDownloadError::WatchChannel(c) ==> r@
                == "Sending the data to be written failed: "@ + c@,
    {
        match self {
            FileDownloadError::DirIndex(d) => {
                let mut m = "Indexing downloads directory failed: ".to_owned();
                let inner = d.message();
                m.append(inner.as_str());
                m
            },
            FileDownloadError::FileCreation(cause) => {
                let mut m = "Creating file failed: ".to_owned();
                m.append(cause.as_str());
                m
            },
            FileDownloadError::RequestFailure(cause) => {
                let mut m = "Request failed: ".to_owned();
                m.append(cause.as_str());
                m
            },
            FileDownloadError::ConnectFailure(cause) => {
                let mut m = "Couldn't establish a connection: ".to_owned();
                m.append(cause.as_str());
                m
            },
            FileDownloadError::WatchChannel(cause) => {
                let mut m = "Sending the data to be written failed: ".to_owned();
                m.append(cause.as_str());
                m
            },
        }
    }
}

/// What `DirectoryError::message` returns, for use in the contracts above.
pub open spec fn spec_dir_message(d: DirectoryError) -> Seq<char> {
    "Failed to parse directory provided: "@ + (d->DirParse_0)@
}

} // verus!
