//! The library's error type and the messages it reads as.
use vstd::prelude::*;

verus! {

/// Everything that can go wrong in the library.
pub enum Error {
    NotConnected,
    MaxConnectionAttempts,
    AddressResolution,
    FrameTooLarge,
    AppNotFound(String),
    AppAlreadyRunning(String),
    Serialization(String),
    Transport(String),
    Other(String),
}

pub type Result<T> = core::result::Result<T, Error>;

/// The message an error reads as.
pub open spec fn error_text(error: Error) -> Seq<char> {
    match error {
        Error::NotConnected => "client is not connected"@,
        Error::MaxConnectionAttempts => "maximum connection attempts reached"@,
        Error::AddressResolution => "could not resolve address"@,
        Error::FrameTooLarge => "frame length exceeds maximum"@,
        Error::AppNotFound(name) => "app '"@ + name@ + "' not found"@,
        Error::AppAlreadyRunning(name) => "app '"@ + name@ + "' is already running"@,
        Error::Serialization(message) => "serialization error: "@ + message@,
        Error::Transport(message) => "transport error: "@ + message@,
        Error::Other(message) => message@,
    }
}

/// `head`, then `middle`, then `tail`.
fn joined(head: &str, middle: &String, tail: &str) -> (text: String)
    ensures
        text@ == head@ + middle@ + tail@,
{
    let mut text = String::from_str(head);
    text.append(middle.as_str());
    text.append(tail);
    text
}

/// `head`, then `tail`.
fn prefixed(head: &str, tail: &String) -> (text: String)
    ensures
        text@ == head@ + tail@,
{
    let mut text = String::from_str(head);
    text.append(tail.as_str());
    text
}

impl Error {
    /// The message this error reads as.
    pub fn to_string(&self) -> (text: String)
        ensures
            text@ == error_text(*self),
    {
        match self {
            Error::NotConnected => String::from_str("client is not connected"),
            Error::MaxConnectionAttempts => String::from_str("maximum connection attempts reached"),
            Error::AddressResolution => String::from_str("could not resolve address"),
            Error::FrameTooLarge => String::from_str("frame length exceeds maximum"),
            Error::AppNotFound(name) => joined("app '", name, "' not found"),
            Error::AppAlreadyRunning(name) => joined("app '", name, "' is already running"),
            Error::Serialization(message) => prefixed("serialization error: ", message),
            Error::Transport(message) => prefixed("transport error: ", message),
            Error::Other(message) => message.clone(),
        }
    }

    /// An error with a free-form message.
    pub fn other(message: &str) -> (error: Error)
        ensures
            error matches Error::Other(text) && text@ == message@,
    {
        Error::Other(String::from_str(message))
    }
}

impl From<String> for Error {
    fn from(message: String) -> (error: Error) {
        Error::Other(message)
    }
}

impl vstd::std_specs::convert::FromSpecImpl<String> for Error {
    open spec fn obeys_from_spec() -> bool {
        true
    }

    open spec fn from_spec(message: String) -> Error {
        Error::Other(message)
    }
}

} // verus!
