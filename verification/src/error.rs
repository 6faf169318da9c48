//! The errors of the proxy.
use vstd::prelude::*;

use crate::text::join;

verus! {

/// Comprehensive error handling for the Horizon Atlas proxy. Errors of input and
/// output and of address parsing carry the text that they render to.
#[derive(Debug, PartialEq, Eq)]
pub enum ProxyError {
    /// Network I/O errors
    Io(String),
    /// Address parsing errors
    AddrParse(String),
    /// Connection errors
    Connection(String),
    /// Server transfer errors
    Transfer(String),
    /// Configuration errors
    Config(String),
    /// Client handling errors
    Client(String),
}

/// The outcome of an operation that may fail with a [`ProxyError`].
pub type Result<T> = std::result::Result<T, ProxyError>;

impl ProxyError {
    /// The words that say which kind of error this is.
    pub open spec fn heading(self) -> Seq<char> {
        match self {
            ProxyError::Io(_) => "I/O error: "@,
            ProxyError::AddrParse(_) => "Address parse error: "@,
            ProxyError::Connection(_) => "Connection error: "@,
            ProxyError::Transfer(_) => "Transfer error: "@,
            ProxyError::Config(_) => "Configuration error: "@,
            ProxyError::Client(_) => "Client error: "@,
        }
    }

    /// The detail that the error carries.
    pub open spec fn detail(self) -> Seq<char> {
        match self {
            ProxyError::Io(text) => text@,
            ProxyError::AddrParse(text) => text@,
            ProxyError::Connection(text) => text@,
            ProxyError::Transfer(text) => text@,
            ProxyError::Config(text) => text@,
            ProxyError::Client(text) => text@,
        }
    }

    /// The error as a line of text.
    pub fn message(&self) -> (result: String)
        ensures
            result@ == self.heading() + self.detail(),
    {
        match self {
            ProxyError::Io(text) => join("I/O error: ", text.as_str()),
            ProxyError::AddrParse(text) => join("Address parse error: ", text.as_str()),
            ProxyError::Connection(text) => join("Connection error: ", text.as_str()),
            ProxyError::Transfer(text) => join("Transfer error: ", text.as_str()),
            ProxyError::Config(text) => join("Configuration error: ", text.as_str()),
            ProxyError::Client(text) => join("Client error: ", text.as_str()),
        }
    }
}

} // verus!
