//! The errors of the cluster-facing services.
use vstd::prelude::*;

use crate::text::join;

verus! {

/// What can go wrong in the cluster-facing services. Errors of the network, of
/// WebSocket, of serialization and of JSON carry the text that they render to.
#[derive(Debug, PartialEq, Eq)]
pub enum AtlasError {
    Config(String),
    Network(String),
    WebSocket(String),
    Serialization(String),
    Json(String),
    Crypto(String),
    ServerNotFound { server_id: String },
    RegionNotFound { region_id: String },
    ClientConnection(String),
    ServerConnection(String),
    Routing(String),
    Cluster(String),
    Discovery(String),
    HealthCheck(String),
    Transition(String),
    Authentication(String),
    Authorization(String),
    RateLimit,
    ServiceUnavailable,
    Internal(String),
}

/// The outcome of an operation that may fail with an [`AtlasError`].
pub type Result<T> = std::result::Result<T, AtlasError>;

/// The text in front of the detail, and the detail.
pub open spec fn error_parts(error: AtlasError) -> (Seq<char>, Seq<char>) {
    match error {
        AtlasError::Config(detail) => ("Configuration error: "@, detail@),
        AtlasError::Network(detail) => ("Network error: "@, detail@),
        AtlasError::WebSocket(detail) => ("WebSocket error: "@, detail@),
        AtlasError::Serialization(detail) => ("Serialization error: "@, detail@),
        AtlasError::Json(detail) => ("JSON error: "@, detail@),
        AtlasError::Crypto(detail) => ("Crypto error: "@, detail@),
        AtlasError::ServerNotFound { server_id } => ("Server not found: "@, server_id@),
        AtlasError::RegionNotFound { region_id } => ("Region not found: "@, region_id@),
        AtlasError::ClientConnection(detail) => ("Client connection error: "@, detail@),
        AtlasError::ServerConnection(detail) => ("Server connection error: "@, detail@),
        AtlasError::Routing(detail) => ("Routing error: "@, detail@),
        AtlasError::Cluster(detail) => ("Cluster error: "@, detail@),
        AtlasError::Discovery(detail) => ("Discovery error: "@, detail@),
        AtlasError::HealthCheck(detail) => ("Health check error: "@, detail@),
        AtlasError::Transition(detail) => ("Transition error: "@, detail@),
        AtlasError::Authentication(detail) => ("Authentication error: "@, detail@),
        AtlasError::Authorization(detail) => ("Authorization error: "@, detail@),
        AtlasError::RateLimit => ("Rate limit exceeded"@, Seq::empty()),
        AtlasError::ServiceUnavailable => ("Service unavailable"@, Seq::empty()),
        AtlasError::Internal(detail) => ("Internal error: "@, detail@),
    }
}

impl AtlasError {
    /// The error as a line of text.
    pub fn message(&self) -> (result: String)
        ensures
            result@ == error_parts(*self).0 + error_parts(*self).1,
    {
        match self {
            AtlasError::Config(detail) => join("Configuration error: ", detail.as_str()),
            AtlasError::Network(detail) => join("Network error: ", detail.as_str()),
            AtlasError::WebSocket(detail) => join("WebSocket error: ", detail.as_str()),
            AtlasError::Serialization(detail) => join("Serialization error: ", detail.as_str()),
            AtlasError::Json(detail) => join("JSON error: ", detail.as_str()),
            AtlasError::Crypto(detail) => join("Crypto error: ", detail.as_str()),
            AtlasError::ServerNotFound { server_id } => join(
                "Server not found: ",
                server_id.as_str(),
            ),
            AtlasError::RegionNotFound { region_id } => join(
                "Region not found: ",
                region_id.as_str(),
            ),
            AtlasError::ClientConnection(detail) => join(
                "Client connection error: ",
                detail.as_str(),
            ),
            AtlasError::ServerConnection(detail) => join(
                "Server connection error: ",
                detail.as_str(),
            ),
            AtlasError::Routing(detail) => join("Routing error: ", detail.as_str()),
            AtlasError::Cluster(detail) => join("Cluster error: ", detail.as_str()),
            AtlasError::Discovery(detail) => join("Discovery error: ", detail.as_str()),
            AtlasError::HealthCheck(detail) => join("Health check error: ", detail.as_str()),
            AtlasError::Transition(detail) => join("Transition error: ", detail.as_str()),
            AtlasError::Authentication(detail) => join("Authentication error: ", detail.as_str()),
            AtlasError::Authorization(detail) => join("Authorization error: ", detail.as_str()),
            AtlasError::RateLimit => {
                assert("Rate limit exceeded"@ + Seq::<char>::empty() =~= "Rate limit exceeded"@);
                "Rate limit exceeded".to_owned()
            },
            AtlasError::ServiceUnavailable => {
                assert("Service unavailable"@ + Seq::<char>::empty() =~= "Service unavailable"@);
                "Service unavailable".to_owned()
            },
            AtlasError::Internal(detail) => join("Internal error: ", detail.as_str()),
        }
    }

    /// The error that an HTTP client's error becomes, from its text.
    pub fn from_http(text: String) -> (result: AtlasError)
        ensures
            result == AtlasError::Network(text),
    {
        AtlasError::Network(text)
    }

    /// The error that a metrics registry's error becomes, from its text.
    pub fn from_prometheus(text: &str) -> (result: AtlasError)
        ensures
            result matches AtlasError::Internal(detail) && detail@ == "Prometheus error: "@ + text@,
    {
        AtlasError::Internal(join("Prometheus error: ", text))
    }
}

/// The text of an error is the detail behind what kind of error it is; the two errors
/// without a detail say all by themselves.
pub proof fn lemma_detail_stands_in_the_text(error: AtlasError)
    ensures
        error matches AtlasError::Routing(detail) ==> error_parts(error).1 == detail@,
        error matches AtlasError::Transition(detail) ==> error_parts(error).1 == detail@,
        error matches AtlasError::Crypto(detail) ==> error_parts(error).1 == detail@,
        error matches AtlasError::Cluster(detail) ==> error_parts(error).1 == detail@,
        error matches AtlasError::Discovery(detail) ==> error_parts(error).1 == detail@,
        error matches AtlasError::HealthCheck(detail) ==> error_parts(error).1 == detail@,
        error matches AtlasError::Config(detail) ==> error_parts(error).1 == detail@,
        error matches AtlasError::Network(detail) ==> error_parts(error).1 == detail@,
        error matches AtlasError::WebSocket(detail) ==> error_parts(error).1 == detail@,
        error matches AtlasError::Serialization(detail) ==> error_parts(error).1 == detail@,
        error matches AtlasError::Json(detail) ==> error_parts(error).1 == detail@,
        error matches AtlasError::ServerNotFound { server_id } ==> error_parts(error).1
            == server_id@,
        error matches AtlasError::RegionNotFound { region_id } ==> error_parts(error).1
            == region_id@,
        error matches AtlasError::ClientConnection(detail) ==> error_parts(error).1 == detail@,
        error matches AtlasError::ServerConnection(detail) ==> error_parts(error).1 == detail@,
        error matches AtlasError::Authentication(detail) ==> error_parts(error).1 == detail@,
        error matches AtlasError::Authorization(detail) ==> error_parts(error).1 == detail@,
        error matches AtlasError::Internal(detail) ==> error_parts(error).1 == detail@,
        error is RateLimit || error is ServiceUnavailable ==> error_parts(error).1.len() == 0,
{
}

} // verus!
