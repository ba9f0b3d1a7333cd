//! Error taxonomy of the client core.

use vstd::prelude::*;

verus! {

/// Top-level error type for all client operations.
#[derive(Debug, Clone)]
pub enum Error {
    /// HTTP transport failure, with the transport layer's message.
    Http(String),
    /// JSON decoding failure, with the decoder's message.
    Json(String),
    /// The remote service explicitly rejected the call.
    Api {
        /// Remote error code (e.g. 2 = "Incorrect ID").
        code: u16,
        /// Human-readable error message from the remote service.
        message: String,
    },
    /// Rate limit exceeded — the caller should back off.
    RateLimited,
    /// No API keys configured.
    NoKeys,
    /// Request failed with a custom message.
    Request(String),
}

impl Error {
    /// A short display form of the error, for logging by the embedding
    /// application.
    pub fn describe(&self) -> (r: String)
        ensures
            r@ == match self {
                Error::Http(m) => "HTTP error: "@ + m@,
                Error::Json(m) => "JSON error: "@ + m@,
                Error::Api { code: _, message } => "API error: "@ + message@,
                Error::RateLimited => "Rate limit exceeded"@,
                Error::NoKeys => "No API keys configured"@,
                Error::Request(m) => "Request failed: "@ + m@,
            },
    {
        proof {
            reveal_strlit("HTTP error: ");
            reveal_strlit("JSON error: ");
            reveal_strlit("API error: ");
            reveal_strlit("Rate limit exceeded");
            reveal_strlit("No API keys configured");
            reveal_strlit("Request failed: ");
        }
        match self {
            Error::Http(m) => {
                let mut r = String::from_str("HTTP error: ");
                r.append(m.as_str());
                r
            },
            Error::Json(m) => {
                let mut r = String::from_str("JSON error: ");
                r.append(m.as_str());
                r
            },
            Error::Api { code: _, message } => {
                let mut r = String::from_str("API error: ");
                r.append(message.as_str());
                r
            },
            Error::RateLimited => String::from_str("Rate limit exceeded"),
            Error::NoKeys => String::from_str("No API keys configured"),
            Error::Request(m) => {
                let mut r = String::from_str("Request failed: ");
                r.append(m.as_str());
                r
            },
        }
    }
}

} // verus!
