//! Client core for a rate-limited, key-authenticated REST API.
//!
//! The crate owns the request-orchestration logic of the client: credential
//! selection ([`key_pool`]), sliding-window admission control ([`rate_limit`]),
//! request building and response classification ([`http`]), the request
//! lifecycle that ties them together ([`client`]), and cursor-based page
//! navigation ([`pagination`]). Transport itself (the HTTP round trip) is
//! left to the embedding application, which drives the decision functions
//! exposed here.

pub mod client;
pub mod config;
pub mod error;
pub mod http;
pub mod key_pool;
pub mod pagination;
pub mod rate_limit;

pub use client::{DispatchStep, Dispatcher, SendPlan, TornClientBuilder};
pub use config::{ApiKeyBalancing, RateLimitMode, TornClientConfig};
pub use error::Error;
pub use key_pool::KeyPool;
pub use pagination::{PageStream, PaginatedResponse, PaginationLinks, PaginationMetadata};
pub use rate_limit::{RateLimitInfo, RateLimiter};
