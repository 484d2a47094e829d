//! Client side of a network of elders: how a client signs what it sends, how it
//! finds its elders, how it turns their answers to one query into one response,
//! and how it hands what they send back to the callers that wait for it.

pub mod client;
pub mod connection_manager;
pub mod elders;
pub mod election_laws;
pub mod error;
pub mod message_id;
pub mod pending;
pub mod query_response;
pub mod retry;
pub mod tally;
pub mod voting;
pub mod wire;

pub use connection_manager::ConnectionManager;
pub use elders::STANDARD_ELDERS_COUNT;
pub use error::Error;
pub use message_id::MessageId;
pub use query_response::QueryResponse;
