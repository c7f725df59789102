//! Managed publish/subscribe over a peer-to-peer mesh: the verified core.
//!
//! A topic is a durable message log that its owner writes; publishers and consumers talk to the owner
//! by directed requests. This crate holds the state machines and decisions of all three:
//!
//! * [`message`], [`filter`]: messages, their bounds, attribute filters and mesh names;
//! * [`log`], [`replay`]: the durable log, its replay page by page, and honest convergence;
//! * [`subscription`], [`subscription_laws`]: server-tracked subscriptions with acks, leases, delivery
//!   attempts and dead letters, and what holds of them across operations;
//! * [`dedup`], [`ingest`], [`control`]: what the owner remembers, accepts and replies;
//! * [`protocol`], [`client`]: requests, replies and their bounds, as the other side sees them;
//! * [`caps`], [`node_id`]: capability links and what their scopes cover;
//! * [`cli`]: what the command line computes;
//! * [`operations`]: what calls of these give, and how one takes up what another gave;
//! * [`text`], [`hexcodec`], [`strmap`], [`error`]: what the rest is made of.
//!
//! Transport, storage, encoding and signatures are the application's.
pub mod caps;
pub mod cli;
pub mod client;
pub mod control;
pub mod dedup;
pub mod error;
pub mod filter;
pub mod hexcodec;
pub mod ingest;
pub mod log;
pub mod message;
pub mod node_id;
pub mod operations;
pub mod protocol;
pub mod replay;
pub mod strmap;
pub mod subscription;
pub mod subscription_laws;
pub mod text;

pub use error::PubSubError;
pub use filter::AttributeFilter;
pub use message::{Cursor, Message, PublishOptions};
pub use protocol::LeasedMessage;
pub use replay::{Replay, DEFAULT_PULL_LIMIT, MAX_PULL_LIMIT};
pub use subscription::{SubscriptionPolicy, SubscriptionState};
