//! Core of a dead-man's-switch notifier: the operator's configuration, the
//! list of trusted contacts and the dispatch of notifications to them.
//!
//! The library does no input or output. The caller reads the backing
//! location into a [`store::ConfigStore`], hands it to a
//! [`protection::CivilProtection`], runs one operation, and writes the
//! store out again; messages for the mail transport come out as values and
//! the transport's answers go back in as values.

pub mod chars;
pub mod codec;
pub mod config;
pub mod email;
pub mod error;
pub mod prompt;
pub mod protection;
pub mod report;
pub mod store;
pub mod transport;

pub use config::{Config, TransportConfig};
pub use email::Identity;
pub use error::{Error, Failure};
pub use protection::{CivilProtection, LookupField};
pub use store::ConfigStore;
pub use transport::{Dispatch, Envelope, LoginStep, Reply};
