//! What can go wrong, kept apart by cause: the state of the configuration,
//! the validity of what was entered, and the mail transport.

use crate::email::{Identity, IdentityView};
use vstd::prelude::*;

verus! {

/// One recipient that a notification did not reach, and why.
#[derive(Debug, PartialEq, Eq)]
pub struct Failure {
    pub recipient: Identity,
    pub reason: String,
}

/// The mathematical value of a [`Failure`].
pub struct FailureView {
    pub recipient: IdentityView,
    pub reason: Seq<char>,
}

impl View for Failure {
    type V = FailureView;

    open spec fn view(&self) -> FailureView {
        FailureView { recipient: self.recipient@, reason: self.reason@ }
    }
}

/// The outcome of an operation that did not succeed.
#[derive(Debug, PartialEq, Eq)]
pub enum Error {
    /// No configuration has been set up yet.
    NotConfigured,
    /// Setup was asked for while a configuration exists.
    AlreadyConfigured,
    /// The operator's address does not have the outline of an email address.
    InvalidEmail,
    /// A squadmate with the same address is already listed.
    DuplicateSquadmate,
    /// No squadmate has the address that was to be removed.
    NotFound,
    /// The stored configuration is present but cannot be read back.
    Corrupt,
    /// The mail server refused the login, with the transport's reason.
    Auth(String),
    /// Some recipients were not reached; every one of them is listed, in
    /// the order of the squadmate list.
    Send(Vec<Failure>),
}

/// The values of a list of failures, in order.
pub open spec fn failure_views(failures: Seq<Failure>) -> Seq<FailureView> {
    failures.map_values(|f: Failure| f@)
}

} // verus!
