//! The ways in which an operation on the market can fail.

use vstd::prelude::*;
use vstd::string::*;
use crate::ident::{uuid_text, write_uuid, AccId, SecId};

verus! {

/// Why the market turned a request down.
#[derive(Debug, PartialEq, Eq, Structural, Clone, Copy)]
pub enum MarketError {
    /// The security named in the request is not listed.
    SecDoesNotExist(SecId),
    /// The account named in the request was never opened.
    AccDoesNotExist(AccId),
    /// The security has no standing bid.
    NoBids(SecId),
    /// The security has no standing ask.
    NoAsks(SecId),
    /// A price was not a finite number.
    InvalidPrice,
    /// An identifier's text could not be read as a UUID.
    MalformedIdentifier,
}

/// How a caller is to take an answer that is not the value asked for.
#[derive(Debug, PartialEq, Eq, Structural, Clone, Copy)]
pub enum StatusKind {
    /// Nothing went wrong; there is only nothing to report yet.
    Informational,
    /// The request names something that the market does not have.
    FailedPrecondition,
    /// The request could not be read.
    DataLoss,
}

impl MarketError {
    /// How a caller is to take the error.
    pub open spec fn spec_status(self) -> StatusKind {
        match self {
            MarketError::SecDoesNotExist(_) => StatusKind::FailedPrecondition,
            MarketError::AccDoesNotExist(_) => StatusKind::FailedPrecondition,
            MarketError::NoBids(_) => StatusKind::Informational,
            MarketError::NoAsks(_) => StatusKind::Informational,
            MarketError::InvalidPrice => StatusKind::DataLoss,
            MarketError::MalformedIdentifier => StatusKind::DataLoss,
        }
    }

    /// The identifier that the error is about, if it is about one.
    pub open spec fn spec_subject(self) -> Option<u128> {
        match self {
            MarketError::SecDoesNotExist(sec) => Some(sec.0),
            MarketError::AccDoesNotExist(acc) => Some(acc.0),
            MarketError::NoBids(sec) => Some(sec.0),
            MarketError::NoAsks(sec) => Some(sec.0),
            MarketError::InvalidPrice => None,
            MarketError::MalformedIdentifier => None,
        }
    }

    /// The error in words, with `subject` for the identifier it is about.
    pub open spec fn spec_worded(self, subject: Seq<char>) -> Seq<char> {
        match self {
            MarketError::SecDoesNotExist(_) => "Security "@ + subject + " does not exist"@,
            MarketError::AccDoesNotExist(_) => "Account "@ + subject + " does not exist"@,
            MarketError::NoBids(_) => "No bids are placed for security "@ + subject,
            MarketError::NoAsks(_) => "No asks are placed for security "@ + subject,
            MarketError::InvalidPrice => "Price is not a finite number"@,
            MarketError::MalformedIdentifier => "Identifier is not a UUID"@,
        }
    }

    /// The error in words, the identifier it is about written as a UUID.
    pub open spec fn spec_message(self) -> Seq<char> {
        match self.spec_subject() {
            Some(id) => self.spec_worded(uuid_text(id)),
            None => self.spec_worded(Seq::empty()),
        }
    }

    /// How a caller is to take the error: a missing security or account fails
    /// a precondition, an unreadable number or identifier is lost data, and
    /// an empty queue is no failure.
    pub fn status(&self) -> (kind: StatusKind)
        ensures
            kind == self.spec_status(),
    {
        match self {
            MarketError::SecDoesNotExist(_) => StatusKind::FailedPrecondition,
            MarketError::AccDoesNotExist(_) => StatusKind::FailedPrecondition,
            MarketError::NoBids(_) => StatusKind::Informational,
            MarketError::NoAsks(_) => StatusKind::Informational,
            MarketError::InvalidPrice => StatusKind::DataLoss,
            MarketError::MalformedIdentifier => StatusKind::DataLoss,
        }
    }

    /// The identifier that the error is about, if it is about one.
    pub fn subject(&self) -> (id: Option<u128>)
        ensures
            id == self.spec_subject(),
    {
        match self {
            MarketError::SecDoesNotExist(sec) => Some(sec.0),
            MarketError::AccDoesNotExist(acc) => Some(acc.0),
            MarketError::NoBids(sec) => Some(sec.0),
            MarketError::NoAsks(sec) => Some(sec.0),
            MarketError::InvalidPrice => None,
            MarketError::MalformedIdentifier => None,
        }
    }

    /// The error in words, with `subject` for the identifier it is about.
    pub fn worded(&self, subject: &str) -> (text: String)
        ensures
            text@ == self.spec_worded(subject@),
    {
        match self {
            MarketError::SecDoesNotExist(_) => {
                let mut text = String::from_str("Security ");
                text.append(subject);
                text.append(" does not exist");
                text
            },
            MarketError::AccDoesNotExist(_) => {
                let mut text = String::from_str("Account ");
                text.append(subject);
                text.append(" does not exist");
                text
            },
            MarketError::NoBids(_) => {
                let mut text = String::from_str("No bids are placed for security ");
                text.append(subject);
                text
            },
            MarketError::NoAsks(_) => {
                let mut text = String::from_str("No asks are placed for security ");
                text.append(subject);
                text
            },
            MarketError::InvalidPrice => String::from_str("Price is not a finite number"),
            MarketError::MalformedIdentifier => String::from_str("Identifier is not a UUID"),
        }
    }

    /// The error in words, the identifier it is about written as a UUID.
    pub fn message(&self) -> (text: String)
        ensures
            text@ == self.spec_message(),
    {
        match self.subject() {
            Some(id) => self.worded(write_uuid(id).as_str()),
            None => {
                let nothing = String::new();
                self.worded(nothing.as_str())
            },
        }
    }
}

} // verus!
