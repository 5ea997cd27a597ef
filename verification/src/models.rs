//! Enumerations of the data model that plugins exchange with the host.

use vstd::prelude::*;

verus! {

/// How an accounting entry was posted.
#[derive(Debug, Clone)]
pub enum EntryStatus {
    AutoPosted,
    ManuallyPosted,
    InReview,
    Unposted,
}

/// Which side of the balance a line belongs to.
#[derive(Debug, Clone, Copy, Eq, PartialEq, Structural)]
pub enum LineType {
    Asset,
    Liability,
    Equity,
}

/// HTTP method of a request.
#[derive(Debug, Clone)]
pub enum RequestMethod {
    Get,
    Post,
    Patch,
    Put,
    Delete,
}

/// What happened to a record.
#[derive(Debug, Clone)]
pub enum RecordAction {
    Create,
    Update,
    Delete,
}

} // verus!
