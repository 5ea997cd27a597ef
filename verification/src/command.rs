//! Commands a plugin receives from the host runtime.

use vstd::prelude::*;

verus! {

/// A command run by hand, carrying its payload.
#[derive(Debug, Clone)]
pub struct Manual<C> {
    pub command: C,
}

/// One attachment of an email command.
#[derive(Debug, Clone)]
pub struct Attachment {
    pub content_type: String,
    /// Base64-encoded content.
    pub data: String,
}

/// An email handed to a plugin.
#[derive(Debug, Clone)]
pub struct Email {
    pub from: String,
    pub to: Vec<String>,
    pub subject: String,
    pub body: String,
    pub attachments: Vec<Attachment>,
}

/// A batch of scraped items handed to a plugin.
#[derive(Debug, Clone)]
pub struct Scraper<C> {
    pub items: Vec<C>,
}

/// The join payload of a transform that joins nothing.
#[derive(Debug, Clone)]
pub struct EmptyJoins {}

} // verus!
