//! Fetch outcomes and the sources a request may name.
use vstd::prelude::*;
use crate::data::SimpleCardList;
use crate::deckbox::{DeckboxHtmlParseError, DeckboxList};
use crate::moxfield::{MoxfieldBoard, MoxfieldList, MoxfieldRetrieveError};

verus! {

/// Why a fetch failed.
#[derive(Clone, Debug)]
pub enum ErrorCause {
    /// A page lacked an element that its layout always has.
    MissingElement(DeckboxHtmlParseError),
    /// The deck API answered with a status in place of a deck.
    ReportedStatus(MoxfieldRetrieveError),
    /// A deck lacked a board that was asked for.
    MissingBoard(MoxfieldBoard),
    /// A JSON document had neither the deck shape nor the status shape.
    UnexpectedShape,
    /// A listing kept announcing a next page past this many pages.
    TooManyPages(usize),
    /// The description that a lower layer gave of its failure.
    Described(String),
}

impl ErrorCause {
    /// A copy of this cause.
    pub fn duplicate(&self) -> (r: Self)
        ensures
            r == *self,
    {
        match self {
            ErrorCause::MissingElement(e) => ErrorCause::MissingElement(e.duplicate()),
            ErrorCause::ReportedStatus(e) => ErrorCause::ReportedStatus(e.duplicate()),
            ErrorCause::MissingBoard(b) => ErrorCause::MissingBoard(*b),
            ErrorCause::UnexpectedShape => ErrorCause::UnexpectedShape,
            ErrorCause::TooManyPages(n) => ErrorCause::TooManyPages(*n),
            ErrorCause::Described(m) => ErrorCause::Described(m.clone()),
        }
    }
}

/// A failed fetch: the source could not be reached, or its payload had the wrong shape.
#[derive(Clone, Debug)]
pub enum FetchError {
    RetrievalError(ErrorCause),
    DataParseError(ErrorCause),
}

impl FetchError {
    /// A copy of this error.
    pub fn duplicate(&self) -> (r: Self)
        ensures
            r == *self,
    {
        match self {
            FetchError::RetrievalError(c) => FetchError::RetrievalError(c.duplicate()),
            FetchError::DataParseError(c) => FetchError::DataParseError(c.duplicate()),
        }
    }
}

/// Where a list comes from.
#[derive(Clone, Debug)]
pub enum CardListSource {
    Moxfield(MoxfieldList),
    Deckbox(DeckboxList),
}

pub type FetchResult = Result<SimpleCardList, FetchError>;

} // verus!
