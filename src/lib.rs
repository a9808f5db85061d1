//! Card-list retrieval: DOM search, page extraction, deck decoding and
//! request aggregation, verified with Verus.
pub mod aggregate;
pub mod data;
pub mod deckbox;
pub mod dom;
pub mod fetch;
pub mod json;
pub mod moxfield;
