//! A clipboard-history store: the rules of a bounded, deduplicated,
//! recency-ordered history of clipboard entries, with negative-index lookup,
//! truncated previews and the decision sequence that opens a database read-only.

pub mod error;
pub mod index;
pub mod preview;
pub mod history;
pub mod open;
