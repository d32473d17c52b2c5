//! The decisions behind the latest-value stream combinators: a cache of the latest item from
//! each input stream, what each combinator yields after an item arrives, the same decisions
//! replayed over a finite history of items, and the laws that relate the combinators.

pub mod history;
pub mod latest;
pub mod replay;
pub mod laws;
