//! Identifier and timestamp newtypes shared by the whole engine.

use vstd::prelude::*;

verus! {

/// Identifier of a note, unique within one collection.
#[derive(Clone, Copy, Debug, PartialEq, Eq, Structural)]
pub struct NoteId(pub i64);

/// Identifier of a notetype, unique within one collection.
#[derive(Clone, Copy, Debug, PartialEq, Eq, Structural)]
pub struct NotetypeId(pub i64);

/// Identifier of a card, unique within one collection.
#[derive(Clone, Copy, Debug, PartialEq, Eq, Structural)]
pub struct CardId(pub i64);

/// Revision counter: the sync generation in which a record was last touched.
#[derive(Clone, Copy, Debug, PartialEq, Eq, Structural)]
pub struct Usn(pub i32);

/// Modification timestamp, in seconds.
#[derive(Clone, Copy, Debug, PartialEq, Eq, Structural)]
pub struct TimestampSecs(pub i64);

} // verus!
