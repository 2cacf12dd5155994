//! A collection merge/import engine: reconciles a foreign package of notes
//! and notetypes into an existing target collection, deciding per record
//! whether to insert, update, skip, or flag as conflicting, while keeping
//! note identifiers, notetype identifiers and media references consistent,
//! and producing an auditable import log.

pub mod collection;
pub mod ids;
pub mod import;
pub mod log;
pub mod media;
pub mod note;
pub mod notetype;
pub mod queue;
