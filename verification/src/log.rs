//! The import log and identity map: a pure accumulator of merge outcomes.
//!
//! Every reconciled note is appended to exactly one of the four outcome
//! sequences, as a snapshot of its fields at decision time (media
//! references reduced to their filenames), and — except for conflicts —
//! one entry maps its source identifier to the identifier it now has, or
//! will have, in the target collection.

use vstd::prelude::*;

use crate::ids::NoteId;
use crate::media::strip_media_refs;
use crate::media::stripped_field;
use crate::note::note_fields;
use crate::note::Note;

verus! {

/// A logged snapshot of one reconciled note.
pub struct LogNote {
    pub id: NoteId,
    pub fields: Vec<String>,
}

pub open spec fn log_fields(l: LogNote) -> Seq<Seq<char>> {
    l.fields@.map_values(|s: String| s@)
}

/// The field snapshot the log keeps of a note.
pub open spec fn snapshot_fields(n: Note) -> Seq<Seq<char>> {
    note_fields(n).map_values(|f: Seq<char>| strip_media_refs(f))
}

/// `v` is `prev` with a snapshot of note `n` appended under identifier `id`.
pub open spec fn appended_snapshot(v: Seq<LogNote>, prev: Seq<LogNote>, n: Note, id: NoteId) -> bool {
    &&& v.len() == prev.len() + 1
    &&& v.take(prev.len() as int) == prev
    &&& v.last().id == id
    &&& log_fields(v.last()) == snapshot_fields(n)
}

/// The snapshot of a note for the log.
pub fn into_log_note(n: &Note, id: NoteId) -> (r: LogNote)
    ensures
        r.id == id,
        log_fields(r) == snapshot_fields(*n),
{
    let mut fields: Vec<String> = Vec::new();
    let mut i: usize = 0;
    while i < n.fields.len()
        invariant
            0 <= i <= n.fields.len(),
            fields@.len() == i,
            forall|j: int| 0 <= j < i ==> fields@[j]@ == strip_media_refs(n.fields@[j]@),
        decreases n.fields.len() - i,
    {
        fields.push(stripped_field(&n.fields[i]));
        i = i + 1;
    }
    let r = LogNote { id, fields };
    proof {
        assert(log_fields(r) =~= snapshot_fields(*n));
    }
    r
}

/// First entry of the identity map for `k`, if any.
pub open spec fn lookup_id(m: Seq<(NoteId, NoteId)>, k: NoteId) -> Option<NoteId>
    decreases m.len(),
{
    if m.len() == 0 {
        None
    } else if m[0].0 == k {
        Some(m[0].1)
    } else {
        lookup_id(m.drop_first(), k)
    }
}

/// `v` is `prev` with `k` now mapped to `val` and every other key unchanged.
pub open spec fn id_map_updated(
    v: Seq<(NoteId, NoteId)>,
    prev: Seq<(NoteId, NoteId)>,
    k: NoteId,
    val: NoteId,
) -> bool {
    &&& lookup_id(v, k) == Some(val)
    &&& forall|k2: NoteId| k2 != k ==> lookup_id(v, k2) == lookup_id(prev, k2)
}

/// The four outcome sequences and the count of notes seen in the source.
pub struct NoteLog {
    pub new: Vec<LogNote>,
    pub updated: Vec<LogNote>,
    pub duplicate: Vec<LogNote>,
    pub conflicting: Vec<LogNote>,
    pub found_notes: u32,
}

/// The import log plus the source-identifier to target-identifier map
/// consumed by the card-import phase.
pub struct NoteImports {
    pub id_map: Vec<(NoteId, NoteId)>,
    pub log: NoteLog,
}

impl NoteImports {
    pub fn new_empty() -> (r: NoteImports)
        ensures
            r.id_map@.len() == 0,
            r.log.new@.len() == 0,
            r.log.updated@.len() == 0,
            r.log.duplicate@.len() == 0,
            r.log.conflicting@.len() == 0,
            r.log.found_notes == 0,
    {
        NoteImports {
            id_map: Vec::new(),
            log: NoteLog {
                new: Vec::new(),
                updated: Vec::new(),
                duplicate: Vec::new(),
                conflicting: Vec::new(),
                found_notes: 0,
            },
        }
    }

    /// Maps `k` to `val`, overriding any earlier entry for `k`.
    fn id_map_insert(&mut self, k: NoteId, val: NoteId)
        ensures
            id_map_updated(final(self).id_map@, old(self).id_map@, k, val),
            final(self).log == old(self).log,
    {
        let ghost prev = self.id_map@;
        self.id_map.insert(0, (k, val));
        proof {
            assert(self.id_map@[0] == (k, val));
            assert(self.id_map@.drop_first() =~= prev);
            assert forall|k2: NoteId| k2 != k implies lookup_id(self.id_map@, k2) == lookup_id(
                prev,
                k2,
            ) by {
                assert(self.id_map@[0].0 == k);
            }
        }
    }

    /// Logs a freshly inserted note: its snapshot under its (possibly
    /// bumped) stored identifier, and the identity of its source
    /// identifier with that stored identifier.
    pub fn log_new(&mut self, note: Note, source_id: NoteId)
        ensures
            appended_snapshot(final(self).log.new@, old(self).log.new@, note, note.id),
            id_map_updated(final(self).id_map@, old(self).id_map@, source_id, note.id),
            final(self).log.updated@ == old(self).log.updated@,
            final(self).log.duplicate@ == old(self).log.duplicate@,
            final(self).log.conflicting@ == old(self).log.conflicting@,
            final(self).log.found_notes == old(self).log.found_notes,
    {
        self.id_map_insert(source_id, note.id);
        let entry = into_log_note(&note, note.id);
        let ghost prev = self.log.new@;
        self.log.new.push(entry);
        proof {
            assert(self.log.new@.take(prev.len() as int) =~= prev);
        }
    }

    /// Logs an in-place update of an existing note.
    pub fn log_updated(&mut self, note: Note, source_id: NoteId)
        ensures
            appended_snapshot(final(self).log.updated@, old(self).log.updated@, note, note.id),
            id_map_updated(final(self).id_map@, old(self).id_map@, source_id, note.id),
            final(self).log.new@ == old(self).log.new@,
            final(self).log.duplicate@ == old(self).log.duplicate@,
            final(self).log.conflicting@ == old(self).log.conflicting@,
            final(self).log.found_notes == old(self).log.found_notes,
    {
        self.id_map_insert(source_id, note.id);
        let entry = into_log_note(&note, note.id);
        let ghost prev = self.log.updated@;
        self.log.updated.push(entry);
        proof {
            assert(self.log.updated@.take(prev.len() as int) =~= prev);
        }
    }

    /// Logs a skipped note whose GUID the target already has with
    /// equal-or-newer content. The snapshot's identifier is overwritten to
    /// the existing target identifier, so that log consumers can look the
    /// note up in the target collection.
    pub fn log_duplicate(&mut self, note: Note, target_id: NoteId)
        ensures
            appended_snapshot(final(self).log.duplicate@, old(self).log.duplicate@, note, target_id),
            id_map_updated(final(self).id_map@, old(self).id_map@, note.id, target_id),
            final(self).log.new@ == old(self).log.new@,
            final(self).log.updated@ == old(self).log.updated@,
            final(self).log.conflicting@ == old(self).log.conflicting@,
            final(self).log.found_notes == old(self).log.found_notes,
    {
        self.id_map_insert(note.id, target_id);
        let entry = into_log_note(&note, target_id);
        let ghost prev = self.log.duplicate@;
        self.log.duplicate.push(entry);
        proof {
            assert(self.log.duplicate@.take(prev.len() as int) =~= prev);
        }
    }

    /// Logs a note that would need a notetype change to merge; nothing is
    /// mutated and no identity is recorded.
    pub fn log_conflicting(&mut self, note: Note)
        ensures
            appended_snapshot(
                final(self).log.conflicting@,
                old(self).log.conflicting@,
                note,
                note.id,
            ),
            final(self).id_map@ == old(self).id_map@,
            final(self).log.new@ == old(self).log.new@,
            final(self).log.updated@ == old(self).log.updated@,
            final(self).log.duplicate@ == old(self).log.duplicate@,
            final(self).log.found_notes == old(self).log.found_notes,
    {
        let entry = into_log_note(&note, note.id);
        let ghost prev = self.log.conflicting@;
        self.log.conflicting.push(entry);
        proof {
            assert(self.log.conflicting@.take(prev.len() as int) =~= prev);
        }
    }
}

} // verus!
