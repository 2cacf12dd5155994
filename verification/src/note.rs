//! Notes and the lightweight target-side projection used for GUID lookup.

use vstd::prelude::*;

use crate::ids::NoteId;
use crate::ids::NotetypeId;
use crate::ids::TimestampSecs;
use crate::ids::Usn;

verus! {

/// A note: the unit record this engine reconciles. The identifier is unique
/// within one collection; the GUID is the durable identity used to match
/// "the same logical note" across collections.
pub struct Note {
    pub id: NoteId,
    pub guid: String,
    pub notetype_id: NotetypeId,
    pub mtime: TimestampSecs,
    pub usn: Usn,
    pub fields: Vec<String>,
}

/// The field strings of a note, as sequences of characters.
pub open spec fn note_fields(n: Note) -> Seq<Seq<char>> {
    n.fields@.map_values(|s: String| s@)
}

impl Note {
    /// A fresh note of the given notetype: one empty field per notetype
    /// field, revision counter zero.
    pub fn new(
        field_count: usize,
        id: NoteId,
        guid: String,
        notetype_id: NotetypeId,
        mtime: TimestampSecs,
    ) -> (r: Note)
        ensures
            r.id == id,
            r.guid@ == guid@,
            r.notetype_id == notetype_id,
            r.mtime == mtime,
            r.usn == Usn(0),
            note_fields(r) =~= Seq::new(field_count as nat, |i: int| Seq::<char>::empty()),
    {
        let mut fields: Vec<String> = Vec::new();
        let mut i: usize = 0;
        while i < field_count
            invariant
                0 <= i <= field_count,
                fields@.len() == i,
                forall|j: int| 0 <= j < i ==> fields@[j]@ == Seq::<char>::empty(),
            decreases field_count - i,
        {
            fields.push(String::new());
            i = i + 1;
        }
        Note { id, guid, notetype_id, mtime, usn: Usn(0), fields }
    }

    /// An equal copy of this note.
    pub fn duplicate(&self) -> (r: Note)
        ensures
            r.id == self.id,
            r.guid@ == self.guid@,
            r.notetype_id == self.notetype_id,
            r.mtime == self.mtime,
            r.usn == self.usn,
            r.fields@ == self.fields@,
    {
        let fields = self.fields.clone();
        proof {
            assert(fields@ =~= self.fields@);
        }
        Note {
            id: self.id,
            guid: self.guid.clone(),
            notetype_id: self.notetype_id,
            mtime: self.mtime,
            usn: self.usn,
            fields,
        }
    }
}

/// Target-side index value: what GUID-keyed lookup needs to know of an
/// existing note without loading the full record.
#[derive(Clone, Copy, Debug, PartialEq, Eq, Structural)]
pub struct NoteMeta {
    pub id: NoteId,
    pub mtime: TimestampSecs,
    pub notetype_id: NotetypeId,
}

impl NoteMeta {
    pub fn new(id: NoteId, mtime: TimestampSecs, notetype_id: NotetypeId) -> (r: NoteMeta)
        ensures
            r == (NoteMeta { id, mtime, notetype_id }),
    {
        NoteMeta { id, mtime, notetype_id }
    }
}

} // verus!
