//! The target collection: in-memory storage of notes and notetypes, with
//! the lookup, insert and update operations the merge engine consumes.
//!
//! Well-formedness: note identifiers are unique, notetype identifiers are
//! unique, and notetype display names are unique.

use vstd::prelude::*;
use vstd::pervasive::VecAdditionalExecFns;

use crate::ids::NoteId;
use crate::media::str_eq;
use crate::ids::NotetypeId;
use crate::note::Note;
use crate::note::NoteMeta;
use crate::notetype::field_names;
use crate::notetype::template_names;
use crate::notetype::Notetype;

verus! {

pub open spec fn has_note_id(notes: Seq<Note>, id: NoteId) -> bool {
    exists|j: int| 0 <= j < notes.len() && notes[j].id == id
}

pub open spec fn has_notetype_id(nts: Seq<Notetype>, id: NotetypeId) -> bool {
    exists|j: int| 0 <= j < nts.len() && nts[j].id == id
}

/// Whether some notetype other than `excl` already uses `name`.
pub open spec fn notetype_name_used(nts: Seq<Notetype>, name: Seq<char>, excl: NotetypeId) -> bool {
    exists|j: int| 0 <= j < nts.len() && nts[j].name@ == name && nts[j].id != excl
}

/// The index projection of a full note record.
pub open spec fn meta_of(n: Note) -> NoteMeta {
    NoteMeta { id: n.id, mtime: n.mtime, notetype_id: n.notetype_id }
}

/// The first note carrying GUID `g`, projected to its index value.
pub open spec fn find_by_guid(notes: Seq<Note>, g: Seq<char>) -> Option<NoteMeta>
    decreases notes.len(),
{
    if notes.len() == 0 {
        None
    } else if notes[0].guid@ == g {
        Some(meta_of(notes[0]))
    } else {
        find_by_guid(notes.drop_first(), g)
    }
}

/// First entry of a GUID index for `g`, if any.
pub open spec fn lookup_guid(m: Seq<(String, NoteMeta)>, g: Seq<char>) -> Option<NoteMeta>
    decreases m.len(),
{
    if m.len() == 0 {
        None
    } else if m[0].0@ == g {
        Some(m[0].1)
    } else {
        lookup_guid(m.drop_first(), g)
    }
}

pub open spec fn notes_distinct(notes: Seq<Note>) -> bool {
    forall|i: int, j: int| 0 <= i < j < notes.len() ==> notes[i].id != notes[j].id
}

pub open spec fn notetypes_distinct(nts: Seq<Notetype>) -> bool {
    &&& forall|i: int, j: int| 0 <= i < j < nts.len() ==> nts[i].id != nts[j].id
    &&& forall|i: int, j: int| 0 <= i < j < nts.len() ==> nts[i].name@ != nts[j].name@
}

proof fn lemma_lookup_guid_push(m: Seq<(String, NoteMeta)>, e: (String, NoteMeta), g: Seq<char>)
    ensures
        lookup_guid(m.push(e), g) == (match lookup_guid(m, g) {
            Some(v) => Some(v),
            None => if e.0@ == g {
                Some(e.1)
            } else {
                None
            },
        }),
    decreases m.len(),
{
    assert(m.push(e).len() == m.len() + 1);
    assert(m.push(e)[0] == if m.len() == 0 {
        e
    } else {
        m[0]
    });
    if m.len() == 0 {
        assert(m.push(e).drop_first() =~= Seq::<(String, NoteMeta)>::empty());
        assert(lookup_guid(m.push(e).drop_first(), g) is None);
    } else {
        assert(m.push(e).drop_first() =~= m.drop_first().push(e));
        lemma_lookup_guid_push(m.drop_first(), e, g);
    }
}

proof fn lemma_find_by_guid_push(notes: Seq<Note>, n: Note, g: Seq<char>)
    ensures
        find_by_guid(notes.push(n), g) == (match find_by_guid(notes, g) {
            Some(v) => Some(v),
            None => if n.guid@ == g {
                Some(meta_of(n))
            } else {
                None
            },
        }),
    decreases notes.len(),
{
    assert(notes.push(n).len() == notes.len() + 1);
    assert(notes.push(n)[0] == if notes.len() == 0 {
        n
    } else {
        notes[0]
    });
    if notes.len() == 0 {
        assert(notes.push(n).drop_first() =~= Seq::<Note>::empty());
        assert(find_by_guid(notes.push(n).drop_first(), g) is None);
    } else {
        assert(notes.push(n).drop_first() =~= notes.drop_first().push(n));
        lemma_find_by_guid_push(notes.drop_first(), n, g);
    }
}

/// The target collection: the single mutable store a merge session works
/// against.
pub struct Collection {
    pub notes: Vec<Note>,
    pub notetypes: Vec<Notetype>,
}

impl Collection {
    pub open spec fn wf(&self) -> bool {
        &&& notes_distinct(self.notes@)
        &&& notetypes_distinct(self.notetypes@)
    }

    /// A fresh collection holding one notetype, named `basic`, with two
    /// fields and one card template, and no notes.
    pub fn new() -> (r: Collection)
        ensures
            r.wf(),
            r.notes@.len() == 0,
            r.notetypes@.len() == 1,
            r.notetypes@[0].id == NotetypeId(1),
            r.notetypes@[0].name@ == "basic"@,
            r.notetypes@[0].fields@.len() == 2,
    {
        let basic = Notetype {
            id: NotetypeId(1),
            name: String::from_str("basic"),
            fields: vec![
                crate::notetype::NoteField { name: String::from_str("Front") },
                crate::notetype::NoteField { name: String::from_str("Back") },
            ],
            templates: vec![crate::notetype::CardTemplate { name: String::from_str("Card 1") }],
            mtime_secs: crate::ids::TimestampSecs(0),
            usn: crate::ids::Usn(0),
        };
        let notetypes = vec![basic];
        Collection { notes: Vec::new(), notetypes }
    }

    /// The stored notetype with the given identifier, if any.
    pub fn get_notetype(&self, ntid: NotetypeId) -> (r: Option<&Notetype>)
        ensures
            match r {
                Some(nt) => nt.id == ntid && self.notetypes@.contains(*nt),
                None => !has_notetype_id(self.notetypes@, ntid),
            },
    {
        let mut i: usize = 0;
        while i < self.notetypes.len()
            invariant
                0 <= i <= self.notetypes.len(),
                forall|j: int| 0 <= j < i ==> self.notetypes@[j].id != ntid,
            decreases self.notetypes.len() - i,
        {
            if self.notetypes[i].id == ntid {
                return Some(&self.notetypes[i]);
            }
            i = i + 1;
        }
        None
    }

    /// The stored notetype with the given display name, if any.
    pub fn get_notetype_by_name(&self, name: &str) -> (r: Option<&Notetype>)
        ensures
            match r {
                Some(nt) => nt.name@ == name@ && self.notetypes@.contains(*nt),
                None => forall|j: int|
                    0 <= j < self.notetypes@.len() ==> self.notetypes@[j].name@ != name@,
            },
    {
        let mut i: usize = 0;
        while i < self.notetypes.len()
            invariant
                0 <= i <= self.notetypes.len(),
                forall|j: int| 0 <= j < i ==> self.notetypes@[j].name@ != name@,
            decreases self.notetypes.len() - i,
        {
            if str_eq(self.notetypes[i].name.as_str(), name) {
                return Some(&self.notetypes[i]);
            }
            i = i + 1;
        }
        None
    }

    /// Whether some notetype other than `excl` uses `name`.
    pub fn notetype_name_in_use(&self, name: &String, excl: NotetypeId) -> (r: bool)
        ensures
            r == notetype_name_used(self.notetypes@, name@, excl),
    {
        let mut i: usize = 0;
        while i < self.notetypes.len()
            invariant
                0 <= i <= self.notetypes.len(),
                forall|j: int|
                    0 <= j < i ==> !(self.notetypes@[j].name@ == name@ && self.notetypes@[j].id
                        != excl),
            decreases self.notetypes.len() - i,
        {
            if self.notetypes[i].name.eq(name) && !(self.notetypes[i].id == excl) {
                return true;
            }
            i = i + 1;
        }
        false
    }

    /// Renames `nt` (by appending underscores) until its display name is
    /// unique among the other notetypes of this collection; a name that is
    /// already free is kept as it is, a taken one is only ever extended,
    /// and everything but the name, in particular the structural identity,
    /// is unchanged.
    pub fn ensure_notetype_name_unique(&self, nt: &mut Notetype)
        ensures
            !notetype_name_used(self.notetypes@, final(nt).name@, final(nt).id),
            !notetype_name_used(self.notetypes@, old(nt).name@, old(nt).id) ==> final(nt).name@
                == old(nt).name@,
            final(nt).name@.take(old(nt).name@.len() as int) == old(nt).name@,
            final(nt).id == old(nt).id,
            field_names(*final(nt)) == field_names(*old(nt)),
            template_names(*final(nt)) == template_names(*old(nt)),
            final(nt).mtime_secs == old(nt).mtime_secs,
            final(nt).usn == old(nt).usn,
            final(nt).fields@ == old(nt).fields@,
            final(nt).templates@ == old(nt).templates@,
    {
        proof {
            assert(nt.name@.take(nt.name@.len() as int) =~= nt.name@);
        }
        // A name strictly longer than every stored name cannot be in use,
        // so appending one character at a time terminates.
        let mut bound: usize = nt.name.as_str().unicode_len();
        let mut i: usize = 0;
        while i < self.notetypes.len()
            invariant
                0 <= i <= self.notetypes.len(),
                nt.name@.len() <= bound,
                forall|j: int| 0 <= j < i ==> self.notetypes@[j].name@.len() <= bound,
            decreases self.notetypes.len() - i,
        {
            let l = self.notetypes[i].name.as_str().unicode_len();
            if l >= bound {
                bound = l;
            }
            i = i + 1;
        }
        while self.notetype_name_in_use(&nt.name, nt.id)
            invariant
                forall|j: int|
                    0 <= j < self.notetypes@.len() ==> self.notetypes@[j].name@.len() <= bound,
                nt.name@.len() <= bound + 1,
                nt.id == old(nt).id,
                nt.fields@ == old(nt).fields@,
                nt.templates@ == old(nt).templates@,
                nt.mtime_secs == old(nt).mtime_secs,
                nt.usn == old(nt).usn,
                nt.name@.len() >= old(nt).name@.len(),
                nt.name@.take(old(nt).name@.len() as int) == old(nt).name@,
                !notetype_name_used(self.notetypes@, old(nt).name@, old(nt).id) ==> nt.name@
                    == old(nt).name@,
            decreases bound + 1 - nt.name@.len(),
        {
            proof {
                let j = choose|j: int|
                    0 <= j < self.notetypes@.len() && self.notetypes@[j].name@ == nt.name@
                        && self.notetypes@[j].id != nt.id;
                assert(nt.name@.len() <= bound);
            }
            let ghost before = nt.name@;
            nt.name.push('_');
            proof {
                assert(nt.name@.take(old(nt).name@.len() as int) =~= before.take(
                    old(nt).name@.len() as int,
                ));
            }
        }
    }

    /// Whether this collection is well formed; the executable counterpart
    /// of [`Collection::wf`], for callers outside verified code.
    pub fn is_well_formed(&self) -> (r: bool)
        ensures
            r == self.wf(),
    {
        let mut i: usize = 0;
        while i < self.notes.len()
            invariant
                0 <= i <= self.notes.len(),
                forall|p: int, q: int|
                    0 <= p < q < self.notes@.len() && p < i ==> self.notes@[p].id
                        != self.notes@[q].id,
            decreases self.notes.len() - i,
        {
            let mut j: usize = i + 1;
            while j < self.notes.len()
                invariant
                    i < j <= self.notes.len(),
                    forall|q: int| i < q < j ==> self.notes@[i as int].id != self.notes@[q].id,
                decreases self.notes.len() - j,
            {
                if self.notes[j].id == self.notes[i].id {
                    return false;
                }
                j = j + 1;
            }
            i = i + 1;
        }
        let mut i: usize = 0;
        while i < self.notetypes.len()
            invariant
                0 <= i <= self.notetypes.len(),
                notes_distinct(self.notes@),
                forall|p: int, q: int|
                    0 <= p < q < self.notetypes@.len() && p < i ==> self.notetypes@[p].id
                        != self.notetypes@[q].id,
                forall|p: int, q: int|
                    0 <= p < q < self.notetypes@.len() && p < i ==> self.notetypes@[p].name@
                        != self.notetypes@[q].name@,
            decreases self.notetypes.len() - i,
        {
            let mut j: usize = i + 1;
            while j < self.notetypes.len()
                invariant
                    i < j <= self.notetypes.len(),
                    forall|q: int|
                        i < q < j ==> self.notetypes@[i as int].id != self.notetypes@[q].id,
                    forall|q: int|
                        i < q < j ==> self.notetypes@[i as int].name@ != self.notetypes@[q].name@,
                decreases self.notetypes.len() - j,
            {
                if self.notetypes[j].id == self.notetypes[i].id {
                    return false;
                }
                if str_eq(self.notetypes[j].name.as_str(), self.notetypes[i].name.as_str()) {
                    return false;
                }
                j = j + 1;
            }
            i = i + 1;
        }
        true
    }

    /// Inserts a notetype under its own (unused) identifier and unused name.
    pub fn add_notetype_record(&mut self, nt: Notetype)
        requires
            old(self).wf(),
            !has_notetype_id(old(self).notetypes@, nt.id),
            !notetype_name_used(old(self).notetypes@, nt.name@, nt.id),
        ensures
            final(self).wf(),
            final(self).notes@ == old(self).notes@,
            final(self).notetypes@ == old(self).notetypes@.push(nt),
    {
        self.notetypes.push(nt);
        proof {
            let nts = self.notetypes@;
            assert forall|i: int, j: int| 0 <= i < j < nts.len() implies nts[i].id != nts[j].id by {
                if j == nts.len() - 1 {
                    assert(!has_notetype_id(old(self).notetypes@, nt.id));
                }
            }
            assert forall|i: int, j: int| 0 <= i < j < nts.len() implies nts[i].name@
                != nts[j].name@ by {
                if j == nts.len() - 1 {
                    assert(!notetype_name_used(old(self).notetypes@, nt.name@, nt.id));
                    if nts[i].name@ == nt.name@ {
                        assert(nts[i].id == nt.id);
                        assert(has_notetype_id(old(self).notetypes@, nt.id));
                    }
                }
            }
        }
    }

    /// Overwrites the stored notetype that shares `nt`'s identifier.
    pub fn update_notetype_record(&mut self, nt: Notetype)
        requires
            old(self).wf(),
            has_notetype_id(old(self).notetypes@, nt.id),
            !notetype_name_used(old(self).notetypes@, nt.name@, nt.id),
        ensures
            final(self).wf(),
            final(self).notes@ == old(self).notes@,
            final(self).notetypes@.len() == old(self).notetypes@.len(),
            forall|j: int|
                0 <= j < old(self).notetypes@.len() && old(self).notetypes@[j].id != nt.id
                    ==> final(self).notetypes@[j] == old(self).notetypes@[j],
            forall|j: int|
                0 <= j < old(self).notetypes@.len() && old(self).notetypes@[j].id == nt.id
                    ==> final(self).notetypes@[j] == nt,
    {
        let mut i: usize = 0;
        while i < self.notetypes.len()
            invariant
                0 <= i <= self.notetypes.len(),
                *self == *old(self),
                old(self).wf(),
                has_notetype_id(old(self).notetypes@, nt.id),
                !notetype_name_used(old(self).notetypes@, nt.name@, nt.id),
                forall|j: int| 0 <= j < i ==> self.notetypes@[j].id != nt.id,
            decreases self.notetypes.len() - i,
        {
            if self.notetypes[i].id == nt.id {
                self.notetypes.set(i, nt);
                proof {
                    let nts = self.notetypes@;
                    let onts = old(self).notetypes@;
                    assert forall|p: int, q: int| 0 <= p < q < nts.len() implies nts[p].id
                        != nts[q].id by {
                        assert(onts[p].id != onts[q].id);
                    }
                    assert forall|p: int, q: int| 0 <= p < q < nts.len() implies nts[p].name@
                        != nts[q].name@ by {
                        if p != i && q != i {
                            assert(onts[p].name@ != onts[q].name@);
                        } else {
                            assert(!notetype_name_used(onts, nt.name@, nt.id));
                        }
                    }
                }
                return ;
            }
            i = i + 1;
        }
        proof {
            assert(!has_notetype_id(old(self).notetypes@, nt.id));
        }
    }

    /// An identifier strictly greater than every stored notetype
    /// identifier, hence unused.
    pub fn fresh_notetype_id(&self) -> (r: NotetypeId)
        requires
            forall|j: int|
                0 <= j < self.notetypes@.len() ==> self.notetypes@[j].id.0 < i64::MAX,
        ensures
            !has_notetype_id(self.notetypes@, r),
            r.0 <= 1 || (exists|j: int|
                0 <= j < self.notetypes@.len() && self.notetypes@[j].id.0 + 1 == r.0),
    {
        let mut m: i64 = 0;
        let mut i: usize = 0;
        while i < self.notetypes.len()
            invariant
                0 <= i <= self.notetypes.len(),
                forall|j: int|
                    0 <= j < self.notetypes@.len() ==> self.notetypes@[j].id.0 < i64::MAX,
                forall|j: int| 0 <= j < i ==> self.notetypes@[j].id.0 < m,
                0 <= m,
                m == 0 || (exists|j: int|
                    0 <= j < self.notetypes@.len() && self.notetypes@[j].id.0 + 1 == m),
            decreases self.notetypes.len() - i,
        {
            if self.notetypes[i].id.0 >= m {
                m = self.notetypes[i].id.0 + 1;
            }
            i = i + 1;
        }
        NotetypeId(m)
    }

    /// The stored note with the given identifier, if any.
    pub fn get_note(&self, id: NoteId) -> (r: Option<&Note>)
        ensures
            match r {
                Some(n) => n.id == id && self.notes@.contains(*n),
                None => !has_note_id(self.notes@, id),
            },
    {
        let mut i: usize = 0;
        while i < self.notes.len()
            invariant
                0 <= i <= self.notes.len(),
                forall|j: int| 0 <= j < i ==> self.notes@[j].id != id,
            decreases self.notes.len() - i,
        {
            if self.notes[i].id == id {
                return Some(&self.notes[i]);
            }
            i = i + 1;
        }
        None
    }

    /// Inserts a note under its own (unused) identifier.
    pub fn add_note_record(&mut self, n: Note)
        requires
            old(self).wf(),
            !has_note_id(old(self).notes@, n.id),
        ensures
            final(self).wf(),
            final(self).notetypes@ == old(self).notetypes@,
            final(self).notes@ == old(self).notes@.push(n),
    {
        self.notes.push(n);
        proof {
            let ns = self.notes@;
            assert forall|i: int, j: int| 0 <= i < j < ns.len() implies ns[i].id != ns[j].id by {
                if j == ns.len() - 1 {
                    assert(!has_note_id(old(self).notes@, n.id));
                }
            }
        }
    }

    /// Overwrites the stored note that shares `n`'s identifier.
    pub fn update_note_record(&mut self, n: Note)
        requires
            old(self).wf(),
            has_note_id(old(self).notes@, n.id),
        ensures
            final(self).wf(),
            final(self).notetypes@ == old(self).notetypes@,
            final(self).notes@.len() == old(self).notes@.len(),
            forall|j: int|
                0 <= j < old(self).notes@.len() && old(self).notes@[j].id != n.id
                    ==> final(self).notes@[j] == old(self).notes@[j],
            forall|j: int|
                0 <= j < old(self).notes@.len() && old(self).notes@[j].id == n.id
                    ==> final(self).notes@[j] == n,
    {
        let mut i: usize = 0;
        while i < self.notes.len()
            invariant
                0 <= i <= self.notes.len(),
                *self == *old(self),
                old(self).wf(),
                has_note_id(old(self).notes@, n.id),
                forall|j: int| 0 <= j < i ==> self.notes@[j].id != n.id,
            decreases self.notes.len() - i,
        {
            if self.notes[i].id == n.id {
                self.notes.set(i, n);
                proof {
                    let ns = self.notes@;
                    let ons = old(self).notes@;
                    assert forall|p: int, q: int| 0 <= p < q < ns.len() implies ns[p].id
                        != ns[q].id by {
                        assert(ons[p].id != ons[q].id);
                    }
                }
                return ;
            }
            i = i + 1;
        }
        proof {
            assert(!has_note_id(old(self).notes@, n.id));
        }
    }

    /// All stored note identifiers, in storage order.
    pub fn all_note_ids(&self) -> (r: Vec<NoteId>)
        ensures
            r@ == self.notes@.map_values(|n: Note| n.id),
    {
        let mut r: Vec<NoteId> = Vec::new();
        let mut i: usize = 0;
        while i < self.notes.len()
            invariant
                0 <= i <= self.notes.len(),
                r@.len() == i,
                forall|j: int| 0 <= j < i ==> r@[j] == self.notes@[j].id,
            decreases self.notes.len() - i,
        {
            r.push(self.notes[i].id);
            i = i + 1;
        }
        proof {
            assert(r@ =~= self.notes@.map_values(|n: Note| n.id));
        }
        r
    }

    /// The GUID index: a snapshot mapping each stored GUID to the index
    /// value of its (first) note.
    pub fn note_guid_map(&self) -> (r: Vec<(String, NoteMeta)>)
        ensures
            forall|g: Seq<char>| lookup_guid(r@, g) == find_by_guid(self.notes@, g),
    {
        let mut r: Vec<(String, NoteMeta)> = Vec::new();
        let mut i: usize = 0;
        proof {
            assert forall|g: Seq<char>| lookup_guid(r@, g) == find_by_guid(
                self.notes@.take(0),
                g,
            ) by {
                assert(self.notes@.take(0) =~= Seq::<Note>::empty());
            }
        }
        while i < self.notes.len()
            invariant
                0 <= i <= self.notes.len(),
                forall|g: Seq<char>| lookup_guid(r@, g) == find_by_guid(self.notes@.take(i as int), g),
            decreases self.notes.len() - i,
        {
            let n = &self.notes[i];
            let ghost rold = r@;
            let meta = NoteMeta { id: n.id, mtime: n.mtime, notetype_id: n.notetype_id };
            r.push((n.guid.clone(), meta));
            proof {
                let e = r@[r@.len() - 1];
                assert(r@ =~= rold.push(e));
                assert(e.0@ == self.notes@[i as int].guid@);
                assert(e.1 == meta_of(self.notes@[i as int]));
                assert forall|g: Seq<char>| lookup_guid(r@, g) == find_by_guid(
                    self.notes@.take(i as int + 1),
                    g,
                ) by {
                    lemma_lookup_guid_push(rold, e, g);
                    lemma_find_by_guid_push(
                        self.notes@.take(i as int),
                        self.notes@[i as int],
                        g,
                    );
                    assert(self.notes@.take(i as int + 1) =~= self.notes@.take(i as int).push(
                        self.notes@[i as int],
                    ));
                }
            }
            i = i + 1;
        }
        proof {
            assert(self.notes@.take(i as int) =~= self.notes@);
        }
        r
    }

    /// The identifier of the (first) stored note carrying `guid`, if any.
    pub fn note_id_for_guid(&self, guid: &str) -> (r: Option<NoteId>)
        ensures
            match r {
                Some(id) => find_by_guid(self.notes@, guid@) is Some && find_by_guid(
                    self.notes@,
                    guid@,
                )->Some_0.id == id,
                None => find_by_guid(self.notes@, guid@) is None,
            },
    {
        let mut i: usize = 0;
        proof {
            assert(self.notes@.skip(0) =~= self.notes@);
        }
        while i < self.notes.len()
            invariant
                0 <= i <= self.notes.len(),
                find_by_guid(self.notes@, guid@) == find_by_guid(
                    self.notes@.skip(i as int),
                    guid@,
                ),
            decreases self.notes.len() - i,
        {
            proof {
                assert(self.notes@.skip(i as int)[0] == self.notes@[i as int]);
                assert(self.notes@.skip(i as int).drop_first() =~= self.notes@.skip(i as int + 1));
            }
            if str_eq(self.notes[i].guid.as_str(), guid) {
                return Some(self.notes[i].id);
            }
            i = i + 1;
        }
        proof {
            assert(self.notes@.skip(i as int).len() == 0);
        }
        None
    }
}

} // verus!
