//! The merge session: notetype reconciliation, then note reconciliation.
//!
//! A session owns the target collection, snapshots of its GUID index and
//! identifier set taken at session start, the identity remapping table for
//! diverged notetypes, the media use map, and the growing import log. The
//! GUID snapshot is never refreshed mid-session; the identifier set grows
//! with every inserted note.

use vstd::prelude::*;

use crate::collection::find_by_guid;
use crate::collection::has_note_id;
use crate::collection::has_notetype_id;
use crate::collection::lookup_guid;
use crate::collection::Collection;
use crate::ids::NoteId;
use crate::ids::NotetypeId;
use crate::ids::Usn;
use crate::log::NoteImports;
use crate::log::NoteLog;
use crate::media::MediaUseMap;
use crate::note::Note;
use crate::note::NoteMeta;
use crate::notetype::Notetype;

verus! {

/// Step by which a colliding note identifier is increased until it is
/// unused.
pub const ID_BUMP_STEP: i64 = 999;

/// A fatal inconsistency between the package and the target collection.
#[derive(Clone, Copy, Debug, PartialEq, Eq, Structural)]
pub enum ImportError {
    /// A referenced notetype is neither stored nor remapped.
    NotetypeNotFound(NotetypeId),
    /// A note the GUID index points at is not stored.
    NoteNotFound(NoteId),
}

/// First entry of the identity remapping table for `k`, if any.
pub open spec fn lookup_remap(m: Seq<(NotetypeId, NotetypeId)>, k: NotetypeId) -> Option<
    NotetypeId,
>
    decreases m.len(),
{
    if m.len() == 0 {
        None
    } else if m[0].0 == k {
        Some(m[0].1)
    } else {
        lookup_remap(m.drop_first(), k)
    }
}

/// How many identifiers in `s` are at least `v`.
pub open spec fn count_ge(s: Seq<NoteId>, v: int) -> nat
    decreases s.len(),
{
    if s.len() == 0 {
        0
    } else {
        (if s[0].0 >= v {
            1nat
        } else {
            0nat
        }) + count_ge(s.drop_first(), v)
    }
}

proof fn lemma_count_ge_le_len(s: Seq<NoteId>, v: int)
    ensures
        count_ge(s, v) <= s.len(),
    decreases s.len(),
{
    if s.len() > 0 {
        lemma_count_ge_le_len(s.drop_first(), v);
    }
}

proof fn lemma_count_ge_mono(s: Seq<NoteId>, v: int, w: int)
    requires
        v <= w,
    ensures
        count_ge(s, w) <= count_ge(s, v),
    decreases s.len(),
{
    if s.len() > 0 {
        lemma_count_ge_mono(s.drop_first(), v, w);
    }
}

proof fn lemma_count_ge_pos(s: Seq<NoteId>, v: int, j: int)
    requires
        0 <= j < s.len(),
        s[j].0 >= v,
    ensures
        count_ge(s, v) >= 1,
    decreases s.len(),
{
    if j > 0 {
        lemma_count_ge_pos(s.drop_first(), v, j - 1);
    }
}

proof fn lemma_count_ge_strict(s: Seq<NoteId>, v: int, w: int, j: int)
    requires
        v <= w,
        0 <= j < s.len(),
        v <= s[j].0 < w,
    ensures
        count_ge(s, w) < count_ge(s, v),
    decreases s.len(),
{
    if j == 0 {
        lemma_count_ge_mono(s.drop_first(), v, w);
    } else {
        lemma_count_ge_strict(s.drop_first(), v, w, j - 1);
    }
}

/// The identifier a bump of `orig` tries on its `k`-th step.
pub open spec fn bump_value(orig: i64, k: int) -> int {
    orig + ID_BUMP_STEP * k
}

/// `fin` is the first identifier of the form `orig + ID_BUMP_STEP * k`
/// (k >= 0) that `ids` does not hold: every earlier step collided.
pub open spec fn bumped_from(ids: Seq<NoteId>, orig: i64, fin: i64) -> bool {
    &&& !ids.contains(NoteId(fin))
    &&& exists|k: int|
        #![trigger bump_value(orig, k)]
        {
            &&& 0 <= k
            &&& fin == bump_value(orig, k)
            &&& forall|m: int|
                0 <= m < k ==> ids.contains(NoteId(#[verifier::truncate] (bump_value(orig, m) as i64)))
        }
}

/// A freshly opened merge session: what [`NoteContext::new`] hands back
/// for the given revision counter, target collection and media use map.
pub open spec fn fresh_session(
    ctx: NoteContext,
    usn: Usn,
    col: Collection,
    media: MediaUseMap,
) -> bool {
    &&& ctx.wf()
    &&& ctx.usn == usn
    &&& ctx.target_col == col
    &&& ctx.media_map == media
    &&& ctx.remapped_notetypes@.len() == 0
    &&& ctx.imports.id_map@.len() == 0
    &&& ctx.imports.log.new@.len() == 0
    &&& ctx.imports.log.updated@.len() == 0
    &&& ctx.imports.log.duplicate@.len() == 0
    &&& ctx.imports.log.conflicting@.len() == 0
    &&& ctx.imports.log.found_notes == 0
    &&& forall|g: Seq<char>|
        #![trigger lookup_guid(ctx.target_guids@, g)]
        lookup_guid(ctx.target_guids@, g) == find_by_guid(col.notes@, g)
}

/// The state of one merge session against a target collection.
pub struct NoteContext {
    pub target_col: Collection,
    pub usn: Usn,
    pub remapped_notetypes: Vec<(NotetypeId, NotetypeId)>,
    pub target_guids: Vec<(String, NoteMeta)>,
    pub target_ids: Vec<NoteId>,
    pub media_map: MediaUseMap,
    pub imports: NoteImports,
}

impl NoteContext {
    /// Session invariant: the collection is well formed, every note the
    /// GUID index points at is stored, and the identifier set mirrors the
    /// stored notes exactly.
    pub open spec fn wf(&self) -> bool {
        &&& self.target_col.wf()
        &&& forall|g: Seq<char>|
            #![trigger lookup_guid(self.target_guids@, g)]
            lookup_guid(self.target_guids@, g) is Some ==> has_note_id(
                self.target_col.notes@,
                lookup_guid(self.target_guids@, g)->Some_0.id,
            )
        &&& self.target_ids@ == self.target_col.notes@.map_values(|n: Note| n.id)
    }

    /// Opens a merge session: snapshots the GUID index and the identifier
    /// set of the target collection, with empty remapping table and log.
    pub fn new(usn: Usn, target_col: Collection, media_map: MediaUseMap) -> (r: NoteContext)
        requires
            target_col.wf(),
        ensures
            r.wf(),
            fresh_session(r, usn, target_col, media_map),
            r.usn == usn,
            r.target_col == target_col,
            r.media_map == media_map,
            r.remapped_notetypes@.len() == 0,
            r.imports.id_map@.len() == 0,
            r.imports.log.new@.len() == 0,
            r.imports.log.updated@.len() == 0,
            r.imports.log.duplicate@.len() == 0,
            r.imports.log.conflicting@.len() == 0,
            r.imports.log.found_notes == 0,
            forall|g: Seq<char>|
                #![trigger lookup_guid(r.target_guids@, g)]
                lookup_guid(r.target_guids@, g) == find_by_guid(target_col.notes@, g),
    {
        let target_guids = target_col.note_guid_map();
        let target_ids = target_col.all_note_ids();
        let r = NoteContext {
            target_col,
            usn,
            remapped_notetypes: Vec::new(),
            target_guids,
            target_ids,
            media_map,
            imports: NoteImports::new_empty(),
        };
        proof {
            assert forall|g: Seq<char>|
                #![trigger lookup_guid(r.target_guids@, g)]
                lookup_guid(r.target_guids@, g) is Some implies has_note_id(
                r.target_col.notes@,
                lookup_guid(r.target_guids@, g)->Some_0.id,
            ) by {
                lemma_find_is_stored(r.target_col.notes@, g);
            }
        }
        r
    }

    /// The remapped identifier for `ntid`, if its notetype diverged.
    pub fn get_remapped(&self, ntid: NotetypeId) -> (r: Option<NotetypeId>)
        ensures
            r == lookup_remap(self.remapped_notetypes@, ntid),
    {
        let mut i: usize = 0;
        proof {
            assert(self.remapped_notetypes@.skip(0) =~= self.remapped_notetypes@);
        }
        while i < self.remapped_notetypes.len()
            invariant
                0 <= i <= self.remapped_notetypes.len(),
                lookup_remap(self.remapped_notetypes@, ntid) == lookup_remap(
                    self.remapped_notetypes@.skip(i as int),
                    ntid,
                ),
            decreases self.remapped_notetypes.len() - i,
        {
            proof {
                assert(self.remapped_notetypes@.skip(i as int)[0] == self.remapped_notetypes@[i as int]);
                assert(self.remapped_notetypes@.skip(i as int).drop_first()
                    =~= self.remapped_notetypes@.skip(i as int + 1));
            }
            if self.remapped_notetypes[i].0 == ntid {
                return Some(self.remapped_notetypes[i].1);
            }
            i = i + 1;
        }
        proof {
            assert(self.remapped_notetypes@.skip(i as int).len() == 0);
        }
        None
    }

    /// The GUID snapshot's entry for `guid`, if any.
    pub fn get_guid_meta(&self, guid: &String) -> (r: Option<NoteMeta>)
        ensures
            r == lookup_guid(self.target_guids@, guid@),
    {
        let mut i: usize = 0;
        proof {
            assert(self.target_guids@.skip(0) =~= self.target_guids@);
        }
        while i < self.target_guids.len()
            invariant
                0 <= i <= self.target_guids.len(),
                lookup_guid(self.target_guids@, guid@) == lookup_guid(
                    self.target_guids@.skip(i as int),
                    guid@,
                ),
            decreases self.target_guids.len() - i,
        {
            proof {
                assert(self.target_guids@.skip(i as int)[0] == self.target_guids@[i as int]);
                assert(self.target_guids@.skip(i as int).drop_first() =~= self.target_guids@.skip(
                    i as int + 1,
                ));
            }
            if self.target_guids[i].0.eq(guid) {
                return Some(self.target_guids[i].1);
            }
            i = i + 1;
        }
        proof {
            assert(self.target_guids@.skip(i as int).len() == 0);
        }
        None
    }

    /// Whether `id` is already used by a stored note.
    pub fn id_in_use(&self, id: NoteId) -> (r: bool)
        ensures
            r == self.target_ids@.contains(id),
    {
        let mut i: usize = 0;
        while i < self.target_ids.len()
            invariant
                0 <= i <= self.target_ids.len(),
                forall|j: int| 0 <= j < i ==> self.target_ids@[j] != id,
            decreases self.target_ids.len() - i,
        {
            if self.target_ids[i] == id {
                return true;
            }
            i = i + 1;
        }
        proof {
            if self.target_ids@.contains(id) {
                let j = choose|j: int| 0 <= j < self.target_ids@.len() && self.target_ids@[j] == id;
            }
        }
        false
    }

    /// Bumps the note's identifier by a fixed step until it collides with
    /// no used identifier, and returns the original identifier for the
    /// identity map. An already unused identifier is kept as it is.
    pub fn uniquify_note_id(&self, note: &mut Note) -> (r: NoteId)
        requires
            old(note).id.0 + ID_BUMP_STEP * self.target_ids@.len() <= i64::MAX,
        ensures
            r == old(note).id,
            bumped_from(self.target_ids@, old(note).id.0, final(note).id.0),
            !self.target_ids@.contains(final(note).id),
            !self.target_ids@.contains(old(note).id) ==> final(note).id == old(note).id,
            final(note).guid@ == old(note).guid@,
            final(note).notetype_id == old(note).notetype_id,
            final(note).mtime == old(note).mtime,
            final(note).usn == old(note).usn,
            final(note).fields@ == old(note).fields@,
    {
        let original = note.id;
        let ghost mut steps: int = 0;
        proof {
            lemma_count_ge_le_len(self.target_ids@, note.id.0 as int);
        }
        while self.id_in_use(note.id)
            invariant
                note.id.0 + ID_BUMP_STEP * count_ge(self.target_ids@, note.id.0 as int) <= i64::MAX,
                note.id.0 >= old(note).id.0,
                0 <= steps,
                note.id.0 == bump_value(old(note).id.0, steps),
                forall|m: int|
                    0 <= m < steps ==> self.target_ids@.contains(
                        NoteId(#[verifier::truncate] (bump_value(old(note).id.0, m) as i64)),
                    ),
                !self.target_ids@.contains(old(note).id) ==> note.id == old(note).id,
                note.guid@ == old(note).guid@,
                note.notetype_id == old(note).notetype_id,
                note.mtime == old(note).mtime,
                note.usn == old(note).usn,
                note.fields@ == old(note).fields@,
            decreases count_ge(self.target_ids@, note.id.0 as int),
        {
            proof {
                let j = choose|j: int|
                    0 <= j < self.target_ids@.len() && self.target_ids@[j] == note.id;
                lemma_count_ge_pos(self.target_ids@, note.id.0 as int, j);
                lemma_count_ge_strict(
                    self.target_ids@,
                    note.id.0 as int,
                    note.id.0 + ID_BUMP_STEP,
                    j,
                );
                lemma_count_ge_mono(
                    self.target_ids@,
                    note.id.0 as int,
                    note.id.0 + ID_BUMP_STEP,
                );
                assert(self.target_ids@.contains(
                    NoteId(#[verifier::truncate] (bump_value(old(note).id.0, steps) as i64)),
                ));
                steps = steps + 1;
            }
            note.id = NoteId(note.id.0 + ID_BUMP_STEP);
        }
        proof {
            assert(bump_value(old(note).id.0, steps) == note.id.0);
        }
        original
    }
}

/// The merge decision for one incoming note, in priority order: a note
/// whose GUID the target already has is a duplicate unless strictly newer;
/// a strictly newer note needing a notetype change conflicts; otherwise it
/// updates in place. An unseen GUID makes a new note.
pub enum Outcome {
    New,
    Updated,
    Duplicate,
    Conflicting,
}

pub open spec fn decide(ctx: NoteContext, n: Note) -> Outcome {
    match lookup_guid(ctx.target_guids@, n.guid@) {
        Some(meta) => if meta.mtime.0 >= n.mtime.0 {
            Outcome::Duplicate
        } else if meta.notetype_id != n.notetype_id || lookup_remap(
            ctx.remapped_notetypes@,
            n.notetype_id,
        ) is Some {
            Outcome::Conflicting
        } else {
            Outcome::Updated
        },
        None => Outcome::New,
    }
}

/// The index entry an incoming note's GUID matches.
pub open spec fn guid_meta(ctx: NoteContext, n: Note) -> NoteMeta {
    lookup_guid(ctx.target_guids@, n.guid@)->Some_0
}

/// The notetype a new note is stored under: the remapped identifier where
/// its notetype diverged, else its own.
pub open spec fn effective_ntid(ctx: NoteContext, n: Note) -> NotetypeId {
    match lookup_remap(ctx.remapped_notetypes@, n.notetype_id) {
        Some(t) => t,
        None => n.notetype_id,
    }
}

/// A note's fields after media reference rewriting.
pub open spec fn munged_fields(m: Seq<(Seq<char>, Seq<char>)>, n: Note) -> Seq<Seq<char>> {
    crate::note::note_fields(n).map_values(|f: Seq<char>| crate::media::rewrite_media_refs(m, f))
}

/// `s` is incoming note `n` as reconciled into the target: stored under
/// identifier `id` and notetype `ntid`, fields media-rewritten, stamped
/// with the session's revision counter.
pub open spec fn is_reconciled(
    s: Note,
    media: Seq<(Seq<char>, Seq<char>)>,
    usn: Usn,
    n: Note,
    id: NoteId,
    ntid: NotetypeId,
) -> bool {
    &&& s.id == id
    &&& s.guid@ == n.guid@
    &&& s.notetype_id == ntid
    &&& s.mtime == n.mtime
    &&& s.usn == usn
    &&& crate::note::note_fields(s) == munged_fields(media, n)
}

/// What a reconciliation step never touches.
pub open spec fn session_frame(pre: NoteContext, post: NoteContext) -> bool {
    &&& post.usn == pre.usn
    &&& post.target_col.notetypes@ == pre.target_col.notetypes@
    &&& post.media_map == pre.media_map
    &&& post.target_guids@ == pre.target_guids@
    &&& post.remapped_notetypes@ == pre.remapped_notetypes@
    &&& post.imports.log.found_notes == pre.imports.log.found_notes
}

impl NoteContext {
    /// One note field with its media references rewritten through the
    /// session's media use map.
    pub fn replace_media_refs(&self, field: &String) -> (r: String)
        ensures
            r@ == crate::media::rewrite_media_refs(self.media_map.view_entries(), field@),
    {
        crate::media::rewritten_field(&self.media_map, field)
    }

    /// Rewrites the media references of every field of `note`.
    pub fn munge_media(&self, note: &mut Note)
        ensures
            crate::note::note_fields(*final(note)) == munged_fields(
                self.media_map.view_entries(),
                *old(note),
            ),
            final(note).id == old(note).id,
            final(note).guid@ == old(note).guid@,
            final(note).notetype_id == old(note).notetype_id,
            final(note).mtime == old(note).mtime,
            final(note).usn == old(note).usn,
    {
        let ghost mv = self.media_map.view_entries();
        let mut i: usize = 0;
        while i < note.fields.len()
            invariant
                0 <= i <= note.fields.len(),
                mv == self.media_map.view_entries(),
                note.fields@.len() == old(note).fields@.len(),
                forall|j: int|
                    0 <= j < i ==> note.fields@[j]@ == crate::media::rewrite_media_refs(
                        mv,
                        old(note).fields@[j]@,
                    ),
                forall|j: int|
                    i <= j < note.fields@.len() ==> note.fields@[j] == old(note).fields@[j],
                note.id == old(note).id,
                note.guid@ == old(note).guid@,
                note.notetype_id == old(note).notetype_id,
                note.mtime == old(note).mtime,
                note.usn == old(note).usn,
            decreases note.fields.len() - i,
        {
            let rewritten = self.replace_media_refs(&note.fields[i]);
            note.fields.set(i, rewritten);
            i = i + 1;
        }
        proof {
            assert(crate::note::note_fields(*note) =~= munged_fields(mv, *old(note)));
        }
    }

    /// The stored notetype `ntid` refers to; its absence is a fatal
    /// package/target inconsistency.
    pub fn get_expected_notetype(&self, ntid: NotetypeId) -> (r: Result<&Notetype, ImportError>)
        ensures
            r is Ok <==> has_notetype_id(self.target_col.notetypes@, ntid),
            r is Ok ==> r->Ok_0.id == ntid && self.target_col.notetypes@.contains(*r->Ok_0),
            r is Err ==> r->Err_0 == ImportError::NotetypeNotFound(ntid),
    {
        match self.target_col.get_notetype(ntid) {
            Some(nt) => {
                proof {
                    let j = choose|j: int|
                        0 <= j < self.target_col.notetypes@.len() && self.target_col.notetypes@[j]
                            == *nt;
                }
                Ok(nt)
            },
            None => Err(ImportError::NotetypeNotFound(ntid)),
        }
    }

    /// The stored note `nid` refers to; its absence means the GUID index
    /// and storage disagree, a fatal inconsistency.
    pub fn get_expected_note(&self, nid: NoteId) -> (r: Result<Note, ImportError>)
        ensures
            r is Ok <==> has_note_id(self.target_col.notes@, nid),
            r is Ok ==> r->Ok_0.id == nid,
            r is Err ==> r->Err_0 == ImportError::NoteNotFound(nid),
    {
        match self.target_col.get_note(nid) {
            Some(n) => {
                proof {
                    let j = choose|j: int|
                        0 <= j < self.target_col.notes@.len() && self.target_col.notes@[j] == *n;
                }
                Ok(n.duplicate())
            },
            None => Err(ImportError::NoteNotFound(nid)),
        }
    }

    /// Inserts `note` as a fresh record: media rewritten, identifier bumped
    /// past any collision, stamped with the session revision counter,
    /// logged under `new` with its source identifier mapped to the stored
    /// one.
    pub fn add_note(&mut self, note: Note) -> (r: Result<(), ImportError>)
        requires
            old(self).wf(),
            note.id.0 + ID_BUMP_STEP * old(self).target_ids@.len() <= i64::MAX,
        ensures
            final(self).wf(),
            session_frame(*old(self), *final(self)),
            r is Ok <==> has_notetype_id(old(self).target_col.notetypes@, note.notetype_id),
            r is Err ==> *final(self) == *old(self) && r->Err_0 == ImportError::NotetypeNotFound(
                note.notetype_id,
            ),
            r is Ok ==> ({
                let s = final(self).target_col.notes@.last();
                &&& final(self).target_col.notes@.len() == old(self).target_col.notes@.len() + 1
                &&& final(self).target_col.notes@.take(old(self).target_col.notes@.len() as int)
                    == old(self).target_col.notes@
                &&& final(self).target_col.notetypes@ == old(self).target_col.notetypes@
                &&& is_reconciled(
                    s,
                    old(self).media_map.view_entries(),
                    old(self).usn,
                    note,
                    s.id,
                    note.notetype_id,
                )
                &&& !has_note_id(old(self).target_col.notes@, s.id)
                &&& (!has_note_id(old(self).target_col.notes@, note.id) ==> s.id == note.id)
                &&& bumped_from(old(self).target_ids@, note.id.0, s.id.0)
                &&& final(self).target_ids@ == old(self).target_ids@.push(s.id)
                &&& crate::log::appended_snapshot(
                    final(self).imports.log.new@,
                    old(self).imports.log.new@,
                    s,
                    s.id,
                )
                &&& crate::log::id_map_updated(
                    final(self).imports.id_map@,
                    old(self).imports.id_map@,
                    note.id,
                    s.id,
                )
                &&& final(self).imports.log.updated@ == old(self).imports.log.updated@
                &&& final(self).imports.log.duplicate@ == old(self).imports.log.duplicate@
                &&& final(self).imports.log.conflicting@ == old(self).imports.log.conflicting@
            }),
    {
        let ghost note0 = note;
        let mut note = note;
        self.munge_media(&mut note);
        if self.get_expected_notetype(note.notetype_id).is_err() {
            return Err(ImportError::NotetypeNotFound(note.notetype_id));
        }
        note.usn = self.usn;
        let old_id = self.uniquify_note_id(&mut note);
        proof {
            lemma_ids_mirror(self.target_col.notes@, self.target_ids@, note.id);
            lemma_ids_mirror(self.target_col.notes@, self.target_ids@, old_id);
        }
        let stored = note.duplicate();
        self.target_col.add_note_record(stored);
        self.target_ids.push(note.id);
        self.imports.log_new(note, old_id);
        proof {
            let s = self.target_col.notes@.last();
            assert(self.target_col.notes@.take(old(self).target_col.notes@.len() as int)
                =~= old(self).target_col.notes@);
            assert(crate::note::note_fields(s) =~= munged_fields(
                old(self).media_map.view_entries(),
                note0,
            ));
            assert(crate::log::snapshot_fields(s) =~= crate::log::snapshot_fields(note));
            assert(self.target_ids@ =~= self.target_col.notes@.map_values(|n: Note| n.id));
            assert forall|g: Seq<char>|
                #![trigger lookup_guid(self.target_guids@, g)]
                lookup_guid(self.target_guids@, g) is Some implies has_note_id(
                self.target_col.notes@,
                lookup_guid(self.target_guids@, g)->Some_0.id,
            ) by {
                let id = lookup_guid(self.target_guids@, g)->Some_0.id;
                let j = choose|j: int|
                    0 <= j < old(self).target_col.notes@.len() && old(
                        self,
                    ).target_col.notes@[j].id == id;
                assert(self.target_col.notes@[j].id == id);
            }
        }
        Ok(())
    }

    /// Overwrites the existing note `target_id` with the incoming note's
    /// content: media rewritten, identifier preserved, stamped with the
    /// session revision counter, logged under `updated` with the source
    /// identifier mapped to the target one.
    pub fn update_note(&mut self, note: Note, target_id: NoteId) -> (r: Result<(), ImportError>)
        requires
            old(self).wf(),
        ensures
            final(self).wf(),
            session_frame(*old(self), *final(self)),
            r is Ok <==> has_note_id(old(self).target_col.notes@, target_id) && has_notetype_id(
                old(self).target_col.notetypes@,
                note.notetype_id,
            ),
            r is Err ==> *final(self) == *old(self),
            r is Err && !has_note_id(old(self).target_col.notes@, target_id) ==> r->Err_0
                == ImportError::NoteNotFound(target_id),
            r is Err && has_note_id(old(self).target_col.notes@, target_id) ==> r->Err_0
                == ImportError::NotetypeNotFound(note.notetype_id),
            r is Ok ==> ({
                &&& final(self).target_col.notetypes@ == old(self).target_col.notetypes@
                &&& final(self).target_col.notes@.len() == old(self).target_col.notes@.len()
                &&& final(self).target_ids@ == old(self).target_ids@
                &&& forall|j: int|
                    0 <= j < old(self).target_col.notes@.len() && old(
                        self,
                    ).target_col.notes@[j].id != target_id ==> final(self).target_col.notes@[j]
                        == old(self).target_col.notes@[j]
                &&& forall|j: int|
                    0 <= j < old(self).target_col.notes@.len() && old(
                        self,
                    ).target_col.notes@[j].id == target_id ==> is_reconciled(
                        final(self).target_col.notes@[j],
                        old(self).media_map.view_entries(),
                        old(self).usn,
                        note,
                        target_id,
                        note.notetype_id,
                    )
                &&& forall|j: int|
                    0 <= j < old(self).target_col.notes@.len() && old(
                        self,
                    ).target_col.notes@[j].id == target_id ==> crate::log::appended_snapshot(
                        final(self).imports.log.updated@,
                        old(self).imports.log.updated@,
                        final(self).target_col.notes@[j],
                        target_id,
                    )
                &&& crate::log::id_map_updated(
                    final(self).imports.id_map@,
                    old(self).imports.id_map@,
                    note.id,
                    target_id,
                )
                &&& final(self).imports.log.new@ == old(self).imports.log.new@
                &&& final(self).imports.log.duplicate@ == old(self).imports.log.duplicate@
                &&& final(self).imports.log.conflicting@ == old(self).imports.log.conflicting@
            }),
    {
        let ghost note0 = note;
        let source_id = note.id;
        let mut note = note;
        note.id = target_id;
        proof {
            assert(crate::note::note_fields(note) =~= crate::note::note_fields(note0));
        }
        self.munge_media(&mut note);
        match self.get_expected_note(note.id) {
            Ok(_existing) => {},
            Err(e) => {
                return Err(e);
            },
        }
        match self.get_expected_notetype(note.notetype_id) {
            Ok(_nt) => {},
            Err(e) => {
                return Err(e);
            },
        }
        note.usn = self.usn;
        let stored = note.duplicate();
        self.target_col.update_note_record(stored);
        self.imports.log_updated(note, source_id);
        proof {
            assert(self.target_ids@ =~= self.target_col.notes@.map_values(|n: Note| n.id));
            assert(munged_fields(old(self).media_map.view_entries(), note0) =~= crate::note::note_fields(
                note,
            ));
            assert forall|j: int|
                0 <= j < old(self).target_col.notes@.len() && old(self).target_col.notes@[j].id
                    == target_id implies crate::note::note_fields(self.target_col.notes@[j])
                == munged_fields(old(self).media_map.view_entries(), note0) by {
                assert(crate::note::note_fields(self.target_col.notes@[j])
                    =~= crate::note::note_fields(stored));
            }
            assert(crate::log::snapshot_fields(stored) =~= crate::log::snapshot_fields(note));
            assert forall|g: Seq<char>|
                #![trigger lookup_guid(self.target_guids@, g)]
                lookup_guid(self.target_guids@, g) is Some implies has_note_id(
                self.target_col.notes@,
                lookup_guid(self.target_guids@, g)->Some_0.id,
            ) by {
                let id = lookup_guid(self.target_guids@, g)->Some_0.id;
                let j = choose|j: int|
                    0 <= j < old(self).target_col.notes@.len() && old(
                        self,
                    ).target_col.notes@[j].id == id;
                assert(self.target_col.notes@[j].id == id);
            }
        }
        Ok(())
    }
}

/// The exact effect of reconciling one note: what
/// [`NoteContext::import_note`] does, as a relation between the session
/// before the step, the incoming note, the session after, and the step's
/// result.
pub open spec fn note_reconciled(
    pre: NoteContext,
    note: Note,
    post: NoteContext,
    r: Result<(), ImportError>,
) -> bool {
    &&& session_frame(pre, post)
    &&& (decide(pre, note) is Duplicate ==> ({
                &&& r is Ok
                &&& post.target_col == pre.target_col
                &&& post.target_ids@ == pre.target_ids@
                &&& crate::log::appended_snapshot(
                    post.imports.log.duplicate@,
                    pre.imports.log.duplicate@,
                    note,
                    guid_meta(pre, note).id,
                )
                &&& crate::log::id_map_updated(
                    post.imports.id_map@,
                    pre.imports.id_map@,
                    note.id,
                    guid_meta(pre, note).id,
                )
                &&& post.imports.log.new@ == pre.imports.log.new@
                &&& post.imports.log.updated@ == pre.imports.log.updated@
                &&& post.imports.log.conflicting@ == pre.imports.log.conflicting@
    }))
    &&& (decide(pre, note) is Conflicting ==> ({
                &&& r is Ok
                &&& post.target_col == pre.target_col
                &&& post.target_ids@ == pre.target_ids@
                &&& post.imports.id_map@ == pre.imports.id_map@
                &&& crate::log::appended_snapshot(
                    post.imports.log.conflicting@,
                    pre.imports.log.conflicting@,
                    note,
                    note.id,
                )
                &&& post.imports.log.new@ == pre.imports.log.new@
                &&& post.imports.log.updated@ == pre.imports.log.updated@
                &&& post.imports.log.duplicate@ == pre.imports.log.duplicate@
    }))
    &&& (decide(pre, note) is Updated ==> ({
                &&& (r is Ok <==> has_notetype_id(
                    pre.target_col.notetypes@,
                    note.notetype_id,
                ))
                &&& (r is Err ==> post == pre && r->Err_0
                    == ImportError::NotetypeNotFound(note.notetype_id))
                &&& (r is Ok ==> ({
                    let target_id = guid_meta(pre, note).id;
                    &&& post.target_col.notetypes@ == pre.target_col.notetypes@
                    &&& post.target_col.notes@.len() == pre.target_col.notes@.len()
                    &&& post.target_ids@ == pre.target_ids@
                    &&& forall|j: int|
                        0 <= j < pre.target_col.notes@.len() && pre.target_col.notes@[j].id != target_id ==> post.target_col.notes@[j]
                            == pre.target_col.notes@[j]
                    &&& forall|j: int|
                        0 <= j < pre.target_col.notes@.len() && pre.target_col.notes@[j].id == target_id ==> is_reconciled(
                            post.target_col.notes@[j],
                            pre.media_map.view_entries(),
                            pre.usn,
                            note,
                            target_id,
                            note.notetype_id,
                        )
                    &&& forall|j: int|
                        0 <= j < pre.target_col.notes@.len() && pre.target_col.notes@[j].id == target_id
                            ==> crate::log::appended_snapshot(
                            post.imports.log.updated@,
                            pre.imports.log.updated@,
                            post.target_col.notes@[j],
                            target_id,
                        )
                    &&& crate::log::id_map_updated(
                        post.imports.id_map@,
                        pre.imports.id_map@,
                        note.id,
                        target_id,
                    )
                    &&& post.imports.log.new@ == pre.imports.log.new@
                    &&& post.imports.log.duplicate@ == pre.imports.log.duplicate@
                    &&& post.imports.log.conflicting@ == pre.imports.log.conflicting@
                }))
    }))
    &&& (decide(pre, note) is New ==> ({
                let ntid = effective_ntid(pre, note);
                &&& (r is Ok <==> has_notetype_id(pre.target_col.notetypes@, ntid))
                &&& (r is Err ==> post == pre && r->Err_0
                    == ImportError::NotetypeNotFound(ntid))
                &&& (r is Ok ==> ({
                    let s = post.target_col.notes@.last();
                    &&& post.target_col.notes@.len() == pre.target_col.notes@.len() + 1
                    &&& post.target_col.notes@.take(
                        pre.target_col.notes@.len() as int,
                    ) == pre.target_col.notes@
                    &&& post.target_col.notetypes@ == pre.target_col.notetypes@
                    &&& is_reconciled(
                        s,
                        pre.media_map.view_entries(),
                        pre.usn,
                        note,
                        s.id,
                        ntid,
                    )
                    &&& !has_note_id(pre.target_col.notes@, s.id)
                    &&& (!has_note_id(pre.target_col.notes@, note.id) ==> s.id == note.id)
                    &&& bumped_from(pre.target_ids@, note.id.0, s.id.0)
                    &&& post.target_ids@ == pre.target_ids@.push(s.id)
                    &&& crate::log::appended_snapshot(
                        post.imports.log.new@,
                        pre.imports.log.new@,
                        s,
                        s.id,
                    )
                    &&& crate::log::id_map_updated(
                        post.imports.id_map@,
                        pre.imports.id_map@,
                        note.id,
                        s.id,
                    )
                    &&& post.imports.log.updated@ == pre.imports.log.updated@
                    &&& post.imports.log.duplicate@ == pre.imports.log.duplicate@
                    &&& post.imports.log.conflicting@ == pre.imports.log.conflicting@
                }))
    }))
}

impl NoteContext {
    /// Reconciles one incoming note, in the decision priority the merge
    /// rules fix: a known GUID makes a duplicate (target equal or newer),
    /// a conflict (newer but needing a notetype change), or an in-place
    /// update; an unknown GUID makes a new note, re-pointed at its
    /// remapped notetype where its own diverged.
    pub fn import_note(&mut self, note: Note) -> (r: Result<(), ImportError>)
        requires
            old(self).wf(),
            note.id.0 + ID_BUMP_STEP * old(self).target_ids@.len() <= i64::MAX,
        ensures
            final(self).wf(),
            note_reconciled(*old(self), note, *final(self), r),

    {
        let remapped = self.get_remapped(note.notetype_id);
        match self.get_guid_meta(&note.guid) {
            Some(meta) => {
                if meta.mtime.0 < note.mtime.0 {
                    if meta.notetype_id != note.notetype_id || remapped.is_some() {
                        self.imports.log_conflicting(note);
                        Ok(())
                    } else {
                        self.update_note(note, meta.id)
                    }
                } else {
                    self.imports.log_duplicate(note, meta.id);
                    Ok(())
                }
            },
            None => {
                let ghost note0 = note;
                let mut note = note;
                match remapped {
                    Some(ntid) => {
                        note.notetype_id = ntid;
                    },
                    None => {},
                }
                proof {
                    assert(note.notetype_id == effective_ntid(*old(self), note0));
                    assert(crate::note::note_fields(note) == crate::note::note_fields(note0));
                }
                let r = self.add_note(note);
                proof {
                    if r is Ok {
                        let s = self.target_col.notes@.last();
                        assert(munged_fields(old(self).media_map.view_entries(), note)
                            =~= munged_fields(old(self).media_map.view_entries(), note0));
                    }
                }
                r
            },
        }
    }
}

/// Notetype identifiers are assumed to stay below this bound: they are
/// time-derived in practice, and the headroom lets a merge session allocate
/// a fresh identifier per incoming notetype without overflow.
pub const NOTETYPE_ID_LIMIT: i64 = 0x2000_0000_0000_0000;

/// What notetype reconciliation never touches.
pub open spec fn notetype_frame(pre: NoteContext, post: NoteContext) -> bool {
    &&& post.usn == pre.usn
    &&& post.media_map == pre.media_map
    &&& post.target_guids@ == pre.target_guids@
    &&& post.target_ids@ == pre.target_ids@
    &&& post.target_col.notes@ == pre.target_col.notes@
    &&& post.imports == pre.imports
}

/// `u` holds the (non-identity) content of `nt`: same structure, name
/// aside, same modification time.
pub open spec fn carries_content(u: Notetype, nt: Notetype) -> bool {
    &&& crate::notetype::field_names(u) == crate::notetype::field_names(nt)
    &&& crate::notetype::template_names(u) == crate::notetype::template_names(nt)
    &&& u.mtime_secs == nt.mtime_secs
}

/// `existing` agrees with the stored notetype of the same identifier on
/// everything reconciliation reads: structural digest and modification
/// time.
pub open spec fn mirrors_stored(existing: Notetype, col: Collection) -> bool {
    &&& has_notetype_id(col.notetypes@, existing.id)
    &&& forall|j: int|
        0 <= j < col.notetypes@.len() && col.notetypes@[j].id == existing.id ==> (
        crate::notetype::schema_digest(col.notetypes@[j]) == crate::notetype::schema_digest(
            existing,
        ) && col.notetypes@[j].mtime_secs == existing.mtime_secs)
}

/// How an incoming notetype is reconciled against the stored record that
/// shares its identifier: matching fingerprints keep the identifier and
/// overwrite in place only when the incoming copy is strictly newer;
/// diverged fingerprints re-create it under a fresh identifier and record
/// the remapping.
pub open spec fn reconciled_against(
    pre: NoteContext,
    nt: Notetype,
    post: NoteContext,
    existing: Notetype,
) -> bool {
    if crate::notetype::schema_digest(nt) == crate::notetype::schema_digest(existing) {
        &&& post.remapped_notetypes@ == pre.remapped_notetypes@
        &&& post.target_col.notetypes@.len() == pre.target_col.notetypes@.len()
        &&& forall|j: int|
            0 <= j < pre.target_col.notetypes@.len() && pre.target_col.notetypes@[j].id != nt.id
                ==> post.target_col.notetypes@[j] == pre.target_col.notetypes@[j]
        &&& (nt.mtime_secs.0 > existing.mtime_secs.0 ==> forall|j: int|
            0 <= j < pre.target_col.notetypes@.len() && pre.target_col.notetypes@[j].id == nt.id
                ==> (post.target_col.notetypes@[j].id == nt.id && carries_content(
                post.target_col.notetypes@[j],
                nt,
            ) && post.target_col.notetypes@[j].usn == pre.usn))
        &&& (!(nt.mtime_secs.0 > existing.mtime_secs.0) ==> post.target_col.notetypes@
            == pre.target_col.notetypes@)
    } else {
        &&& post.target_col.notetypes@.len() == pre.target_col.notetypes@.len() + 1
        &&& post.target_col.notetypes@.take(pre.target_col.notetypes@.len() as int)
            == pre.target_col.notetypes@
        &&& !has_notetype_id(
            pre.target_col.notetypes@,
            post.target_col.notetypes@.last().id,
        )
        &&& carries_content(post.target_col.notetypes@.last(), nt)
        &&& lookup_remap(post.remapped_notetypes@, nt.id) == Some(
            post.target_col.notetypes@.last().id,
        )
        &&& forall|k: NotetypeId|
            k != nt.id ==> lookup_remap(post.remapped_notetypes@, k) == lookup_remap(
                pre.remapped_notetypes@,
                k,
            )
    }
}

/// The exact effect of reconciling one incoming notetype: an identifier
/// the target does not hold is inserted as it is, under a unique name and
/// a fresh revision stamp; a held identifier is merged or re-created as
/// the schema fingerprints demand.
pub open spec fn reconciles_notetype(pre: NoteContext, nt: Notetype, post: NoteContext) -> bool {
    &&& notetype_frame(pre, post)
    &&& (!has_notetype_id(pre.target_col.notetypes@, nt.id) ==> ({
        &&& post.remapped_notetypes@ == pre.remapped_notetypes@
        &&& post.target_col.notetypes@.len() == pre.target_col.notetypes@.len() + 1
        &&& post.target_col.notetypes@.take(pre.target_col.notetypes@.len() as int)
            == pre.target_col.notetypes@
        &&& post.target_col.notetypes@.last().id == nt.id
        &&& carries_content(post.target_col.notetypes@.last(), nt)
        &&& post.target_col.notetypes@.last().usn == pre.usn
    }))
    &&& (has_notetype_id(pre.target_col.notetypes@, nt.id) ==> forall|j: int|
        0 <= j < pre.target_col.notetypes@.len() && pre.target_col.notetypes@[j].id == nt.id
            ==> #[trigger] reconciled_against(pre, nt, post, pre.target_col.notetypes@[j]))
}

/// A chain of session states threading a batch of notetypes: state `k` is
/// carried to state `k + 1` by reconciling notetype `k`.
pub open spec fn notetype_chain_ok(
    chain: Seq<NoteContext>,
    pre: NoteContext,
    nts: Seq<Notetype>,
    post: NoteContext,
) -> bool {
    &&& chain.len() == nts.len() + 1
    &&& chain[0] == pre
    &&& chain.last() == post
    &&& forall|k: int| 0 <= k < nts.len() ==> reconciles_notetype(chain[k], nts[k], chain[k + 1])
}

/// The notetypes of a package reconciled strictly in input order, each
/// step related to the session before it by [`reconciles_notetype`].
pub open spec fn notetypes_reconciled(
    pre: NoteContext,
    nts: Seq<Notetype>,
    post: NoteContext,
) -> bool {
    exists|chain: Seq<NoteContext>| notetype_chain_ok(chain, pre, nts, post)
}

impl NoteContext {
    /// Inserts an incoming notetype that the target does not have, under
    /// its own identifier, with a unique display name and a fresh revision
    /// stamp.
    pub fn add_notetype(&mut self, nt: Notetype)
        requires
            old(self).wf(),
            !has_notetype_id(old(self).target_col.notetypes@, nt.id),
        ensures
            final(self).wf(),
            notetype_frame(*old(self), *final(self)),
            final(self).remapped_notetypes@ == old(self).remapped_notetypes@,
            final(self).target_col.notetypes@.len() == old(self).target_col.notetypes@.len() + 1,
            final(self).target_col.notetypes@.take(old(self).target_col.notetypes@.len() as int)
                == old(self).target_col.notetypes@,
            final(self).target_col.notetypes@.last().id == nt.id,
            carries_content(final(self).target_col.notetypes@.last(), nt),
            final(self).target_col.notetypes@.last().usn == old(self).usn,
    {
        let mut nt = nt;
        self.target_col.ensure_notetype_name_unique(&mut nt);
        nt.usn = self.usn;
        self.target_col.add_notetype_record(nt);
    }

    /// Overwrites the stored notetype sharing the incoming one's identifier
    /// with the incoming content, keeping the identifier.
    pub fn update_notetype(&mut self, nt: Notetype)
        requires
            old(self).wf(),
            has_notetype_id(old(self).target_col.notetypes@, nt.id),
        ensures
            final(self).wf(),
            notetype_frame(*old(self), *final(self)),
            final(self).remapped_notetypes@ == old(self).remapped_notetypes@,
            final(self).target_col.notetypes@.len() == old(self).target_col.notetypes@.len(),
            forall|j: int|
                0 <= j < old(self).target_col.notetypes@.len() && old(
                    self,
                ).target_col.notetypes@[j].id != nt.id ==> final(self).target_col.notetypes@[j]
                    == old(self).target_col.notetypes@[j],
            forall|j: int|
                0 <= j < old(self).target_col.notetypes@.len() && old(
                    self,
                ).target_col.notetypes@[j].id == nt.id ==> (final(self).target_col.notetypes@[j].id == nt.id && carries_content(
                    final(self).target_col.notetypes@[j],
                    nt,
                ) && final(self).target_col.notetypes@[j].usn == old(self).usn),
    {
        let mut nt = nt;
        self.target_col.ensure_notetype_name_unique(&mut nt);
        nt.usn = self.usn;
        self.target_col.update_notetype_record(nt);
    }

    /// Inserts an incoming notetype whose schema diverged from the stored
    /// one as a brand-new record under a freshly allocated identifier, and
    /// records the remapping from its old identifier to the new one.
    pub fn add_notetype_with_remapped_id(&mut self, nt: Notetype)
        requires
            old(self).wf(),
            forall|j: int|
                0 <= j < old(self).target_col.notetypes@.len() ==> old(
                    self,
                ).target_col.notetypes@[j].id.0 < i64::MAX,
        ensures
            final(self).wf(),
            notetype_frame(*old(self), *final(self)),
            final(self).target_col.notetypes@.len() == old(self).target_col.notetypes@.len() + 1,
            final(self).target_col.notetypes@.take(old(self).target_col.notetypes@.len() as int)
                == old(self).target_col.notetypes@,
            !has_notetype_id(
                old(self).target_col.notetypes@,
                final(self).target_col.notetypes@.last().id,
            ),
            carries_content(final(self).target_col.notetypes@.last(), nt),
            final(self).target_col.notetypes@.last().usn == old(self).usn,
            lookup_remap(final(self).remapped_notetypes@, nt.id) == Some(
                final(self).target_col.notetypes@.last().id,
            ),
            forall|k: NotetypeId|
                k != nt.id ==> lookup_remap(final(self).remapped_notetypes@, k) == lookup_remap(
                    old(self).remapped_notetypes@,
                    k,
                ),
            final(self).target_col.notetypes@.last().id.0 <= 1 || (exists|j: int|
                0 <= j < old(self).target_col.notetypes@.len() && final(self).target_col.notetypes@.last().id.0 == old(self).target_col.notetypes@[j].id.0
                    + 1),
    {
        let old_id = nt.id;
        let fresh = self.target_col.fresh_notetype_id();
        let mut nt = nt;
        nt.id = fresh;
        self.target_col.ensure_notetype_name_unique(&mut nt);
        nt.usn = self.usn;
        self.target_col.add_notetype_record(nt);
        let ghost prev = self.remapped_notetypes@;
        self.remapped_notetypes.insert(0, (old_id, fresh));
        proof {
            assert(self.remapped_notetypes@[0] == (old_id, fresh));
            assert(self.remapped_notetypes@.drop_first() =~= prev);
            assert forall|k: NotetypeId| k != old_id implies lookup_remap(
                self.remapped_notetypes@,
                k,
            ) == lookup_remap(prev, k) by {
                assert(self.remapped_notetypes@[0].0 == old_id);
            }
        }
    }

    /// Reconciles one incoming notetype against the stored notetype that
    /// shares its identifier: matching fingerprints keep the identifier
    /// (overwriting in place only when the incoming copy is strictly
    /// newer); diverged fingerprints re-create the notetype under a fresh
    /// identifier and record the remapping.
    pub fn merge_or_remap_notetype(&mut self, incoming: Notetype, existing: &Notetype)
        requires
            old(self).wf(),
            incoming.id == existing.id,
            mirrors_stored(*existing, old(self).target_col),
            forall|j: int|
                0 <= j < old(self).target_col.notetypes@.len() ==> old(
                    self,
                ).target_col.notetypes@[j].id.0 < i64::MAX,
        ensures
            final(self).wf(),
            notetype_frame(*old(self), *final(self)),
            crate::notetype::schema_digest(incoming) == crate::notetype::schema_digest(*existing)
                ==> ({
                &&& final(self).remapped_notetypes@ == old(self).remapped_notetypes@
                &&& final(self).target_col.notetypes@.len() == old(
                    self,
                ).target_col.notetypes@.len()
                &&& forall|j: int|
                    0 <= j < old(self).target_col.notetypes@.len() && old(
                        self,
                    ).target_col.notetypes@[j].id != incoming.id ==> final(self).target_col.notetypes@[j] == old(self).target_col.notetypes@[j]
                &&& (incoming.mtime_secs.0 > existing.mtime_secs.0 ==> forall|j: int|
                    0 <= j < old(self).target_col.notetypes@.len() && old(
                        self,
                    ).target_col.notetypes@[j].id == incoming.id ==> (final(self).target_col.notetypes@[j].id == incoming.id && carries_content(
                        final(self).target_col.notetypes@[j],
                        incoming,
                    ) && final(self).target_col.notetypes@[j].usn == old(self).usn))
                &&& (!(incoming.mtime_secs.0 > existing.mtime_secs.0) ==> final(self).target_col.notetypes@ == old(self).target_col.notetypes@)
            }),
            crate::notetype::schema_digest(incoming) != crate::notetype::schema_digest(*existing)
                ==> ({
                &&& final(self).target_col.notetypes@.len() == old(
                    self,
                ).target_col.notetypes@.len() + 1
                &&& final(self).target_col.notetypes@.take(
                    old(self).target_col.notetypes@.len() as int,
                ) == old(self).target_col.notetypes@
                &&& !has_notetype_id(
                    old(self).target_col.notetypes@,
                    final(self).target_col.notetypes@.last().id,
                )
                &&& carries_content(final(self).target_col.notetypes@.last(), incoming)
                &&& lookup_remap(final(self).remapped_notetypes@, incoming.id) == Some(
                    final(self).target_col.notetypes@.last().id,
                )
                &&& forall|k: NotetypeId|
                    k != incoming.id ==> lookup_remap(final(self).remapped_notetypes@, k)
                        == lookup_remap(old(self).remapped_notetypes@, k)
                &&& final(self).target_col.notetypes@.last().id.0 <= 1 || (exists|j: int|
                    0 <= j < old(self).target_col.notetypes@.len() && final(self).target_col.notetypes@.last().id.0 == old(
                        self,
                    ).target_col.notetypes@[j].id.0 + 1)
            }),
    {
        let inc_hash = incoming.schema_hash();
        let ex_hash = existing.schema_hash();
        if crate::notetype::bytes_eq(&inc_hash, &ex_hash) {
            if incoming.mtime_secs.0 > existing.mtime_secs.0 {
                self.update_notetype(incoming);
            }
        } else {
            self.add_notetype_with_remapped_id(incoming);
        }
    }

    /// Reconciles the incoming notetypes, in input order, before any note
    /// is reconciled: each is added, merged in place, or re-created under a
    /// fresh identifier as its fingerprint demands.
    pub fn import_notetypes(&mut self, notetypes: Vec<Notetype>)
        requires
            old(self).wf(),
            forall|j: int|
                0 <= j < old(self).target_col.notetypes@.len() ==> old(
                    self,
                ).target_col.notetypes@[j].id.0 < NOTETYPE_ID_LIMIT,
            forall|k: int|
                0 <= k < notetypes@.len() ==> notetypes@[k].id.0 < NOTETYPE_ID_LIMIT,
            notetypes@.len() <= NOTETYPE_ID_LIMIT,
        ensures
            final(self).wf(),
            notetype_frame(*old(self), *final(self)),
            notetypes_reconciled(*old(self), notetypes@, *final(self)),
    {
        let ghost mut chain: Seq<NoteContext> = seq![*old(self)];
        let mut i: usize = 0;
        while i < notetypes.len()
            invariant
                0 <= i <= notetypes.len(),
                self.wf(),
                notetype_frame(*old(self), *self),
                chain.len() == i + 1,
                chain[0] == *old(self),
                chain.last() == *self,
                forall|k: int|
                    0 <= k < i ==> reconciles_notetype(chain[k], notetypes@[k], chain[k + 1]),
                notetypes@.len() <= NOTETYPE_ID_LIMIT,
                forall|k: int| 0 <= k < notetypes@.len() ==> notetypes@[k].id.0 < NOTETYPE_ID_LIMIT,
                forall|j: int|
                    0 <= j < self.target_col.notetypes@.len() ==> self.target_col.notetypes@[j].id.0
                        < NOTETYPE_ID_LIMIT + i,
            decreases notetypes.len() - i,
        {
            let nt = notetypes[i].duplicate();
            let ghost pre = *self;
            let ghost gnt = nt;
            match self.target_col.get_notetype(nt.id) {
                Some(eref) => {
                    let e = eref.duplicate();
                    let ghost ge = e;
                    proof {
                        let nts = self.target_col.notetypes@;
                        let j0 = choose|j0: int| 0 <= j0 < nts.len() && nts[j0] == *eref;
                        assert forall|j: int|
                            0 <= j < nts.len() && nts[j].id == e.id implies (
                        crate::notetype::schema_digest(nts[j]) == crate::notetype::schema_digest(e)
                            && nts[j].mtime_secs == e.mtime_secs) by {
                            if j < j0 {
                                assert(nts[j].id != nts[j0].id);
                            } else if j0 < j {
                                assert(nts[j0].id != nts[j].id);
                            }
                            assert(nts[j] == *eref);
                        }
                        assert(nts[j0].id == e.id);
                        assert(has_notetype_id(nts, e.id));
                    }
                    self.merge_or_remap_notetype(nt, &e);
                    proof {
                        let prents = pre.target_col.notetypes@;
                        let nts = self.target_col.notetypes@;
                        if crate::notetype::schema_digest(gnt) == crate::notetype::schema_digest(
                            ge,
                        ) {
                            assert forall|j: int| 0 <= j < nts.len() implies nts[j].id.0
                                < NOTETYPE_ID_LIMIT + i + 1 by {
                                if prents[j].id == gnt.id {
                                    assert(nts[j].id == gnt.id);
                                }
                            }
                        } else {
                            assert forall|j: int| 0 <= j < nts.len() implies nts[j].id.0
                                < NOTETYPE_ID_LIMIT + i + 1 by {
                                if j < prents.len() {
                                    assert(nts[j] == nts.take(prents.len() as int)[j]);
                                } else {
                                    assert(nts[j] == nts.last());
                                }
                            }
                        }
                        let orig = notetypes@[i as int];
                        assert(crate::notetype::schema_digest(gnt)
                            == crate::notetype::schema_digest(orig));
                        assert(crate::notetype::field_names(gnt) == crate::notetype::field_names(
                            orig,
                        ));
                        assert(crate::notetype::template_names(gnt)
                            == crate::notetype::template_names(orig));
                        assert(gnt.mtime_secs == orig.mtime_secs && gnt.id == orig.id);
                        assert forall|j: int|
                            0 <= j < prents.len() && prents[j].id == orig.id implies
                            #[trigger] reconciled_against(pre, orig, *self, prents[j]) by {
                            assert(crate::notetype::schema_digest(prents[j])
                                == crate::notetype::schema_digest(ge));
                            assert(prents[j].mtime_secs == ge.mtime_secs);
                        }
                        assert(reconciles_notetype(pre, orig, *self));
                    }
                },
                None => {
                    self.add_notetype(nt);
                    proof {
                        let prents = pre.target_col.notetypes@;
                        let nts = self.target_col.notetypes@;
                        assert forall|j: int| 0 <= j < nts.len() implies nts[j].id.0
                            < NOTETYPE_ID_LIMIT + i + 1 by {
                            if j < prents.len() {
                                assert(nts[j] == nts.take(prents.len() as int)[j]);
                            } else {
                                assert(nts[j] == nts.last());
                                assert(nts[j].id == gnt.id);
                            }
                        }
                        let orig = notetypes@[i as int];
                        assert(crate::notetype::field_names(gnt) == crate::notetype::field_names(
                            orig,
                        ));
                        assert(crate::notetype::template_names(gnt)
                            == crate::notetype::template_names(orig));
                        assert(gnt.mtime_secs == orig.mtime_secs && gnt.id == orig.id);
                        assert(reconciles_notetype(pre, orig, *self));
                    }
                },
            }
            proof {
                let ghost prev = chain;
                chain = chain.push(*self);
                assert forall|k: int|
                    0 <= k < i + 1 implies reconciles_notetype(
                    chain[k],
                    notetypes@[k],
                    chain[k + 1],
                ) by {
                    assert(chain[k] == prev[k]);
                    if k < i {
                        assert(chain[k + 1] == prev[k + 1]);
                    } else {
                        assert(chain[k + 1] == *self);
                        assert(prev[k] == pre);
                    }
                }
            }
            i = i + 1;
        }
        proof {
            assert(notetype_chain_ok(chain, *old(self), notetypes@, *self));
        }
    }

    /// Reconciles the incoming notes, one at a time in input order, against
    /// the session's pre-built GUID snapshot and the incrementally grown
    /// identifier set; records how many notes the source held first. A
    /// fatal not-found error aborts the remaining batch, leaving earlier
    /// mutations in place.
    pub fn import_notes(&mut self, notes: Vec<Note>) -> (r: Result<(), ImportError>)
        requires
            old(self).wf(),
            notes@.len() <= u32::MAX,
            forall|k: int|
                0 <= k < notes@.len() ==> notes@[k].id.0 + ID_BUMP_STEP * (old(
                    self,
                ).target_ids@.len() + notes@.len()) <= i64::MAX,
        ensures
            final(self).wf(),
            final(self).usn == old(self).usn,
            final(self).media_map == old(self).media_map,
            final(self).target_guids@ == old(self).target_guids@,
            final(self).remapped_notetypes@ == old(self).remapped_notetypes@,
            final(self).target_col.notetypes@ == old(self).target_col.notetypes@,
            final(self).imports.log.found_notes == notes@.len() as u32,
            notes_imported(
                ctx_with_found(*old(self), notes@.len() as u32),
                notes@,
                *final(self),
                r,
            ),
    {
        let ghost all = notes@;
        self.imports.log.found_notes = notes.len() as u32;
        let ghost start = *self;
        let ghost mut chain: Seq<NoteContext> = seq![start];
        proof {
            assert(start == ctx_with_found(*old(self), all.len() as u32));
        }
        let mut remaining = notes;
        let mut i: usize = 0;
        while remaining.len() > 0
            invariant
                all == notes@,
                i + remaining@.len() == all.len(),
                remaining@ == all.skip(i as int),
                all.len() <= u32::MAX,
                self.wf(),
                start == ctx_with_found(*old(self), all.len() as u32),
                self.usn == old(self).usn,
                self.media_map == old(self).media_map,
                self.target_guids@ == old(self).target_guids@,
                self.remapped_notetypes@ == old(self).remapped_notetypes@,
                self.target_col.notetypes@ == old(self).target_col.notetypes@,
                chain.len() == i + 1,
                chain[0] == start,
                chain.last() == *self,
                forall|k: int|
                    0 <= k < i ==> note_reconciled(chain[k], all[k], chain[k + 1], Ok(())),
                self.target_ids@.len() <= old(self).target_ids@.len() + i,
                self.imports.log.found_notes == all.len() as u32,
                forall|k: int|
                    0 <= k < all.len() ==> all[k].id.0 + ID_BUMP_STEP * (old(
                        self,
                    ).target_ids@.len() + all.len()) <= i64::MAX,
            decreases remaining@.len(),
        {
            let ghost pre_step = *self;
            let note = remaining.remove(0);
            proof {
                assert(all.skip(i as int)[0] == all[i as int]);
                assert(all.skip(i as int).drop_first() =~= all.skip(i as int + 1));
            }
            let step = self.import_note(note);
            match step {
                Ok(()) => {
                    proof {
                        let ghost prev = chain;
                        chain = chain.push(*self);
                        assert(chain.last() == *self);
                        assert forall|k: int|
                            0 <= k < i + 1 implies note_reconciled(
                            chain[k],
                            all[k],
                            chain[k + 1],
                            Ok(()),
                        ) by {
                            assert(chain[k] == prev[k]);
                            if k < i {
                                assert(chain[k + 1] == prev[k + 1]);
                            } else {
                                assert(chain[k + 1] == *self);
                                assert(prev[k] == pre_step);
                            }
                        }
                    }
                },
                Err(e) => {
                    proof {
                        assert(chain.last() == pre_step);
                        assert(note_chain_ok(chain, start, all, *self, Err(e)));
                    }
                    return Err(e);
                },
            }
            i = i + 1;
        }
        proof {
            assert(chain.len() == all.len() + 1);
            assert(note_chain_ok(chain, start, all, *self, Ok(())));
        }
        Ok(())
    }
}

/// The session with the count of source notes recorded, everything else as
/// it was: the state a batch run starts from.
pub open spec fn ctx_with_found(ctx: NoteContext, n: u32) -> NoteContext {
    NoteContext {
        target_col: ctx.target_col,
        usn: ctx.usn,
        remapped_notetypes: ctx.remapped_notetypes,
        target_guids: ctx.target_guids,
        target_ids: ctx.target_ids,
        media_map: ctx.media_map,
        imports: NoteImports {
            id_map: ctx.imports.id_map,
            log: NoteLog {
                new: ctx.imports.log.new,
                updated: ctx.imports.log.updated,
                duplicate: ctx.imports.log.duplicate,
                conflicting: ctx.imports.log.conflicting,
                found_notes: n,
            },
        },
    }
}

/// A chain of session states threading a batch of notes: state `k` is
/// carried to state `k + 1` by reconciling note `k`, each step succeeding;
/// a chain shorter than the batch stops at the first failing step, whose
/// error is the batch's result and whose state is the batch's final state.
pub open spec fn note_chain_ok(
    chain: Seq<NoteContext>,
    pre: NoteContext,
    notes: Seq<Note>,
    post: NoteContext,
    r: Result<(), ImportError>,
) -> bool {
    &&& 1 <= chain.len() <= notes.len() + 1
    &&& chain[0] == pre
    &&& forall|k: int|
        0 <= k < chain.len() - 1 ==> note_reconciled(chain[k], notes[k], chain[k + 1], Ok(()))
    &&& if chain.len() == notes.len() + 1 {
        &&& r is Ok
        &&& post == chain.last()
    } else {
        &&& r is Err
        &&& note_reconciled(chain.last(), notes[chain.len() - 1], post, r)
    }
}

/// The notes of a batch reconciled strictly in input order: each step is
/// related to the session before it by [`note_reconciled`]; a failing step
/// ends the batch with its error and the later notes untouched, keeping
/// every earlier step's effect in place.
pub open spec fn notes_imported(
    pre: NoteContext,
    notes: Seq<Note>,
    post: NoteContext,
    r: Result<(), ImportError>,
) -> bool {
    exists|chain: Seq<NoteContext>| note_chain_ok(chain, pre, notes, post, r)
}

/// A decoded foreign package together with the target collection it is to
/// be merged into.
pub struct Context {
    pub usn: Usn,
    pub target_col: Collection,
    pub notetypes: Vec<Notetype>,
    pub notes: Vec<Note>,
}

impl Context {
    /// Runs a whole merge session: notetypes first (their remapping feeds
    /// note reconciliation), then notes in input order. Returns the merged
    /// collection and the import log with the identity map; a fatal
    /// not-found error leaves earlier mutations in place and is returned
    /// as is.
    pub fn import_notes_and_notetypes(self, media_map: MediaUseMap) -> (r: (
        Collection,
        Result<NoteImports, ImportError>,
    ))
        requires
            self.target_col.wf(),
            forall|j: int|
                0 <= j < self.target_col.notetypes@.len() ==> self.target_col.notetypes@[j].id.0
                    < NOTETYPE_ID_LIMIT,
            forall|k: int|
                0 <= k < self.notetypes@.len() ==> self.notetypes@[k].id.0 < NOTETYPE_ID_LIMIT,
            self.notetypes@.len() <= NOTETYPE_ID_LIMIT,
            self.notes@.len() <= u32::MAX,
            forall|k: int|
                0 <= k < self.notes@.len() ==> self.notes@[k].id.0 + ID_BUMP_STEP * (
                self.target_col.notes@.len() + self.notes@.len()) <= i64::MAX,
        ensures
            r.0.wf(),
            r.1 is Ok ==> r.1->Ok_0.log.found_notes == self.notes@.len() as u32,
            exists|ctx0: NoteContext, ctx1: NoteContext, ctx2: NoteContext, rr: Result<
                (),
                ImportError,
            >|
                #![trigger notetypes_reconciled(ctx0, self.notetypes@, ctx1), notes_imported(
                    ctx_with_found(ctx1, self.notes@.len() as u32),
                    self.notes@,
                    ctx2,
                    rr,
                )]
                {
                    &&& fresh_session(ctx0, self.usn, self.target_col, media_map)
                    &&& notetypes_reconciled(ctx0, self.notetypes@, ctx1)
                    &&& notes_imported(
                        ctx_with_found(ctx1, self.notes@.len() as u32),
                        self.notes@,
                        ctx2,
                        rr,
                    )
                    &&& r.0 == ctx2.target_col
                    &&& (rr is Ok ==> r.1 == Ok::<NoteImports, ImportError>(ctx2.imports))
                    &&& (rr is Err ==> r.1 == Err::<NoteImports, ImportError>(rr->Err_0))
                },
    {
        let Context { usn, target_col, notetypes, notes } = self;
        let ghost gcol = target_col;
        let ghost gmedia = media_map;
        let ghost gnts = notetypes@;
        let ghost gnotes = notes@;
        let mut ctx = NoteContext::new(usn, target_col, media_map);
        let ghost c0 = ctx;
        ctx.import_notetypes(notetypes);
        let ghost c1 = ctx;
        let outcome = ctx.import_notes(notes);
        let ghost c2 = ctx;
        proof {
            assert(fresh_session(c0, usn, gcol, gmedia));
            assert(notetypes_reconciled(c0, gnts, c1));
            assert(notes_imported(ctx_with_found(c1, gnotes.len() as u32), gnotes, c2, outcome));
        }
        match outcome {
            Ok(()) => (ctx.target_col, Ok(ctx.imports)),
            Err(e) => (ctx.target_col, Err(e)),
        }
    }
}

/// The identifier set mirrors the stored notes: an identifier is in one
/// exactly when it is in the other.
proof fn lemma_ids_mirror(notes: Seq<Note>, ids: Seq<NoteId>, id: NoteId)
    requires
        ids == notes.map_values(|n: Note| n.id),
    ensures
        ids.contains(id) <==> has_note_id(notes, id),
{
    if ids.contains(id) {
        let j = choose|j: int| 0 <= j < ids.len() && ids[j] == id;
        assert(notes[j].id == id);
    }
    if has_note_id(notes, id) {
        let j = choose|j: int| 0 <= j < notes.len() && notes[j].id == id;
        assert(ids[j] == id);
    }
}

/// A GUID the index finds belongs to a stored note.
proof fn lemma_find_is_stored(notes: Seq<Note>, g: Seq<char>)
    ensures
        find_by_guid(notes, g) is Some ==> has_note_id(notes, find_by_guid(notes, g)->Some_0.id),
    decreases notes.len(),
{
    if notes.len() > 0 {
        if notes[0].guid@ == g {
            assert(notes[0].id == find_by_guid(notes, g)->Some_0.id);
        } else {
            lemma_find_is_stored(notes.drop_first(), g);
            if find_by_guid(notes, g) is Some {
                let id = find_by_guid(notes, g)->Some_0.id;
                let j = choose|j: int|
                    0 <= j < notes.drop_first().len() && notes.drop_first()[j].id == id;
                assert(notes[j + 1].id == id);
            }
        }
    }
}

} // verus!
