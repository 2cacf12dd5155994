//! Notetypes and their structural identity (schema) fingerprint.
//!
//! Two notetypes are structurally identical when their field names and
//! template names agree, in order. The fingerprint is a SHA-1 digest over
//! exactly those names, fed in that order, so that every collaborating
//! instance computes the same digest for the same structure.

use vstd::prelude::*;
use vstd::utf8::encode_utf8;

use crate::ids::NotetypeId;
use crate::ids::TimestampSecs;
use crate::ids::Usn;

use sha1::Digest;

verus! {

/// A field definition of a notetype; only the name takes part in the
/// structural identity.
pub struct NoteField {
    pub name: String,
}

/// A card template of a notetype; only the name takes part in the
/// structural identity.
pub struct CardTemplate {
    pub name: String,
}

/// A notetype: the schema notes of one kind share.
pub struct Notetype {
    pub id: NotetypeId,
    pub name: String,
    pub fields: Vec<NoteField>,
    pub templates: Vec<CardTemplate>,
    pub mtime_secs: TimestampSecs,
    pub usn: Usn,
}

/// The SHA-1 digest of a byte sequence. Its value is fixed by the SHA-1
/// algorithm; this engine only relies on it being a function of the bytes.
pub uninterp spec fn sha1_of(data: Seq<u8>) -> Seq<u8>;

/// Relies on `sha1::Sha1` through the `digest` crate's `Digest` trait:
/// `update` feeds bytes into the hasher and `finalize` returns the SHA-1
/// digest, a pure function of the bytes fed.
#[verifier::external_body]
fn sha1_digest(data: &Vec<u8>) -> (r: Vec<u8>)
    ensures
        r@ == sha1_of(data@),
{
    let mut hasher = sha1::Sha1::new();
    hasher.update(data.as_slice());
    hasher.finalize().to_vec()
}

/// UTF-8 bytes of a sequence of names, concatenated in order.
pub open spec fn names_bytes(names: Seq<Seq<char>>) -> Seq<u8>
    decreases names.len(),
{
    if names.len() == 0 {
        Seq::empty()
    } else {
        encode_utf8(names[0]) + names_bytes(names.drop_first())
    }
}

pub open spec fn field_names(nt: Notetype) -> Seq<Seq<char>> {
    nt.fields@.map_values(|f: NoteField| f.name@)
}

pub open spec fn template_names(nt: Notetype) -> Seq<Seq<char>> {
    nt.templates@.map_values(|t: CardTemplate| t.name@)
}

/// The bytes the schema fingerprint is computed over: field names first,
/// then template names, each in order.
pub open spec fn schema_bytes(nt: Notetype) -> Seq<u8> {
    names_bytes(field_names(nt)) + names_bytes(template_names(nt))
}

/// The structural identity fingerprint of a notetype.
pub open spec fn schema_digest(nt: Notetype) -> Seq<u8> {
    sha1_of(schema_bytes(nt))
}

impl Notetype {
    /// The stable hash of this notetype's structural identity.
    pub fn schema_hash(&self) -> (r: Vec<u8>)
        ensures
            r@ == schema_digest(*self),
    {
        let mut buf: Vec<u8> = Vec::new();
        let ghost fnames = field_names(*self);
        let ghost tnames = template_names(*self);
        let mut i: usize = 0;
        proof {
            assert(fnames.skip(0) =~= fnames);
        }
        while i < self.fields.len()
            invariant
                0 <= i <= self.fields.len(),
                fnames == field_names(*self),
                fnames.len() == self.fields.len(),
                buf@ + names_bytes(fnames.skip(i as int)) == names_bytes(fnames),
            decreases self.fields.len() - i,
        {
            let ghost before = buf@;
            buf.extend_from_slice(self.fields[i].name.as_str().as_bytes());
            proof {
                assert(buf@ =~= before + encode_utf8(fnames[i as int]));
                assert(fnames.skip(i as int)[0] == fnames[i as int]);
                assert(fnames.skip(i as int).drop_first() =~= fnames.skip(i as int + 1));
                assert(buf@ + names_bytes(fnames.skip(i as int + 1)) =~= before + names_bytes(
                    fnames.skip(i as int),
                ));
            }
            i = i + 1;
        }
        proof {
            assert(fnames.skip(i as int) =~= Seq::<Seq<char>>::empty());
            assert(buf@ =~= names_bytes(fnames));
            assert(tnames.skip(0) =~= tnames);
        }
        let ghost half = buf@;
        let mut j: usize = 0;
        while j < self.templates.len()
            invariant
                0 <= j <= self.templates.len(),
                tnames == template_names(*self),
                tnames.len() == self.templates.len(),
                buf@ + names_bytes(tnames.skip(j as int)) == half + names_bytes(tnames),
            decreases self.templates.len() - j,
        {
            let ghost before = buf@;
            buf.extend_from_slice(self.templates[j].name.as_str().as_bytes());
            proof {
                assert(buf@ =~= before + encode_utf8(tnames[j as int]));
                assert(tnames.skip(j as int)[0] == tnames[j as int]);
                assert(tnames.skip(j as int).drop_first() =~= tnames.skip(j as int + 1));
                assert(buf@ + names_bytes(tnames.skip(j as int + 1)) =~= before + names_bytes(
                    tnames.skip(j as int),
                ));
            }
            j = j + 1;
        }
        proof {
            assert(tnames.skip(j as int) =~= Seq::<Seq<char>>::empty());
            assert(buf@ =~= schema_bytes(*self));
        }
        sha1_digest(&buf)
    }

    /// An equal copy of this notetype.
    pub fn duplicate(&self) -> (r: Notetype)
        ensures
            r.id == self.id,
            r.name@ == self.name@,
            field_names(r) == field_names(*self),
            template_names(r) == template_names(*self),
            r.mtime_secs == self.mtime_secs,
            r.usn == self.usn,
            schema_digest(r) == schema_digest(*self),
    {
        let mut fields: Vec<NoteField> = Vec::new();
        let mut i: usize = 0;
        while i < self.fields.len()
            invariant
                0 <= i <= self.fields.len(),
                fields@.len() == i,
                forall|k: int| 0 <= k < i ==> fields@[k].name@ == self.fields@[k].name@,
            decreases self.fields.len() - i,
        {
            fields.push(NoteField { name: self.fields[i].name.clone() });
            i = i + 1;
        }
        let mut templates: Vec<CardTemplate> = Vec::new();
        let mut j: usize = 0;
        while j < self.templates.len()
            invariant
                0 <= j <= self.templates.len(),
                templates@.len() == j,
                forall|k: int| 0 <= k < j ==> templates@[k].name@ == self.templates@[k].name@,
            decreases self.templates.len() - j,
        {
            templates.push(CardTemplate { name: self.templates[j].name.clone() });
            j = j + 1;
        }
        let r = Notetype {
            id: self.id,
            name: self.name.clone(),
            fields,
            templates,
            mtime_secs: self.mtime_secs,
            usn: self.usn,
        };
        proof {
            assert(field_names(r) =~= field_names(*self));
            assert(template_names(r) =~= template_names(*self));
        }
        r
    }
}

/// Equality of two byte vectors.
pub fn bytes_eq(a: &Vec<u8>, b: &Vec<u8>) -> (r: bool)
    ensures
        r == (a@ == b@),
{
    if a.len() != b.len() {
        return false;
    }
    let mut i: usize = 0;
    while i < a.len()
        invariant
            0 <= i <= a.len(),
            a@.len() == b@.len(),
            forall|k: int| 0 <= k < i ==> a@[k] == b@[k],
        decreases a.len() - i,
    {
        if a[i] != b[i] {
            return false;
        }
        i = i + 1;
    }
    proof {
        assert(a@ =~= b@);
    }
    true
}

/// Unchanged structural identity gives an unchanged fingerprint: two
/// notetypes whose field names and template names agree, in order, have
/// equal schema digests, so reconciling one against the other never creates
/// a new identifier nor a remapping entry.
pub proof fn lemma_same_identity_same_digest(a: Notetype, b: Notetype)
    requires
        field_names(a) == field_names(b),
        template_names(a) == template_names(b),
    ensures
        schema_digest(a) == schema_digest(b),
{
}

} // verus!
