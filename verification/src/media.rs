//! Media reference rewriting.
//!
//! Note fields may embed media file references of the form
//! `<img src='NAME'>` (single or double quotes). Before a note is stored,
//! every referenced filename is normalized and, where the media use map has
//! an entry for it, replaced by the target collection's filename for that
//! file. The import log stores fields with each media reference reduced to
//! its (space-padded) filename.
//!
//! Normalization here is the engine's own policy: a filename is kept
//! unchanged when it is safe (non-empty and free of path separators and
//! other reserved punctuation); an unsafe name cannot be normalized, and
//! its reference is left untouched.

use vstd::prelude::*;

verus! {

/// One parsed piece of a note field, spec level: a literal character, or a
/// media reference carrying its filename and the quote character used.
pub enum PieceV {
    Lit(char),
    MediaRef { name: Seq<char>, quote: char },
}

/// One parsed piece of a note field, executable level.
pub enum FieldPiece {
    Lit(char),
    MediaRef { name: String, quote: char },
}

pub open spec fn piece_view(p: FieldPiece) -> PieceV {
    match p {
        FieldPiece::Lit(c) => PieceV::Lit(c),
        FieldPiece::MediaRef { name, quote } => PieceV::MediaRef { name: name@, quote },
    }
}

pub open spec fn pieces_view(ps: Seq<FieldPiece>) -> Seq<PieceV> {
    ps.map_values(|p: FieldPiece| piece_view(p))
}

pub open spec fn is_quote(c: char) -> bool {
    c == '\'' || c == '"'
}

/// The fixed opening of a media reference, before the quoted filename.
pub open spec fn tag_open() -> Seq<char> {
    seq!['<', 'i', 'm', 'g', ' ', 's', 'r', 'c', '=']
}

/// Index of the first occurrence of `q` in `s` at or after `j`, if any.
pub open spec fn find_char(s: Seq<char>, j: int, q: char) -> Option<int>
    decreases s.len() - j,
    when 0 <= j <= s.len()
{
    if j >= s.len() {
        None
    } else if s[j] == q {
        Some(j)
    } else {
        find_char(s, j + 1, q)
    }
}

pub proof fn lemma_find_char_range(s: Seq<char>, j: int, q: char)
    requires
        0 <= j <= s.len(),
    ensures
        match find_char(s, j, q) {
            Some(k) => j <= k < s.len() && s[k] == q && (forall|m: int| j <= m < k ==> s[m] != q),
            None => forall|m: int| j <= m < s.len() ==> s[m] != q,
        },
    decreases s.len() - j,
{
    if j < s.len() && s[j] != q {
        lemma_find_char_range(s, j + 1, q);
    }
}

/// If a media reference starts at index `i` of `s`, the referenced filename
/// and the index just past the reference.
pub open spec fn match_ref(s: Seq<char>, i: int) -> Option<(Seq<char>, int)> {
    if 0 <= i && i + 10 <= s.len() && s.subrange(i, i + 9) == tag_open() && is_quote(s[i + 9]) {
        let q = s[i + 9];
        match find_char(s, i + 10, q) {
            Some(k) => if k + 1 < s.len() && s[k + 1] == '>' {
                Some((s.subrange(i + 10, k), k + 2))
            } else {
                None
            },
            None => None,
        }
    } else {
        None
    }
}

pub proof fn lemma_match_ref_range(s: Seq<char>, i: int)
    requires
        0 <= i <= s.len(),
        match_ref(s, i) is Some,
    ensures
        i + 12 <= match_ref(s, i)->Some_0.1 <= s.len(),
{
    lemma_find_char_range(s, i + 10, s[i + 9]);
}

/// The canonical parse of `s` from index `i` on: a left-to-right scan that
/// takes a media reference wherever one starts, and a literal character
/// everywhere else.
pub open spec fn parse_from(s: Seq<char>, i: int) -> Seq<PieceV>
    decreases s.len() - i,
    when 0 <= i <= s.len()
    via parse_from_decreases
{
    if i >= s.len() {
        Seq::empty()
    } else {
        match match_ref(s, i) {
            Some((name, end)) => seq![PieceV::MediaRef { name, quote: s[i + 9] }] + parse_from(
                s,
                end,
            ),
            None => seq![PieceV::Lit(s[i])] + parse_from(s, i + 1),
        }
    }
}

#[via_fn]
proof fn parse_from_decreases(s: Seq<char>, i: int) {
    if 0 <= i < s.len() && match_ref(s, i) is Some {
        lemma_match_ref_range(s, i);
    }
}

/// A character acceptable in a normalized media filename.
pub open spec fn safe_char(c: char) -> bool {
    c != '/' && c != '\\' && c != ':' && c != '*' && c != '?' && c != '"' && c != '<' && c != '>'
        && c != '|'
}

/// A filename that normalization keeps unchanged; any other name cannot be
/// normalized and its reference is left untouched.
pub open spec fn safe_name(n: Seq<char>) -> bool {
    n.len() > 0 && (forall|i: int| 0 <= i < n.len() ==> safe_char(n[i]))
}

/// First entry of the media use map for `name`, if any.
pub open spec fn media_lookup(m: Seq<(Seq<char>, Seq<char>)>, name: Seq<char>) -> Option<
    Seq<char>,
>
    decreases m.len(),
{
    if m.len() == 0 {
        None
    } else if m[0].0 == name {
        Some(m[0].1)
    } else {
        media_lookup(m.drop_first(), name)
    }
}

/// The filename a reference ends up with: for a safe (normalizable) name,
/// the media use map's target name where there is an entry, else the name
/// itself; an unsafe name is kept as written.
pub open spec fn rewritten_name(m: Seq<(Seq<char>, Seq<char>)>, name: Seq<char>) -> Seq<char> {
    if safe_name(name) {
        match media_lookup(m, name) {
            Some(target) => target,
            None => name,
        }
    } else {
        name
    }
}

pub open spec fn render_piece(m: Seq<(Seq<char>, Seq<char>)>, p: PieceV) -> Seq<char> {
    match p {
        PieceV::Lit(c) => seq![c],
        PieceV::MediaRef { name, quote } => tag_open() + seq![quote] + rewritten_name(m, name)
            + seq![quote, '>'],
    }
}

pub open spec fn render_pieces(m: Seq<(Seq<char>, Seq<char>)>, ps: Seq<PieceV>) -> Seq<char>
    decreases ps.len(),
{
    if ps.len() == 0 {
        Seq::empty()
    } else {
        render_piece(m, ps[0]) + render_pieces(m, ps.drop_first())
    }
}

/// The text of a note field after media reference rewriting.
pub open spec fn rewrite_media_refs(m: Seq<(Seq<char>, Seq<char>)>, s: Seq<char>) -> Seq<char> {
    render_pieces(m, parse_from(s, 0))
}

pub open spec fn strip_piece(p: PieceV) -> Seq<char> {
    match p {
        PieceV::Lit(c) => seq![c],
        PieceV::MediaRef { name, quote } => seq![' '] + name + seq![' '],
    }
}

pub open spec fn strip_pieces(ps: Seq<PieceV>) -> Seq<char>
    decreases ps.len(),
{
    if ps.len() == 0 {
        Seq::empty()
    } else {
        strip_piece(ps[0]) + strip_pieces(ps.drop_first())
    }
}

/// A note field as the import log snapshots it: each media reference
/// reduced to its space-padded filename, all other text kept.
pub open spec fn strip_media_refs(s: Seq<char>) -> Seq<char> {
    strip_pieces(parse_from(s, 0))
}

/// Relies on `String::push` from std: appends the given character to the
/// end of the string.
pub assume_specification[ String::push ](s: &mut String, ch: char)
    ensures
        final(s)@ == old(s)@.push(ch),
;

pub proof fn lemma_find_char_at(s: Seq<char>, j: int, q: char, k: int)
    requires
        0 <= j <= k < s.len(),
        s[k] == q,
        forall|m: int| j <= m < k ==> s[m] != q,
    ensures
        find_char(s, j, q) == Some(k),
    decreases k - j,
{
    if j < k {
        lemma_find_char_at(s, j + 1, q, k);
    }
}

pub proof fn lemma_find_char_none(s: Seq<char>, j: int, q: char)
    requires
        0 <= j <= s.len(),
        forall|m: int| j <= m < s.len() ==> s[m] != q,
    ensures
        find_char(s, j, q) is None,
    decreases s.len() - j,
{
    if j < s.len() {
        lemma_find_char_none(s, j + 1, q);
    }
}

/// Map from a normalized source filename to the filename the target
/// collection stores the file under.
pub struct MediaUseMap {
    pub entries: Vec<(String, String)>,
}

impl MediaUseMap {
    pub open spec fn view_entries(&self) -> Seq<(Seq<char>, Seq<char>)> {
        Seq::new(self.entries@.len(), |i: int| (self.entries@[i].0@, self.entries@[i].1@))
    }

    pub fn new() -> (r: MediaUseMap)
        ensures
            r.view_entries() == Seq::<(Seq<char>, Seq<char>)>::empty(),
    {
        let r = MediaUseMap { entries: Vec::new() };
        proof {
            assert(r.view_entries() =~= Seq::<(Seq<char>, Seq<char>)>::empty());
        }
        r
    }

    /// Register that the (already normalized) source filename `name`
    /// resolved to `target` in the target collection.
    pub fn add_checked(&mut self, name: String, target: String)
        ensures
            final(self).view_entries() == old(self).view_entries().push((name@, target@)),
    {
        let ghost before = self.view_entries();
        self.entries.push((name, target));
        proof {
            assert(self.view_entries() =~= before.push((name@, target@)));
        }
    }

    /// Target filename for the normalized name `name`, if the map has one.
    pub fn use_entry(&self, name: &String) -> (r: Option<&String>)
        ensures
            match r {
                Some(t) => media_lookup(self.view_entries(), name@) == Some(t@),
                None => media_lookup(self.view_entries(), name@) is None,
            },
    {
        let mut i: usize = 0;
        proof {
            assert(self.view_entries().skip(0) =~= self.view_entries());
        }
        while i < self.entries.len()
            invariant
                0 <= i <= self.entries.len(),
                media_lookup(self.view_entries(), name@) == media_lookup(
                    self.view_entries().skip(i as int),
                    name@,
                ),
            decreases self.entries.len() - i,
        {
            proof {
                assert(self.view_entries().skip(i as int)[0] == self.view_entries()[i as int]);
                assert(self.view_entries().skip(i as int).drop_first() =~= self.view_entries()
                    .skip(i as int + 1));
            }
            if self.entries[i].0.eq(name) {
                return Some(&self.entries[i].1);
            }
            i = i + 1;
        }
        proof {
            assert(self.view_entries().skip(i as int).len() == 0);
        }
        None
    }
}

/// Equality of two string slices, character by character.
pub fn str_eq(a: &str, b: &str) -> (r: bool)
    ensures
        r == (a@ == b@),
{
    let na = a.unicode_len();
    let nb = b.unicode_len();
    if na != nb {
        return false;
    }
    let mut i: usize = 0;
    while i < na
        invariant
            0 <= i <= na,
            na == a@.len(),
            na == b@.len(),
            forall|k: int| 0 <= k < i ==> a@[k] == b@[k],
        decreases na - i,
    {
        if a.get_char(i) != b.get_char(i) {
            return false;
        }
        i = i + 1;
    }
    proof {
        assert(a@ =~= b@);
    }
    true
}

/// Whether a filename survives normalization unchanged; see [`safe_name`].
pub fn is_safe_name(name: &String) -> (r: bool)
    ensures
        r == safe_name(name@),
{
    let n = name.as_str().unicode_len();
    if n == 0 {
        return false;
    }
    let mut i: usize = 0;
    while i < n
        invariant
            0 <= i <= n,
            n == name@.len(),
            forall|k: int| 0 <= k < i ==> safe_char(name@[k]),
        decreases n - i,
    {
        let c = name.as_str().get_char(i);
        if c == '/' || c == '\\' || c == ':' || c == '*' || c == '?' || c == '"' || c == '<'
            || c == '>' || c == '|' {
            return false;
        }
        i = i + 1;
    }
    true
}

/// A media reference starting at character `i` of `s`, if one does.
fn try_match_ref(s: &str, i: usize, n: usize) -> (r: Option<(String, usize)>)
    requires
        n == s@.len(),
        i < n,
    ensures
        match r {
            Some(p) => match_ref(s@, i as int) == Some((p.0@, p.1 as int)),
            None => match_ref(s@, i as int) is None,
        },
{
    if n - i < 10 {
        return None;
    }
    let c0 = s.get_char(i) == '<';
    let c1 = s.get_char(i + 1) == 'i';
    let c2 = s.get_char(i + 2) == 'm';
    let c3 = s.get_char(i + 3) == 'g';
    let c4 = s.get_char(i + 4) == ' ';
    let c5 = s.get_char(i + 5) == 's';
    let c6 = s.get_char(i + 6) == 'r';
    let c7 = s.get_char(i + 7) == 'c';
    let c8 = s.get_char(i + 8) == '=';
    let ghost ii = i as int;
    let ghost sr = s@.subrange(ii, ii + 9);
    if !(c0 && c1 && c2 && c3 && c4 && c5 && c6 && c7 && c8) {
        proof {
            if sr == tag_open() {
                assert(s@[ii] == sr[0] && sr[0] == tag_open()[0]);
                assert(s@[ii + 1] == sr[1] && sr[1] == tag_open()[1]);
                assert(s@[ii + 2] == sr[2] && sr[2] == tag_open()[2]);
                assert(s@[ii + 3] == sr[3] && sr[3] == tag_open()[3]);
                assert(s@[ii + 4] == sr[4] && sr[4] == tag_open()[4]);
                assert(s@[ii + 5] == sr[5] && sr[5] == tag_open()[5]);
                assert(s@[ii + 6] == sr[6] && sr[6] == tag_open()[6]);
                assert(s@[ii + 7] == sr[7] && sr[7] == tag_open()[7]);
                assert(s@[ii + 8] == sr[8] && sr[8] == tag_open()[8]);
                assert(false);
            }
        }
        return None;
    }
    proof {
        assert(sr =~= tag_open());
    }
    let q = s.get_char(i + 9);
    if !(q == '\'' || q == '"') {
        return None;
    }
    let mut k: usize = i + 10;
    while k < n
        invariant
            i + 10 <= k <= n,
            n == s@.len(),
            s@.subrange(i as int, i as int + 9) == tag_open(),
            s@[i as int + 9] == q,
            is_quote(q),
            forall|m: int| i + 10 <= m < k ==> s@[m] != q,
        decreases n - k,
    {
        if s.get_char(k) == q {
            proof {
                lemma_find_char_at(s@, i as int + 10, q, k as int);
            }
            if k + 1 < n && s.get_char(k + 1) == '>' {
                let name = s.substring_char(i + 10, k).to_owned();
                return Some((name, k + 2));
            } else {
                return None;
            }
        }
        k = k + 1;
    }
    proof {
        lemma_find_char_none(s@, i as int + 10, q);
    }
    None
}

/// The canonical parse of a note field; see [`parse_from`].
pub fn parse_field(s: &str) -> (r: Vec<FieldPiece>)
    ensures
        pieces_view(r@) == parse_from(s@, 0),
{
    let n = s.unicode_len();
    let mut out: Vec<FieldPiece> = Vec::new();
    let mut i: usize = 0;
    proof {
        assert(pieces_view(out@) =~= Seq::<PieceV>::empty());
    }
    while i < n
        invariant
            0 <= i <= n,
            n == s@.len(),
            pieces_view(out@) + parse_from(s@, i as int) == parse_from(s@, 0),
        decreases n - i,
    {
        let ghost before = pieces_view(out@);
        match try_match_ref(s, i, n) {
            Some(p) => {
                proof {
                    lemma_match_ref_range(s@, i as int);
                }
                let q = s.get_char(i + 9);
                let (name, end) = p;
                out.push(FieldPiece::MediaRef { name, quote: q });
                proof {
                    assert(pieces_view(out@) =~= before.push(
                        PieceV::MediaRef { name: name@, quote: q },
                    ));
                    assert(parse_from(s@, i as int) =~= seq![
                        PieceV::MediaRef { name: name@, quote: q },
                    ] + parse_from(s@, end as int));
                    assert(pieces_view(out@) + parse_from(s@, end as int) =~= before + parse_from(
                        s@,
                        i as int,
                    ));
                }
                i = end;
            },
            None => {
                let c = s.get_char(i);
                out.push(FieldPiece::Lit(c));
                proof {
                    assert(pieces_view(out@) =~= before.push(PieceV::Lit(c)));
                    assert(parse_from(s@, i as int) =~= seq![PieceV::Lit(c)] + parse_from(
                        s@,
                        i as int + 1,
                    ));
                    assert(pieces_view(out@) + parse_from(s@, i as int + 1) =~= before
                        + parse_from(s@, i as int));
                }
                i = i + 1;
            },
        }
    }
    proof {
        assert(parse_from(s@, i as int) =~= Seq::<PieceV>::empty());
        assert(pieces_view(out@) =~= pieces_view(out@) + parse_from(s@, i as int));
    }
    out
}

/// Appends the fixed media reference opening to `out`.
fn push_tag_open(out: &mut String)
    ensures
        final(out)@ == old(out)@ + tag_open(),
{
    let ghost before = out@;
    out.push('<');
    out.push('i');
    out.push('m');
    out.push('g');
    out.push(' ');
    out.push('s');
    out.push('r');
    out.push('c');
    out.push('=');
    proof {
        assert(out@ =~= before + tag_open());
    }
}

/// Renders parsed pieces with every media reference rewritten; see
/// [`render_pieces`].
pub fn rewrite_parsed(m: &MediaUseMap, pieces: &Vec<FieldPiece>) -> (r: String)
    ensures
        r@ == render_pieces(m.view_entries(), pieces_view(pieces@)),
{
    let ghost pv = pieces_view(pieces@);
    let ghost mv = m.view_entries();
    let mut out = String::new();
    let mut i: usize = 0;
    proof {
        assert(pv.skip(0) =~= pv);
        assert(out@ =~= Seq::<char>::empty());
    }
    while i < pieces.len()
        invariant
            0 <= i <= pieces.len(),
            pv == pieces_view(pieces@),
            mv == m.view_entries(),
            pv.len() == pieces.len(),
            out@ + render_pieces(mv, pv.skip(i as int)) == render_pieces(mv, pv),
        decreases pieces.len() - i,
    {
        let ghost before = out@;
        proof {
            assert(pv.skip(i as int)[0] == pv[i as int]);
            assert(pv.skip(i as int).drop_first() =~= pv.skip(i as int + 1));
        }
        match &pieces[i] {
            FieldPiece::Lit(c) => {
                out.push(*c);
                proof {
                    assert(out@ =~= before + render_piece(mv, pv[i as int]));
                }
            },
            FieldPiece::MediaRef { name, quote } => {
                push_tag_open(&mut out);
                out.push(*quote);
                if is_safe_name(name) {
                    match m.use_entry(name) {
                        Some(t) => {
                            let t2 = t.clone();
                            out.append(t2.as_str());
                        },
                        None => {
                            out.append(name.as_str());
                        },
                    }
                } else {
                    out.append(name.as_str());
                }
                out.push(*quote);
                out.push('>');
                proof {
                    assert(out@ =~= before + render_piece(mv, pv[i as int]));
                }
            },
        }
        proof {
            assert(out@ + render_pieces(mv, pv.skip(i as int + 1)) =~= before + render_pieces(
                mv,
                pv.skip(i as int),
            ));
        }
        i = i + 1;
    }
    proof {
        assert(pv.skip(i as int) =~= Seq::<PieceV>::empty());
        assert(out@ =~= render_pieces(mv, pv));
    }
    out
}

/// Renders parsed pieces with every media reference reduced to its
/// space-padded filename; see [`strip_pieces`].
pub fn strip_parsed(pieces: &Vec<FieldPiece>) -> (r: String)
    ensures
        r@ == strip_pieces(pieces_view(pieces@)),
{
    let ghost pv = pieces_view(pieces@);
    let mut out = String::new();
    let mut i: usize = 0;
    proof {
        assert(pv.skip(0) =~= pv);
        assert(out@ =~= Seq::<char>::empty());
    }
    while i < pieces.len()
        invariant
            0 <= i <= pieces.len(),
            pv == pieces_view(pieces@),
            pv.len() == pieces.len(),
            out@ + strip_pieces(pv.skip(i as int)) == strip_pieces(pv),
        decreases pieces.len() - i,
    {
        let ghost before = out@;
        proof {
            assert(pv.skip(i as int)[0] == pv[i as int]);
            assert(pv.skip(i as int).drop_first() =~= pv.skip(i as int + 1));
        }
        match &pieces[i] {
            FieldPiece::Lit(c) => {
                out.push(*c);
                proof {
                    assert(out@ =~= before + strip_piece(pv[i as int]));
                }
            },
            FieldPiece::MediaRef { name, quote } => {
                out.push(' ');
                out.append(name.as_str());
                out.push(' ');
                proof {
                    assert(out@ =~= before + strip_piece(pv[i as int]));
                }
            },
        }
        proof {
            assert(out@ + strip_pieces(pv.skip(i as int + 1)) =~= before + strip_pieces(
                pv.skip(i as int),
            ));
        }
        i = i + 1;
    }
    proof {
        assert(pv.skip(i as int) =~= Seq::<PieceV>::empty());
        assert(out@ =~= strip_pieces(pv));
    }
    out
}

/// A note field with its media references rewritten through the media use
/// map; see [`rewrite_media_refs`].
pub fn rewritten_field(m: &MediaUseMap, s: &String) -> (r: String)
    ensures
        r@ == rewrite_media_refs(m.view_entries(), s@),
{
    let pieces = parse_field(s.as_str());
    rewrite_parsed(m, &pieces)
}

/// A note field as the import log snapshots it; see [`strip_media_refs`].
pub fn stripped_field(s: &String) -> (r: String)
    ensures
        r@ == strip_media_refs(s@),
{
    let pieces = parse_field(s.as_str());
    strip_parsed(&pieces)
}

} // verus!
