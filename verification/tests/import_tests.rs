use note_import::collection::Collection;
use note_import::ids::NoteId;
use note_import::ids::NotetypeId;
use note_import::ids::TimestampSecs;
use note_import::ids::Usn;
use note_import::import::ImportError;
use note_import::import::NoteContext;
use note_import::log::NoteLog;
use note_import::media::MediaUseMap;
use note_import::note::Note;

/// A basic-notetype note with empty fields, not yet stored.
fn basic_note(col: &Collection) -> Note {
    let nt = col.get_notetype_by_name("basic").unwrap();
    let field_count = nt.fields.len();
    let ntid = nt.id;
    Note::new(
        field_count,
        NoteId(1000),
        "guid-one".to_string(),
        ntid,
        TimestampSecs(100),
    )
}

/// A basic-notetype note added to the collection, returned as the caller's
/// own copy (same identifier, GUID and timestamps as the stored record).
fn add_basic_note(col: &mut Collection) -> Note {
    let note = basic_note(col);
    col.add_note_record(note.duplicate());
    note
}

/// Imports one note and hands back the session for inspection.
fn import_note_ctx(col: Collection, note: Note, media_map: MediaUseMap) -> NoteContext {
    let mut ctx = NoteContext::new(Usn(1), col, media_map);
    ctx.import_notes(vec![note]).unwrap();
    ctx
}

/// Asserts that exactly one note is logged, under the given outcome, with
/// the given fields.
fn assert_note_logged(log: &mut NoteLog, state: &str, fields: &[&str]) {
    let entry = match state {
        "new" => log.new.pop().unwrap(),
        "updated" => log.updated.pop().unwrap(),
        "duplicate" => log.duplicate.pop().unwrap(),
        "conflicting" => log.conflicting.pop().unwrap(),
        other => panic!("unknown outcome {}", other),
    };
    assert_eq!(entry.fields, fields);
    assert!(log.new.is_empty());
    assert!(log.updated.is_empty());
    assert!(log.duplicate.is_empty());
    assert!(log.conflicting.is_empty());
}

#[test]
fn should_add_note_with_new_id_if_guid_is_unique_and_id_is_not() {
    let mut col = Collection::new();
    let mut note = add_basic_note(&mut col);
    note.guid = "other".to_string();
    let original_id = note.id;

    let mut ctx = import_note_ctx(col, note, MediaUseMap::new());
    assert_ne!(ctx.target_col.note_id_for_guid("other").unwrap(), original_id);
    assert_note_logged(&mut ctx.imports.log, "new", &["", ""]);
}

#[test]
fn should_skip_note_if_guid_already_exists_with_newer_mtime() {
    let mut col = Collection::new();
    let mut note = add_basic_note(&mut col);
    note.mtime.0 -= 1;
    note.fields[0] = "outdated".to_string();

    let mut ctx = import_note_ctx(col, note, MediaUseMap::new());
    assert_eq!(ctx.target_col.notes[0].fields[0], "");
    assert_note_logged(&mut ctx.imports.log, "duplicate", &["outdated", ""]);
}

#[test]
fn should_update_note_if_guid_already_exists_with_different_id() {
    let mut col = Collection::new();
    let mut note = add_basic_note(&mut col);
    note.id.0 = 42;
    note.mtime.0 += 1;
    note.fields[0] = "updated".to_string();

    let mut ctx = import_note_ctx(col, note, MediaUseMap::new());
    assert_eq!(ctx.target_col.notes[0].fields[0], "updated");
    assert_note_logged(&mut ctx.imports.log, "updated", &["updated", ""]);
}

#[test]
fn should_ignore_note_if_guid_already_exists_with_different_notetype() {
    let mut col = Collection::new();
    let mut note = add_basic_note(&mut col);
    note.notetype_id.0 = 42;
    note.mtime.0 += 1;
    note.fields[0] = "updated".to_string();

    let mut ctx = import_note_ctx(col, note, MediaUseMap::new());
    assert_eq!(ctx.target_col.notes[0].fields[0], "");
    assert_note_logged(&mut ctx.imports.log, "conflicting", &["updated", ""]);
}

#[test]
fn should_add_note_with_remapped_notetype_if_in_notetype_map() {
    let mut col = Collection::new();
    let basic_ntid = col.get_notetype_by_name("basic").unwrap().id;
    let mut note = basic_note(&mut col);
    note.notetype_id.0 = 123;

    let mut ctx = NoteContext::new(Usn(1), col, MediaUseMap::new());
    ctx.remapped_notetypes.push((NotetypeId(123), basic_ntid));
    ctx.import_notes(vec![note]).unwrap();
    assert_eq!(ctx.target_col.notes[0].notetype_id, basic_ntid);
    assert_note_logged(&mut ctx.imports.log, "new", &["", ""]);
}

#[test]
fn should_ignore_note_if_guid_already_exists_and_notetype_is_remapped() {
    let mut col = Collection::new();
    let basic_ntid = col.get_notetype_by_name("basic").unwrap().id;
    let mut note = add_basic_note(&mut col);
    note.notetype_id.0 = 123;
    note.mtime.0 += 1;
    note.fields[0] = "updated".to_string();

    let mut ctx = NoteContext::new(Usn(1), col, MediaUseMap::new());
    ctx.remapped_notetypes.push((NotetypeId(123), basic_ntid));
    ctx.import_notes(vec![note]).unwrap();
    assert_eq!(ctx.target_col.notes[0].fields[0], "");
    assert_note_logged(&mut ctx.imports.log, "conflicting", &["updated", ""]);
}

#[test]
fn should_add_note_with_remapped_media_reference_in_field_if_in_media_map() {
    let mut col = Collection::new();
    let mut note = basic_note(&mut col);
    note.fields[0] = "<img src='foo.jpg'>".to_string();

    let mut media_map = MediaUseMap::new();
    media_map.add_checked("foo.jpg".to_string(), "bar.jpg".to_string());

    let mut ctx = import_note_ctx(col, note, media_map);
    assert_eq!(ctx.target_col.notes[0].fields[0], "<img src='bar.jpg'>");
    assert_note_logged(&mut ctx.imports.log, "new", &[" bar.jpg ", ""]);
}

#[test]
fn bumped_id_is_unused_and_id_map_keys_the_original_id() {
    let mut col = Collection::new();
    let mut note = add_basic_note(&mut col);
    let prior_ids: Vec<NoteId> = col.all_note_ids();
    note.guid = "fresh-guid".to_string();
    let original_id = note.id;

    let ctx = import_note_ctx(col, note, MediaUseMap::new());
    let stored_id = ctx.target_col.note_id_for_guid("fresh-guid").unwrap();
    assert!(!prior_ids.contains(&stored_id));
    assert_eq!(stored_id.0, original_id.0 + 999);
    assert_eq!(ctx.imports.id_map[0], (original_id, stored_id));
}

#[test]
fn unused_incoming_id_is_kept() {
    let col = Collection::new();
    let note = basic_note(&col);
    let original_id = note.id;

    let ctx = import_note_ctx(col, note, MediaUseMap::new());
    assert_eq!(ctx.target_col.notes[0].id, original_id);
    assert_eq!(ctx.imports.id_map[0], (original_id, original_id));
}

#[test]
fn importing_unseen_guid_adds_exactly_one_note_with_matching_fields() {
    let col = Collection::new();
    let mut note = basic_note(&col);
    note.fields[0] = "front text".to_string();
    note.fields[1] = "back text".to_string();

    let mut ctx = import_note_ctx(col, note, MediaUseMap::new());
    assert_eq!(ctx.target_col.notes.len(), 1);
    assert_eq!(ctx.target_col.notes[0].fields, ["front text", "back text"]);
    assert_eq!(ctx.imports.log.found_notes, 1);
    assert_note_logged(&mut ctx.imports.log, "new", &["front text", "back text"]);
}

#[test]
fn missing_notetype_is_a_fatal_not_found_error() {
    let col = Collection::new();
    let mut note = basic_note(&col);
    note.notetype_id = NotetypeId(555);

    let mut ctx = NoteContext::new(Usn(1), col, MediaUseMap::new());
    let err = ctx.import_notes(vec![note]).unwrap_err();
    assert_eq!(err, ImportError::NotetypeNotFound(NotetypeId(555)));
}

#[test]
fn missing_note_lookup_is_a_fatal_not_found_error() {
    let col = Collection::new();
    let ctx = NoteContext::new(Usn(1), col, MediaUseMap::new());
    let err = match ctx.get_expected_note(NoteId(77)) {
        Ok(_) => panic!("lookup of an absent note must fail"),
        Err(e) => e,
    };
    assert_eq!(err, ImportError::NoteNotFound(NoteId(77)));
}

#[test]
fn guid_snapshot_is_not_refreshed_mid_session() {
    // Two source notes sharing one GUID the target has never seen are both
    // compared against the pre-session snapshot, so both are new.
    let col = Collection::new();
    let first = basic_note(&col);
    let mut second = first.duplicate();
    second.id = NoteId(2000);
    second.mtime.0 += 5;

    let mut ctx = NoteContext::new(Usn(1), col, MediaUseMap::new());
    ctx.import_notes(vec![first, second]).unwrap();
    assert_eq!(ctx.imports.log.new.len(), 2);
    assert!(ctx.imports.log.updated.is_empty());
    assert!(ctx.imports.log.duplicate.is_empty());
    assert!(ctx.imports.log.conflicting.is_empty());
    assert_eq!(ctx.target_col.notes.len(), 2);
}

#[test]
fn identifier_set_grows_mid_session() {
    // Two new notes arriving with the same identifier: the second sees the
    // first's insertion and is bumped.
    let col = Collection::new();
    let first = basic_note(&col);
    let mut second = first.duplicate();
    second.guid = "another".to_string();

    let mut ctx = NoteContext::new(Usn(1), col, MediaUseMap::new());
    ctx.import_notes(vec![first, second]).unwrap();
    assert_eq!(ctx.target_col.notes.len(), 2);
    assert_eq!(ctx.target_col.notes[0].id, NoteId(1000));
    assert_eq!(ctx.target_col.notes[1].id, NoteId(1999));
}

#[test]
fn fatal_error_keeps_earlier_notes_in_place() {
    let col = Collection::new();
    let good = basic_note(&col);
    let mut bad = good.duplicate();
    bad.guid = "second".to_string();
    bad.notetype_id = NotetypeId(555);

    let mut ctx = NoteContext::new(Usn(1), col, MediaUseMap::new());
    let err = ctx.import_notes(vec![good, bad]).unwrap_err();
    assert_eq!(err, ImportError::NotetypeNotFound(NotetypeId(555)));
    // The first note was committed before the batch aborted.
    assert_eq!(ctx.target_col.notes.len(), 1);
    assert_eq!(ctx.imports.log.new.len(), 1);
}

#[test]
fn duplicate_snapshot_carries_the_target_identifier() {
    let mut col = Collection::new();
    let mut note = add_basic_note(&mut col);
    let target_id = note.id;
    note.id.0 = 4242;
    note.mtime.0 -= 1;

    let ctx = import_note_ctx(col, note, MediaUseMap::new());
    assert_eq!(ctx.imports.log.duplicate[0].id, target_id);
    assert_eq!(ctx.imports.id_map[0], (NoteId(4242), target_id));
}
