use note_import::collection::Collection;
use note_import::ids::CardId;
use note_import::ids::NoteId;
use note_import::ids::NotetypeId;
use note_import::ids::TimestampSecs;
use note_import::ids::Usn;
use note_import::import::Context;
use note_import::import::NoteContext;
use note_import::media::is_safe_name;
use note_import::media::rewritten_field;
use note_import::media::stripped_field;
use note_import::media::MediaUseMap;
use note_import::note::Note;
use note_import::notetype::bytes_eq;
use note_import::notetype::CardTemplate;
use note_import::notetype::NoteField;
use note_import::notetype::Notetype;
use note_import::queue::CardQueues;
use note_import::queue::MainQueueEntry;
use note_import::queue::MainQueueEntryKind;

fn named_notetype(id: i64, name: &str, fields: &[&str], templates: &[&str]) -> Notetype {
    Notetype {
        id: NotetypeId(id),
        name: name.to_string(),
        fields: fields.iter().map(|f| NoteField { name: f.to_string() }).collect(),
        templates: templates.iter().map(|t| CardTemplate { name: t.to_string() }).collect(),
        mtime_secs: TimestampSecs(10),
        usn: Usn(0),
    }
}

#[test]
fn unchanged_schema_keeps_identifier_and_adds_no_remap_entry() {
    let col = Collection::new();
    let mut ctx = NoteContext::new(Usn(1), col, MediaUseMap::new());
    // Same field and template names as the stored "basic" notetype.
    let mut incoming = named_notetype(1, "basic", &["Front", "Back"], &["Card 1"]);
    incoming.mtime_secs = TimestampSecs(99);
    ctx.import_notetypes(vec![incoming]);
    assert_eq!(ctx.target_col.notetypes.len(), 1);
    assert_eq!(ctx.target_col.notetypes[0].id, NotetypeId(1));
    assert!(ctx.remapped_notetypes.is_empty());
    // The strictly newer incoming copy overwrote the content in place.
    assert_eq!(ctx.target_col.notetypes[0].mtime_secs, TimestampSecs(99));
}

#[test]
fn older_incoming_copy_of_same_schema_is_ignored() {
    let col = Collection::new();
    let mut ctx = NoteContext::new(Usn(1), col, MediaUseMap::new());
    let mut incoming = named_notetype(1, "basic", &["Front", "Back"], &["Card 1"]);
    incoming.mtime_secs = TimestampSecs(0);
    ctx.import_notetypes(vec![incoming]);
    assert_eq!(ctx.target_col.notetypes.len(), 1);
    assert_eq!(ctx.target_col.notetypes[0].mtime_secs, TimestampSecs(0));
    assert!(ctx.remapped_notetypes.is_empty());
}

#[test]
fn diverged_schema_gets_fresh_identifier_and_remap_entry() {
    let col = Collection::new();
    let mut ctx = NoteContext::new(Usn(1), col, MediaUseMap::new());
    let incoming = named_notetype(1, "basic", &["Front", "Back", "Extra"], &["Card 1"]);
    ctx.import_notetypes(vec![incoming]);
    assert_eq!(ctx.target_col.notetypes.len(), 2);
    let new_id = ctx.target_col.notetypes[1].id;
    assert_ne!(new_id, NotetypeId(1));
    assert_eq!(ctx.remapped_notetypes[0], (NotetypeId(1), new_id));
}

#[test]
fn absent_notetype_is_added_under_its_own_identifier_with_unique_name() {
    let col = Collection::new();
    let mut ctx = NoteContext::new(Usn(1), col, MediaUseMap::new());
    let incoming = named_notetype(7, "basic", &["A"], &["T"]);
    ctx.import_notetypes(vec![incoming]);
    assert_eq!(ctx.target_col.notetypes.len(), 2);
    assert_eq!(ctx.target_col.notetypes[1].id, NotetypeId(7));
    // Renamed to stay unique beside the stored "basic".
    assert_eq!(ctx.target_col.notetypes[1].name, "basic_");
    assert!(ctx.remapped_notetypes.is_empty());
}

#[test]
fn new_note_referencing_diverged_notetype_is_repointed() {
    let col = Collection::new();
    let mut ctx = NoteContext::new(Usn(1), col, MediaUseMap::new());
    let incoming = named_notetype(1, "basic", &["Front", "Back", "Extra"], &["Card 1"]);
    ctx.import_notetypes(vec![incoming]);
    let new_id = ctx.target_col.notetypes[1].id;
    let note = Note::new(3, NoteId(50), "g".to_string(), NotetypeId(1), TimestampSecs(5));
    ctx.import_notes(vec![note]).unwrap();
    assert_eq!(ctx.target_col.notes[0].notetype_id, new_id);
}

#[test]
fn whole_session_runs_notetypes_before_notes() {
    let col = Collection::new();
    let basic_ntid = col.get_notetype_by_name("basic").unwrap().id;
    let mut note = Note::new(2, NoteId(9), "guid-e2e".to_string(), basic_ntid, TimestampSecs(5));
    note.fields[0] = "hello".to_string();
    let ctx = Context {
        usn: Usn(1),
        target_col: col,
        notetypes: Vec::new(),
        notes: vec![note],
    };
    let (merged, imports) = ctx.import_notes_and_notetypes(MediaUseMap::new());
    let imports = imports.unwrap();
    assert_eq!(imports.log.found_notes, 1);
    assert_eq!(imports.log.new.len(), 1);
    assert_eq!(merged.notes.len(), 1);
    assert_eq!(merged.notes[0].fields, ["hello", ""]);
    assert_eq!(merged.note_id_for_guid("guid-e2e").unwrap(), NoteId(9));
}

#[test]
fn schema_hash_depends_on_names_in_order() {
    let a = named_notetype(1, "a", &["Front", "Back"], &["Card 1"]);
    let b = named_notetype(2, "b", &["Front", "Back"], &["Card 1"]);
    let c = named_notetype(3, "c", &["Back", "Front"], &["Card 1"]);
    let d = named_notetype(4, "d", &["Front", "Back"], &[]);
    assert!(bytes_eq(&a.schema_hash(), &b.schema_hash()));
    assert!(!bytes_eq(&a.schema_hash(), &c.schema_hash()));
    assert!(!bytes_eq(&a.schema_hash(), &d.schema_hash()));
    // A real digest, not the input handed back.
    assert_eq!(a.schema_hash().len(), 20);
}

#[test]
fn media_reference_rewriting_follows_the_use_map() {
    let mut map = MediaUseMap::new();
    map.add_checked("foo.jpg".to_string(), "bar.jpg".to_string());
    let field = "x <img src='foo.jpg'> y".to_string();
    assert_eq!(rewritten_field(&map, &field), "x <img src='bar.jpg'> y");
    let double = "<img src=\"foo.jpg\">".to_string();
    assert_eq!(rewritten_field(&map, &double), "<img src=\"bar.jpg\">");
    let unmapped = "<img src='other.png'>".to_string();
    assert_eq!(rewritten_field(&map, &unmapped), "<img src='other.png'>");
    let plain = "no references".to_string();
    assert_eq!(rewritten_field(&map, &plain), "no references");
}

#[test]
fn unsafe_names_are_left_untouched() {
    let mut map = MediaUseMap::new();
    map.add_checked("a/b.jpg".to_string(), "c.jpg".to_string());
    assert!(!is_safe_name(&"a/b.jpg".to_string()));
    assert!(is_safe_name(&"b.jpg".to_string()));
    let field = "<img src='a/b.jpg'>".to_string();
    assert_eq!(rewritten_field(&map, &field), "<img src='a/b.jpg'>");
}

#[test]
fn log_snapshot_reduces_media_references_to_filenames() {
    let field = "a <img src='pic.png'> b".to_string();
    assert_eq!(stripped_field(&field), "a  pic.png  b");
    let plain = "plain".to_string();
    assert_eq!(stripped_field(&plain), "plain");
}

fn entry(id: i64, kind: MainQueueEntryKind) -> MainQueueEntry {
    MainQueueEntry { id: CardId(id), mtime: TimestampSecs(0), kind }
}

#[test]
fn push_and_pop_main_keep_counts_consistent() {
    let mut q = CardQueues::new_empty();
    q.push_main(entry(1, MainQueueEntryKind::Review));
    q.push_main(entry(2, MainQueueEntryKind::New));
    q.push_main(entry(3, MainQueueEntryKind::InterdayLearning));
    assert_eq!(q.counts.new, 1);
    assert_eq!(q.counts.review, 1);
    assert_eq!(q.counts.learning, 1);
    let head = q.pop_main().unwrap();
    assert_eq!(head.id, CardId(3));
    assert_eq!(q.counts.learning, 0);
    let head = q.pop_main().unwrap();
    assert_eq!(head.id, CardId(2));
    assert_eq!(q.counts.new, 0);
    let head = q.pop_main().unwrap();
    assert_eq!(head.id, CardId(1));
    assert_eq!(q.counts.review, 0);
    assert!(q.pop_main().is_none());
}

#[test]
fn removing_a_queued_card_updates_counts_and_missing_cards_change_nothing() {
    let mut q = CardQueues::new_empty();
    q.push_main(entry(1, MainQueueEntryKind::Review));
    q.push_main(entry(2, MainQueueEntryKind::InterdayLearning));
    let removed = q.remove_main_learning_card(CardId(2)).unwrap();
    assert_eq!(removed.kind, MainQueueEntryKind::InterdayLearning);
    assert_eq!(q.counts.learning, 0);
    assert_eq!(q.main.len(), 1);
    assert!(q.remove_main_learning_card(CardId(99)).is_none());
    assert_eq!(q.main.len(), 1);
}
