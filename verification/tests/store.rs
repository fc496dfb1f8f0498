use notes_rpc::Json;
use notes_rpc::NoteStore;

fn value_to_json(v: &serde_json::Value) -> Json {
    match v {
        serde_json::Value::Null => Json::Null,
        serde_json::Value::Bool(b) => Json::Bool(*b),
        serde_json::Value::Number(n) => match n.as_u64() {
            Some(u) => Json::UInt(u),
            None => Json::Num(n.to_string()),
        },
        serde_json::Value::String(s) => Json::Str(s.clone()),
        serde_json::Value::Array(a) => Json::Arr(a.iter().map(value_to_json).collect()),
        serde_json::Value::Object(m) => {
            Json::Obj(m.iter().map(|(k, x)| (k.clone(), value_to_json(x))).collect())
        }
    }
}

fn note_object(id: &str, title: &str, content: &str, created_at: u64, updated_at: u64) -> Json {
    Json::Obj(vec![
        ("id".to_string(), Json::Str(id.to_string())),
        ("title".to_string(), Json::Str(title.to_string())),
        ("content".to_string(), Json::Str(content.to_string())),
        ("created_at".to_string(), Json::UInt(created_at)),
        ("updated_at".to_string(), Json::UInt(updated_at)),
    ])
}

#[test]
fn create_then_get_returns_matching_note() {
    let mut store = NoteStore::new(None);
    let note = store.create("T".to_string(), "C".to_string()).expect("creation");
    assert_eq!(note.id.len(), 36);
    assert_eq!(note.created_at, note.updated_at);
    let got = store.get(&note.id).expect("just created");
    assert_eq!(got.id, note.id);
    assert_eq!(got.title, "T");
    assert_eq!(got.content, "C");
    assert_eq!(got.created_at, note.created_at);
    assert_eq!(got.updated_at, note.updated_at);
}

#[test]
fn update_title_only_keeps_content() {
    let mut store = NoteStore::new(None);
    let note = store.create("old title".to_string(), "the content".to_string()).unwrap();
    let updated = store
        .update(&note.id, Some("X".to_string()), None)
        .expect("note exists");
    assert_eq!(updated.id, note.id);
    assert_eq!(updated.title, "X");
    assert_eq!(updated.content, "the content");
    assert!(updated.updated_at >= note.updated_at);
    assert_eq!(updated.created_at, note.created_at);
    let got = store.get(&note.id).unwrap();
    assert_eq!(got.title, "X");
    assert_eq!(got.content, "the content");
}

#[test]
fn update_content_only_keeps_title() {
    let mut store = NoteStore::new(None);
    let note = store.create("title".to_string(), "old content".to_string()).unwrap();
    let updated = store.update(&note.id, None, Some("new content".to_string())).unwrap();
    assert_eq!(updated.title, "title");
    assert_eq!(updated.content, "new content");
}

#[test]
fn update_unknown_id_returns_none() {
    let mut store = NoteStore::new(None);
    store.create("a".to_string(), "b".to_string()).unwrap();
    let r = store.update("no-such-id", Some("X".to_string()), None);
    assert!(r.is_none());
}

#[test]
fn delete_twice_reports_true_then_false() {
    let mut store = NoteStore::new(None);
    let note = store.create("a".to_string(), "b".to_string()).unwrap();
    assert!(store.delete(&note.id));
    assert!(store.get(&note.id).is_none());
    assert!(!store.delete(&note.id));
    assert_eq!(store.list().len(), 0);
}

#[test]
fn saved_file_restores_same_notes() {
    let mut store = NoteStore::new(None);
    let a = store.create("ta".to_string(), "ca".to_string()).unwrap();
    let b = store.create("tb".to_string(), "cb".to_string()).unwrap();
    let c = store.create("tc".to_string(), "cc".to_string()).unwrap();

    // what the host writes to the backing file
    let text = store.save_json();
    // what the host reads back at the next start
    let value: serde_json::Value = serde_json::from_str(&text).expect("own output parses");
    let doc = value_to_json(&value);
    let restored = NoteStore::new(Some(&doc));

    let notes = restored.list();
    assert_eq!(notes.len(), 3);
    for orig in [&a, &b, &c] {
        let got = restored.get(&orig.id).expect("note survives the restart");
        assert_eq!(got.title, orig.title);
        assert_eq!(got.content, orig.content);
        assert_eq!(got.created_at, orig.created_at);
        assert_eq!(got.updated_at, orig.updated_at);
    }
}

#[test]
fn restart_via_library_parser() {
    let mut store = NoteStore::new(None);
    let a = store
        .create("quotes \"and\" slashes \\".to_string(), "line\nbreak".to_string())
        .unwrap();
    let b = store.create("plain".to_string(), "control\u{0001}char".to_string()).unwrap();

    let text = store.save_json();
    let restored = NoteStore::from_text(Some(&text));

    assert_eq!(restored.list().len(), 2);
    for orig in [&a, &b] {
        let got = restored.get(&orig.id).expect("note survives the restart");
        assert_eq!(got.title, orig.title);
        assert_eq!(got.content, orig.content);
        assert_eq!(got.created_at, orig.created_at);
        assert_eq!(got.updated_at, orig.updated_at);
    }

    assert_eq!(NoteStore::from_text(None).list().len(), 0);
}

#[test]
fn parser_accepts_whitespace_and_escapes() {
    let text = " [ { \"id\" : \"a\\n\\u0001b\" , \"title\" : \"t\\\\\" ,\n\t\"content\" : \"c\\\"q\" , \"created_at\" : 3 , \"updated_at\" : 7 } ] ";
    let store = NoteStore::from_text(Some(text));
    let got = store.get("a\n\u{0001}b").expect("escaped id loads");
    assert_eq!(got.title, "t\\");
    assert_eq!(got.content, "c\"q");
    assert_eq!(got.created_at, 3);
    assert_eq!(got.updated_at, 7);
}

#[test]
fn parser_rejects_bad_text() {
    assert_eq!(NoteStore::from_text(Some("not json")).list().len(), 0);
    assert_eq!(NoteStore::from_text(Some("[{]")).list().len(), 0);
    assert_eq!(NoteStore::from_text(Some("[1,2]")).list().len(), 0);
    assert_eq!(NoteStore::from_text(Some("[] trailing")).list().len(), 0);
    assert_eq!(NoteStore::from_text(Some("[]")).list().len(), 0);
    assert_eq!(NoteStore::from_text(Some("")).list().len(), 0);
}

#[test]
fn malformed_document_yields_empty_store() {
    let store = NoteStore::new(Some(&Json::Str("not an array".to_string())));
    assert_eq!(store.list().len(), 0);
    let store2 = NoteStore::new(Some(&Json::Arr(vec![Json::UInt(3)])));
    assert_eq!(store2.list().len(), 0);
}

#[test]
fn duplicate_ids_in_document_yield_empty_store() {
    let doc = Json::Arr(vec![
        note_object("same", "a", "b", 1, 1),
        note_object("same", "c", "d", 2, 2),
    ]);
    let store = NoteStore::new(Some(&doc));
    assert_eq!(store.list().len(), 0);
}

#[test]
fn document_fields_load_in_any_order() {
    let doc = Json::Arr(vec![Json::Obj(vec![
        ("updated_at".to_string(), Json::UInt(7)),
        ("content".to_string(), Json::Str("c".to_string())),
        ("id".to_string(), Json::Str("k1".to_string())),
        ("extra".to_string(), Json::Null),
        ("title".to_string(), Json::Str("t".to_string())),
        ("created_at".to_string(), Json::UInt(5)),
    ])]);
    let store = NoteStore::new(Some(&doc));
    let got = store.get("k1").expect("loads");
    assert_eq!(got.title, "t");
    assert_eq!(got.content, "c");
    assert_eq!(got.created_at, 5);
    assert_eq!(got.updated_at, 7);
}
