use rinton_store::store::{MemoryStore, StoreError};
use rinton_store::todo::{find_todo, format_todo_record, next_todo_id, plan_todo, record_fields, TodoAction};

fn listed(s: &MemoryStore) -> Vec<(String, String)> {
    s.list_todos().into_iter().map(|e| (e.id, e.message)).collect()
}

#[test]
fn add_ids_start_at_one_and_increase() {
    let mut s = MemoryStore::new();
    assert_eq!(s.add_todo("milk"), Ok(1));
    assert_eq!(s.add_todo("eggs"), Ok(2));
    assert_eq!(s.add_todo("bread"), Ok(3));
    assert_eq!(
        listed(&s),
        vec![
            ("3".to_string(), "bread".to_string()),
            ("2".to_string(), "eggs".to_string()),
            ("1".to_string(), "milk".to_string()),
        ]
    );
}

#[test]
fn add_follows_largest_id() {
    let mut s = MemoryStore::new();
    s.append("todo 7 old".to_string()).unwrap();
    s.append("todo 3 other".to_string()).unwrap();
    s.append("note 99 unrelated".to_string()).unwrap();
    assert_eq!(s.add_todo("next"), Ok(8));
}

#[test]
fn add_at_largest_id_fails() {
    let mut s = MemoryStore::new();
    s.append(format!("todo {} last", u64::MAX)).unwrap();
    assert_eq!(s.add_todo("more"), Err(StoreError::WriteFailed));
    assert_eq!(s.len(), 1);
}

#[test]
fn free_text_message_is_kept_whole() {
    let mut s = MemoryStore::new();
    assert_eq!(s.add_todo("buy two apples"), Ok(1));
    assert_eq!(listed(&s), vec![("1".to_string(), "buy two apples".to_string())]);
    assert_eq!(s.remove_todo("buy two apples").map(|_| ()), Ok(()));
    assert!(listed(&s).is_empty());
}

#[test]
fn remove_missing_leaves_store_unchanged() {
    let mut s = MemoryStore::new();
    s.add_todo("a").unwrap();
    s.add_todo("b").unwrap();
    let before = listed(&s);
    assert_eq!(s.remove_todo("zzz"), Err(StoreError::NotFound));
    assert_eq!(s.remove_todo("9"), Err(StoreError::NotFound));
    assert_eq!(s.len(), 2);
    assert_eq!(listed(&s), before);
}

#[test]
fn remove_by_id_or_message() {
    let mut s = MemoryStore::new();
    s.add_todo("a").unwrap();
    s.add_todo("b").unwrap();
    s.add_todo("c").unwrap();
    assert_eq!(s.remove_todo("2"), Ok(2));
    assert_eq!(s.remove_todo("c"), Ok(3));
    assert_eq!(listed(&s), vec![("1".to_string(), "a".to_string())]);
}

#[test]
fn edit_leaves_exactly_one_record() {
    let mut s = MemoryStore::new();
    s.add_todo("a").unwrap();
    s.add_todo("b").unwrap();
    assert_eq!(s.edit_todo(1, "z"), Ok(()));
    let l = listed(&s);
    assert_eq!(l.len(), 2);
    assert_eq!(l[0], ("1".to_string(), "z".to_string()));
    assert_eq!(l.iter().filter(|e| e.0 == "1").count(), 1);
    assert_eq!(l.iter().filter(|e| e.0 == "1" && e.1 == "z").count(), 1);
}

#[test]
fn edit_missing_is_not_found() {
    let mut s = MemoryStore::new();
    s.add_todo("a").unwrap();
    assert_eq!(s.edit_todo(5, "q"), Err(StoreError::NotFound));
    assert_eq!(listed(&s), vec![("1".to_string(), "a".to_string())]);
}

#[test]
fn list_of_empty_store_is_empty() {
    let s = MemoryStore::new();
    assert!(s.list_todos().is_empty());
}

#[test]
fn record_helpers() {
    assert_eq!(format_todo_record(12, "walk dog"), "todo 12 walk dog");
    assert_eq!(record_fields("todo 12 walk dog"), ("12".to_string(), "walk dog".to_string()));
    let mut s = MemoryStore::new();
    s.append("todo 4 x".to_string()).unwrap();
    s.append("todo 2 y".to_string()).unwrap();
    let recs = s.scan("todo ");
    assert_eq!(next_todo_id(&recs), Some(5));
    assert_eq!(find_todo(&recs, "x", "x"), Some(1));
    assert_eq!(find_todo(&recs, "nothing", "2"), Some(0));
    assert_eq!(find_todo(&recs, "nothing", "7"), None);
    assert_eq!(next_todo_id(&Vec::new()), Some(1));
}

#[test]
fn plan_todo_decides_each_operation() {
    let mut s = MemoryStore::new();
    s.append("todo 1 milk".to_string()).unwrap();
    s.append("todo 2 eggs".to_string()).unwrap();
    let recs = s.scan("todo ");
    match plan_todo("add", "tea", "", &recs) {
        TodoAction::Append { id, text } => {
            assert_eq!(id, 3);
            assert_eq!(text, "todo 3 tea");
        }
        _ => panic!("add"),
    }
    match plan_todo("rm", "milk", "", &recs) {
        TodoAction::Delete { handle } => assert_eq!(handle, 1),
        _ => panic!("rm"),
    }
    match plan_todo("rm", "", "2", &recs) {
        TodoAction::Delete { handle } => assert_eq!(handle, 2),
        _ => panic!("rm by id"),
    }
    assert!(matches!(plan_todo("rm", "bread", "9", &recs), TodoAction::NotFound));
    match plan_todo("edit", "butter", "1", &recs) {
        TodoAction::Replace { handle, id, text } => {
            assert_eq!((handle, id), (1, 1));
            assert_eq!(text, "todo 1 butter");
        }
        _ => panic!("edit"),
    }
    assert!(matches!(plan_todo("edit", "butter", "7", &recs), TodoAction::NotFound));
    assert!(matches!(plan_todo("edit", "butter", "x", &recs), TodoAction::Invalid));
    match plan_todo("ls", "", "", &recs) {
        TodoAction::Show { entries } => {
            assert_eq!(entries.len(), 2);
            assert_eq!((entries[0].id.as_str(), entries[0].message.as_str()), ("2", "eggs"));
        }
        _ => panic!("ls"),
    }
    assert!(matches!(plan_todo("ls", "", "", &Vec::new()), TodoAction::Show { entries } if entries.is_empty()));
    assert!(matches!(plan_todo("drop", "", "", &recs), TodoAction::Invalid));
}
