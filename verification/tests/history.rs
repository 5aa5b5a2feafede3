use clipboard_history::commands::{
    add_to_folder, clear_history, clipboard_payload, create_folder, delete_entry,
    delete_folder, get_entry_by_id, get_entry_folders, get_folder_entries, get_history,
    get_raw_content, list_folders, remove_from_folder, rename_folder, search_history,
    toggle_pin, validate_folder_name, ClipboardPayload,
};
use clipboard_history::listener::store_event;
use clipboard_history::models::{ContentType, Folder};
use clipboard_history::settings::{parse_decimal_i64, SettingsManager};
use clipboard_history::store::repair::repair_default_folders;
use clipboard_history::store::{Database, DbError, EntryRow, FolderEntryRow, SettingRow};

fn ts(n: u32) -> String {
    format!("2024-01-01T00:00:{:02}.000Z", n)
}

fn opened() -> Database {
    let mut db = Database::new();
    db.run_migrations(&ts(0)).unwrap();
    db
}

fn add_text(db: &mut Database, n: u32, text: &str) -> i64 {
    db.insert_or_update_entry(
        &ts(n),
        &format!("hash-{}", text),
        text,
        &ContentType::Text,
        Some(text.as_bytes()),
        text.len() as i64,
        "app",
        "class",
    )
    .unwrap()
    .unwrap()
}

fn folder_ok(r: Result<Folder, String>) -> Folder {
    match r {
        Ok(f) => f,
        Err(e) => panic!("{}", e),
    }
}

#[test]
fn migrations_create_default_folder_and_settings() {
    let db = opened();
    let folders = list_folders(&db).unwrap();
    assert_eq!(folders.len(), 1);
    assert_eq!(folders[0].name, "收藏夹");
    assert!(folders[0].is_default);
    assert_eq!(folders[0].sort_order, 0);
    assert_eq!(folders[0].entry_count, 0);
    let all = SettingsManager::get_all(&db).unwrap();
    let keys: Vec<&str> = all.iter().map(|e| e.key.as_str()).collect();
    assert_eq!(
        keys,
        vec![
            "hotkey_modifiers",
            "hotkey_key",
            "max_history",
            "theme",
            "autostart",
            "clear_on_exit",
            "max_item_size_mb"
        ]
    );
    assert_eq!(SettingsManager::get(&db, "max_history").unwrap(), Some("500".to_string()));
    assert_eq!(SettingsManager::get(&db, "hotkey_key").unwrap(), Some("V".to_string()));
    assert_eq!(SettingsManager::max_history(&db), 500);
}

#[test]
fn migrations_run_twice_change_nothing_more() {
    let mut db = opened();
    db.run_migrations(&ts(9)).unwrap();
    assert_eq!(list_folders(&db).unwrap().len(), 1);
    assert_eq!(SettingsManager::get_all(&db).unwrap().len(), 7);
}

#[test]
fn settings_read_back_and_limit() {
    let mut db = opened();
    SettingsManager::set(&mut db, &ts(1), "max_history", "3").unwrap();
    assert_eq!(SettingsManager::get(&db, "max_history").unwrap(), Some("3".to_string()));
    assert_eq!(SettingsManager::max_history(&db), 3);
    SettingsManager::set(&mut db, &ts(2), "max_history", "lots").unwrap();
    assert_eq!(SettingsManager::max_history(&db), 500);
    SettingsManager::set(&mut db, &ts(3), "new_key", "x").unwrap();
    assert_eq!(SettingsManager::get(&db, "new_key").unwrap(), Some("x".to_string()));
    assert_eq!(SettingsManager::get(&db, "missing").unwrap(), None);
    assert_eq!(SettingsManager::get(&db, "theme").unwrap(), Some("system".to_string()));
}

#[test]
fn decimal_numbers() {
    assert_eq!(parse_decimal_i64("500"), Some(500));
    assert_eq!(parse_decimal_i64("-5"), Some(-5));
    assert_eq!(parse_decimal_i64("+7"), Some(7));
    assert_eq!(parse_decimal_i64("007"), Some(7));
    assert_eq!(parse_decimal_i64(""), None);
    assert_eq!(parse_decimal_i64("-"), None);
    assert_eq!(parse_decimal_i64("12a"), None);
    assert_eq!(parse_decimal_i64(" 1"), None);
    assert_eq!(parse_decimal_i64("９"), None);
    assert_eq!(parse_decimal_i64("9223372036854775807"), Some(i64::MAX));
    assert_eq!(parse_decimal_i64("9223372036854775808"), None);
    assert_eq!(parse_decimal_i64("-9223372036854775808"), Some(i64::MIN));
    assert_eq!(parse_decimal_i64("-9223372036854775809"), None);
    for s in ["0", "42", "-17", "123456789"] {
        assert_eq!(parse_decimal_i64(s), s.parse::<i64>().ok());
    }
}

#[test]
fn same_content_is_stored_once() {
    let mut db = opened();
    let id = add_text(&mut db, 1, "hello");
    assert_eq!(id, 1);
    let again = db.insert_or_update_entry(
        &ts(5),
        "hash-hello",
        "hello",
        &ContentType::Text,
        Some(b"hello"),
        5,
        "app",
        "class",
    );
    assert_eq!(again, Ok(None));
    let page = get_history(&db, 50, 0).unwrap();
    assert_eq!(page.len(), 1);
    assert_eq!(page[0].last_accessed, ts(5));
    assert_eq!(page[0].captured_at, ts(1));
}

#[test]
fn stored_entry_reads_back() {
    let mut db = opened();
    let id = add_text(&mut db, 1, "abc");
    let s = get_entry_by_id(&db, id).unwrap();
    assert_eq!(s.id, id);
    assert_eq!(s.text_preview, "abc");
    assert_eq!(s.content_type, "text");
    assert_eq!(s.content_hash, "hash-abc");
    assert_eq!(s.content_size, 3);
    assert_eq!(s.source_app, "app");
    assert!(!s.is_pinned);
    assert_eq!(get_raw_content(&db, id).unwrap(), b"abc".to_vec());
    assert_eq!(get_entry_by_id(&db, 99).unwrap_err(), "条目不存在");
    assert_eq!(get_raw_content(&db, 99).unwrap_err(), "条目不存在或无原始内容");
}

#[test]
fn deleted_content_only_refreshes_last_access() {
    let mut db = opened();
    let id = add_text(&mut db, 1, "gone");
    toggle_pin(&mut db, &ts(2), id).unwrap();
    delete_entry(&mut db, id).unwrap();
    assert!(get_entry_by_id(&db, id).is_err());
    let r = db.insert_or_update_entry(
        &ts(3),
        "hash-gone",
        "gone",
        &ContentType::Text,
        None,
        4,
        "",
        "",
    );
    assert_eq!(r, Ok(None));
    assert!(get_entry_by_id(&db, id).is_err());
    assert!(get_history(&db, 50, 0).unwrap().is_empty());
    assert_eq!(db.entry_rows().len(), 1);
    assert_eq!(db.entry_rows()[0].last_accessed, ts(3));
    assert!(db.entry_rows()[0].is_deleted);
}

#[test]
fn database_error_messages() {
    assert_eq!(DbError::ConstraintViolation.message(), "constraint failed");
    assert_eq!(DbError::DatabaseFull.message(), "database or disk is full");
    assert_eq!(DbError::InvalidData.message(), "database disk image is malformed");
}

#[test]
fn history_pages_by_recency() {
    let mut db = opened();
    let a = add_text(&mut db, 1, "a");
    let b = add_text(&mut db, 2, "b");
    let c = add_text(&mut db, 3, "c");
    let ids: Vec<i64> = get_history(&db, 50, 0).unwrap().iter().map(|s| s.id).collect();
    assert_eq!(ids, vec![c, b, a]);
    let ids: Vec<i64> = get_history(&db, 1, 1).unwrap().iter().map(|s| s.id).collect();
    assert_eq!(ids, vec![b]);
    let ids: Vec<i64> = get_history(&db, -1, -3).unwrap().iter().map(|s| s.id).collect();
    assert_eq!(ids, vec![c, b, a]);
    assert!(get_history(&db, 5, 10).unwrap().is_empty());
    delete_entry(&mut db, b).unwrap();
    let ids: Vec<i64> = get_history(&db, 50, 0).unwrap().iter().map(|s| s.id).collect();
    assert_eq!(ids, vec![c, a]);
}

#[test]
fn search_ignores_ascii_case() {
    let mut db = opened();
    let a = add_text(&mut db, 1, "Hello World");
    add_text(&mut db, 2, "other text");
    let b = add_text(&mut db, 3, "say hello");
    let ids: Vec<i64> = search_history(&db, "HELLO", 10).unwrap().iter().map(|s| s.id).collect();
    assert_eq!(ids, vec![b, a]);
    let ids: Vec<i64> = search_history(&db, "hello", 1).unwrap().iter().map(|s| s.id).collect();
    assert_eq!(ids, vec![b]);
    assert_eq!(search_history(&db, "", 10).unwrap().len(), 3);
    assert!(search_history(&db, "missing", 10).unwrap().is_empty());
}

#[test]
fn pin_goes_with_default_folder() {
    let mut db = opened();
    let id = add_text(&mut db, 1, "keep me");
    let default_id = list_folders(&db).unwrap()[0].id;
    assert_eq!(toggle_pin(&mut db, &ts(2), id), Ok(true));
    assert_eq!(get_entry_folders(&db, id).unwrap(), vec![default_id]);
    assert!(get_entry_by_id(&db, id).unwrap().is_pinned);
    assert_eq!(list_folders(&db).unwrap()[0].entry_count, 1);
    assert_eq!(toggle_pin(&mut db, &ts(3), id), Ok(false));
    assert!(get_entry_folders(&db, id).unwrap().is_empty());
    assert!(!get_entry_by_id(&db, id).unwrap().is_pinned);
    assert_eq!(toggle_pin(&mut db, &ts(4), 99), Ok(false));
}

#[test]
fn clearing_keeps_pinned_entries() {
    let mut db = opened();
    let a = add_text(&mut db, 1, "a");
    let b = add_text(&mut db, 2, "b");
    let c = add_text(&mut db, 3, "c");
    toggle_pin(&mut db, &ts(4), b).unwrap();
    assert_eq!(clear_history(&mut db), Ok(2));
    let ids: Vec<i64> = get_history(&db, 50, 0).unwrap().iter().map(|s| s.id).collect();
    assert_eq!(ids, vec![b]);
    assert!(get_entry_by_id(&db, a).is_err());
    assert!(get_entry_by_id(&db, c).is_err());
    assert_eq!(clear_history(&mut db), Ok(0));
}

#[test]
fn cleanup_keeps_most_recent_and_pinned() {
    let mut db = opened();
    let a = add_text(&mut db, 1, "a");
    let b = add_text(&mut db, 2, "b");
    let c = add_text(&mut db, 3, "c");
    let d = add_text(&mut db, 4, "d");
    toggle_pin(&mut db, &ts(5), a).unwrap();
    assert_eq!(db.cleanup_old_entries(1), 2);
    let ids: Vec<i64> = get_history(&db, 50, 0).unwrap().iter().map(|s| s.id).collect();
    assert_eq!(ids, vec![d, a]);
    assert!(get_entry_by_id(&db, b).is_err());
    assert!(get_entry_by_id(&db, c).is_err());
    assert_eq!(db.cleanup_old_entries(1), 0);
    assert_eq!(db.cleanup_old_entries(-1), 2);
    let ids: Vec<i64> = get_history(&db, 50, 0).unwrap().iter().map(|s| s.id).collect();
    assert_eq!(ids, vec![a]);
}

#[test]
fn folder_names_are_checked() {
    assert_eq!(validate_folder_name("工作"), Ok(()));
    assert_eq!(validate_folder_name("   "), Err("文件夹名称不能为空".to_string()));
    assert_eq!(validate_folder_name(""), Err("文件夹名称不能为空".to_string()));
    let fifty = "名".repeat(50);
    assert_eq!(validate_folder_name(&format!("  {}  ", fifty)), Ok(()));
    let fifty_one = "名".repeat(51);
    assert_eq!(
        validate_folder_name(&fifty_one),
        Err("文件夹名称不能超过 50 个字符".to_string())
    );
    assert_eq!(validate_folder_name("\u{3000}\t\n"), Err("文件夹名称不能为空".to_string()));
}

#[test]
fn folders_are_created_trimmed_and_last() {
    let mut db = opened();
    let f = folder_ok(create_folder(&mut db, &ts(1), "  工作  "));
    assert_eq!(f.name, "工作");
    assert!(!f.is_default);
    assert_eq!(f.sort_order, 1);
    let g = folder_ok(create_folder(&mut db, &ts(2), "学习"));
    assert_eq!(g.sort_order, 2);
    assert!(g.id > f.id);
    match create_folder(&mut db, &ts(3), "  ") {
        Ok(_) => panic!("an empty name was accepted"),
        Err(e) => assert_eq!(e, "文件夹名称不能为空"),
    }
    let names: Vec<String> = list_folders(&db).unwrap().into_iter().map(|f| f.name).collect();
    assert_eq!(names, vec!["收藏夹", "工作", "学习"]);
    rename_folder(&mut db, &ts(4), f.id, " 生活 ").unwrap();
    let names: Vec<String> = list_folders(&db).unwrap().into_iter().map(|f| f.name).collect();
    assert_eq!(names, vec!["收藏夹", "生活", "学习"]);
    assert_eq!(
        rename_folder(&mut db, &ts(5), f.id, ""),
        Err("文件夹名称不能为空".to_string())
    );
}

#[test]
fn default_folder_is_never_deleted() {
    let mut db = opened();
    let default_id = list_folders(&db).unwrap()[0].id;
    let f = folder_ok(create_folder(&mut db, &ts(1), "临时"));
    delete_folder(&mut db, default_id).unwrap();
    assert_eq!(list_folders(&db).unwrap().len(), 2);
    delete_folder(&mut db, f.id).unwrap();
    let folders = list_folders(&db).unwrap();
    assert_eq!(folders.len(), 1);
    assert_eq!(folders[0].id, default_id);
}

#[test]
fn folder_membership() {
    let mut db = opened();
    let f = folder_ok(create_folder(&mut db, &ts(1), "工作"));
    let a = add_text(&mut db, 2, "a");
    let b = add_text(&mut db, 3, "b");
    add_to_folder(&mut db, &ts(4), f.id, a).unwrap();
    add_to_folder(&mut db, &ts(5), f.id, b).unwrap();
    add_to_folder(&mut db, &ts(6), f.id, a).unwrap();
    let ids: Vec<i64> = get_folder_entries(&db, f.id, 50, 0)
        .unwrap()
        .iter()
        .map(|s| s.id)
        .collect();
    assert_eq!(ids, vec![b, a]);
    assert_eq!(get_entry_folders(&db, a).unwrap(), vec![f.id]);
    remove_from_folder(&mut db, f.id, b).unwrap();
    let ids: Vec<i64> = get_folder_entries(&db, f.id, 50, 0)
        .unwrap()
        .iter()
        .map(|s| s.id)
        .collect();
    assert_eq!(ids, vec![a]);
    delete_entry(&mut db, a).unwrap();
    assert!(get_folder_entries(&db, f.id, 50, 0).unwrap().is_empty());
    assert!(get_entry_folders(&db, a).unwrap().is_empty());
}

#[test]
fn clearing_default_folder_unpins() {
    let mut db = opened();
    let default_id = list_folders(&db).unwrap()[0].id;
    let a = add_text(&mut db, 1, "a");
    toggle_pin(&mut db, &ts(2), a).unwrap();
    assert_eq!(db.clear_folder_entries(default_id), 1);
    assert!(!get_entry_by_id(&db, a).unwrap().is_pinned);
    assert!(get_entry_folders(&db, a).unwrap().is_empty());
}

#[test]
fn payload_for_copying_back() {
    let mut db = opened();
    let t = add_text(&mut db, 1, "copy me");
    match clipboard_payload(&db, t).unwrap() {
        ClipboardPayload::Text(s) => assert_eq!(s, "copy me"),
        ClipboardPayload::Image(_) => panic!("text entry gave a picture"),
    }
    let img = db
        .insert_or_update_entry(
            &ts(2),
            "hash-img",
            "1×1 图片",
            &ContentType::Image,
            Some(&[1, 2, 3]),
            3,
            "",
            "",
        )
        .unwrap()
        .unwrap();
    match clipboard_payload(&db, img).unwrap() {
        ClipboardPayload::Image(b) => assert_eq!(b, vec![1, 2, 3]),
        ClipboardPayload::Text(_) => panic!("picture gave text"),
    }
    let bare = db
        .insert_or_update_entry(&ts(3), "hash-bare", "2×2 图片", &ContentType::Image, None, 0, "", "")
        .unwrap()
        .unwrap();
    assert_eq!(clipboard_payload(&db, bare).unwrap_err(), "图片原始数据不存在");
    assert_eq!(clipboard_payload(&db, 999).unwrap_err(), "条目不存在");
}

#[test]
fn rows_from_storage_are_checked() {
    let row = |id: i64, hash: &str| EntryRow {
        id,
        content_hash: hash.to_string(),
        text_preview: "t".to_string(),
        content_type: "text".to_string(),
        raw_content: None,
        content_size: 1,
        source_app: String::new(),
        source_class: String::new(),
        captured_at: ts(1),
        last_accessed: ts(1),
        is_pinned: false,
        is_deleted: false,
    };
    let ok = Database::from_rows(vec![row(1, "x"), row(2, "y")], vec![], vec![], vec![], 2, 0);
    assert!(ok.is_ok());
    let db = ok.ok().unwrap();
    assert_eq!(db.last_entry_id(), 2);
    let dup = Database::from_rows(vec![row(1, "x"), row(2, "x")], vec![], vec![], vec![], 2, 0);
    assert!(matches!(dup, Err(DbError::InvalidData)));
    let order = Database::from_rows(vec![row(2, "x"), row(1, "y")], vec![], vec![], vec![], 2, 0);
    assert!(matches!(order, Err(DbError::InvalidData)));
    let seq = Database::from_rows(vec![row(5, "x")], vec![], vec![], vec![], 4, 0);
    assert!(matches!(seq, Err(DbError::InvalidData)));
    let links = vec![
        FolderEntryRow { folder_id: 1, entry_id: 1, added_at: ts(1) },
        FolderEntryRow { folder_id: 1, entry_id: 1, added_at: ts(2) },
    ];
    let twice = Database::from_rows(vec![], vec![], links, vec![], 0, 0);
    assert!(matches!(twice, Err(DbError::InvalidData)));
    let settings = vec![
        SettingRow { key: "k".to_string(), value: "1".to_string(), updated_at: ts(1) },
        SettingRow { key: "k".to_string(), value: "2".to_string(), updated_at: ts(1) },
    ];
    let keys = Database::from_rows(vec![], vec![], vec![], settings, 0, 0);
    assert!(matches!(keys, Err(DbError::InvalidData)));
}

fn event(text: &str, kind: &str) -> clipboard_history::listener::ClipboardEvent {
    clipboard_history::listener::ClipboardEvent {
        text_preview: text.to_string(),
        content_hash: clipboard_history::dedup::DedupEngine::compute_hash(text.as_bytes()),
        content_type: kind.to_string(),
        raw_content: Some(text.as_bytes().to_vec()),
        content_size: text.len() as i64,
        source_app: "app".to_string(),
        source_class: "class".to_string(),
    }
}

#[test]
fn events_are_filed_and_history_trimmed() {
    let mut db = opened();
    SettingsManager::set(&mut db, &ts(0), "max_history", "2").unwrap();
    assert_eq!(store_event(&mut db, &ts(1), &event("one", "text")), Some(1));
    assert_eq!(store_event(&mut db, &ts(2), &event("two", "text")), Some(2));
    assert_eq!(store_event(&mut db, &ts(3), &event("one", "text")), None);
    assert_eq!(store_event(&mut db, &ts(4), &event("three", "video")), Some(3));
    let page = get_history(&db, 50, 0).unwrap();
    let ids: Vec<i64> = page.iter().map(|s| s.id).collect();
    assert_eq!(ids, vec![3, 1]);
    assert_eq!(page[0].content_type, "other");
    assert_eq!(page[0].source_app, "app");
}

#[test]
fn copying_back_writes_whole_text() {
    let mut db = opened();
    let long = "长".repeat(300);
    let id = db
        .insert_or_update_entry(
            &ts(1),
            "hash-long",
            &long.chars().take(200).collect::<String>(),
            &ContentType::Text,
            Some(long.as_bytes()),
            long.len() as i64,
            "",
            "",
        )
        .unwrap()
        .unwrap();
    match clipboard_payload(&db, id).unwrap() {
        ClipboardPayload::Text(s) => assert_eq!(s, long),
        ClipboardPayload::Image(_) => panic!("text entry gave a picture"),
    }
    let bare = db
        .insert_or_update_entry(&ts(2), "hash-bare-text", "only preview", &ContentType::Text, None, 0, "", "")
        .unwrap()
        .unwrap();
    match clipboard_payload(&db, bare).unwrap() {
        ClipboardPayload::Text(s) => assert_eq!(s, "only preview"),
        ClipboardPayload::Image(_) => panic!("text entry gave a picture"),
    }
    let broken = db
        .insert_or_update_entry(&ts(3), "hash-broken", "shown", &ContentType::Text, Some(&[0xff, 0xfe]), 2, "", "")
        .unwrap()
        .unwrap();
    match clipboard_payload(&db, broken).unwrap() {
        ClipboardPayload::Text(s) => assert_eq!(s, "shown"),
        ClipboardPayload::Image(_) => panic!("text entry gave a picture"),
    }
}

#[test]
fn hard_deletes_take_links_along() {
    let mut db = opened();
    let f = folder_ok(create_folder(&mut db, &ts(1), "工作"));
    let a = add_text(&mut db, 2, "a");
    let b = add_text(&mut db, 3, "b");
    add_to_folder(&mut db, &ts(4), f.id, a).unwrap();
    add_to_folder(&mut db, &ts(5), f.id, b).unwrap();
    assert_eq!(db.cleanup_old_entries(1), 1);
    assert_eq!(db.link_rows().len(), 1);
    assert_eq!(db.link_rows()[0].entry_id, b);
    delete_folder(&mut db, f.id).unwrap();
    assert!(db.link_rows().is_empty());
    assert!(get_entry_folders(&db, b).unwrap().is_empty());
}

#[test]
fn duplicate_default_folders_are_repaired() {
    let folder = |id: i64, is_default: bool| Folder {
        id,
        name: format!("f{}", id),
        is_default,
        sort_order: 0,
        created_at: ts(0),
        updated_at: ts(0),
    };
    let link = |folder_id: i64, entry_id: i64| FolderEntryRow { folder_id, entry_id, added_at: ts(1) };
    let (folders, links) = repair_default_folders(
        vec![folder(1, true), folder(2, true), folder(3, false), folder(4, true)],
        vec![link(1, 10), link(2, 10), link(3, 11), link(4, 12), link(2, 13)],
    );
    let ids: Vec<i64> = folders.iter().map(|f| f.id).collect();
    assert_eq!(ids, vec![1, 3]);
    let pairs: Vec<(i64, i64)> = links.iter().map(|l| (l.folder_id, l.entry_id)).collect();
    assert_eq!(pairs, vec![(1, 10), (3, 11)]);
    let db = Database::from_rows(vec![], folders, vec![], vec![], 0, 4);
    assert!(db.is_ok());
}
