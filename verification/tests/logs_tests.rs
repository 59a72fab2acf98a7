use logquest::logs::{
    is_valid_log_file_name, reaction_to, ActiveCharacterTracker, Character, CharacterChange, FileChangeKind,
    FollowedFileReaction, Line, LogFileCursor, LogFileCursorCache, LogFileCursorCacheEntry, LogFileEvent,
};

#[test]
fn log_file_names() {
    assert!(is_valid_log_file_name("eqlog_Xenk_vox.txt"));
    assert!(is_valid_log_file_name("/home/me/EQ/Logs/eqlog_Xenk_vox.txt"));
    assert!(is_valid_log_file_name(r"C:\EQ\Logs\eqlog_Xenk_P1999Green.txt"));
    assert!(!is_valid_log_file_name("/home/me/EQ/Logs/xeqlog_Xenk_vox.txt"));
    assert!(!is_valid_log_file_name("eqlog_Xenk_vox.txt.bak"));
    assert!(!is_valid_log_file_name("eqlog__vox.txt"));
    assert!(!is_valid_log_file_name("eqlog_Xenk_.txt"));
    assert!(!is_valid_log_file_name("eqlog_Xenk_vox.old.txt"));
    assert!(!is_valid_log_file_name("dbg.txt"));
    assert!(!is_valid_log_file_name(""));
}

#[test]
fn character_from_log_file_name() {
    let c = Character::from("/home/me/EQ/Logs/eqlog_Xenk_vox.txt");
    assert_eq!(c.name, "Xenk");
    assert_eq!(c.server, "vox");
    assert_eq!(c.log_file_path, "/home/me/EQ/Logs/eqlog_Xenk_vox.txt");
    let c = Character::from(r"C:\Logs\eqlog_Bob_server_one.txt");
    assert_eq!(c.name, "Bob");
    assert_eq!(c.server, "server_one");
}

#[test]
fn log_lines() {
    let line = Line::from("[Thu Jul 18 17:35:14 2024] You gain experience!!").unwrap();
    assert_eq!(line.raw_datetime, "Thu Jul 18 17:35:14 2024");
    assert_eq!(line.content, "You gain experience!!");
    let line = Line::from("[Thu Jul 18 17:35:14 2024] You are 50&PCT; done&PCT;").unwrap();
    assert_eq!(line.content, "You are 50% done%");
    let line = Line::from("[x] ").unwrap();
    assert_eq!(line.content, "");
    assert_eq!(Line::from("no stamp").unwrap_err().0, "no stamp");
    assert_eq!(Line::from("[no end").unwrap_err().0, "[no end");
    assert_eq!(Line::from("").unwrap_err().0, "");
}

#[test]
fn cursor_advances_by_bytes() {
    let mut c = LogFileCursor::new("/logs/eqlog_A_b.txt", 100);
    assert_eq!(c.position, 100);
    let line = c.advance("[Mon] Hi").unwrap();
    assert_eq!(line.content, "Hi");
    assert_eq!(c.position, 100 + 8 + 1);
    let line = c.advance("[Mon] Hé\r").unwrap();
    assert_eq!(line.content, "Hé");
    assert_eq!(c.position, 109 + 10 + 2);
    assert!(c.advance("garbage").is_none());
    assert_eq!(c.position, 121 + 7 + 1);
    assert_eq!(c.path, "/logs/eqlog_A_b.txt");
    let copy = c.clone();
    assert_eq!(copy.position, c.position);
}

#[test]
fn cursor_cache_hands_out_each_size_once() {
    let files = vec![
        ("/logs/eqlog_A_b.txt".to_owned(), 10u64),
        ("/logs/notes.txt".to_owned(), 20u64),
        ("/logs/eqlog_C_d.txt".to_owned(), 30u64),
    ];
    let mut cache = LogFileCursorCache::scan_dir(&files);
    assert_eq!(cache.cursors.len(), 2);
    let c = cache.get_cursor_and_mark_size_stale("/logs/eqlog_C_d.txt").unwrap();
    assert_eq!(c.position, 30);
    assert_eq!(c.path, "/logs/eqlog_C_d.txt");
    assert!(cache.get_cursor_and_mark_size_stale("/logs/eqlog_C_d.txt").is_none());
    assert!(cache.get_cursor_and_mark_size_stale("/logs/eqlog_X_y.txt").is_none());
    cache.reset_cursor_position("/logs/eqlog_C_d.txt", Some(42));
    assert_eq!(cache.get_cursor_and_mark_size_stale("/logs/eqlog_C_d.txt").unwrap().position, 42);
    cache.reset_cursor_position("/logs/eqlog_A_b.txt", None);
    assert!(cache.cursors.iter().all(|s| s.path != "/logs/eqlog_A_b.txt"));
    assert!(cache.get_cursor_and_mark_size_stale("/logs/eqlog_A_b.txt").is_none());
    assert!(cache
        .cursors
        .iter()
        .any(|s| s.path == "/logs/eqlog_A_b.txt" && s.entry == LogFileCursorCacheEntry::StaleSize));
}

#[test]
fn file_events_keep_log_files_only() {
    let paths = vec![
        ("eqlog_A_b.txt".to_owned(), "/abs/eqlog_A_b.txt".to_owned()),
        ("other.txt".to_owned(), "/abs/other.txt".to_owned()),
    ];
    let evs = logquest::logs::log_file_events(FileChangeKind::DataModified, &paths);
    assert_eq!(evs.len(), 1);
    assert!(matches!(&evs[0], LogFileEvent::Updated(p) if p == "/abs/eqlog_A_b.txt"));
    let evs = logquest::logs::log_file_events(FileChangeKind::FileCreated, &paths);
    assert!(matches!(&evs[0], LogFileEvent::Created(_)));
    let evs = logquest::logs::log_file_events(FileChangeKind::FileRemoved, &paths);
    assert!(matches!(&evs[0], LogFileEvent::Deleted(_)));
    assert!(logquest::logs::log_file_events(FileChangeKind::Other, &paths).is_empty());
}

#[test]
fn followed_file_reactions() {
    let f = "/abs/eqlog_A_b.txt";
    assert_eq!(reaction_to(f, Some(&LogFileEvent::Updated(f.to_owned()))), FollowedFileReaction::Wake);
    assert_eq!(reaction_to(f, Some(&LogFileEvent::Created(f.to_owned()))), FollowedFileReaction::Ignore);
    assert_eq!(reaction_to(f, Some(&LogFileEvent::Deleted(f.to_owned()))), FollowedFileReaction::Stop);
    assert_eq!(reaction_to(f, Some(&LogFileEvent::Updated("/abs/x".to_owned()))), FollowedFileReaction::Ignore);
    assert_eq!(reaction_to(f, Some(&LogFileEvent::Deleted("/abs/x".to_owned()))), FollowedFileReaction::Ignore);
    assert_eq!(reaction_to(f, None), FollowedFileReaction::Ignore);
}

#[test]
fn active_character_follows_the_latest_log() {
    let mut t = ActiveCharacterTracker::new();
    let a = "/l/eqlog_Ann_vox.txt".to_owned();
    let b = "/l/eqlog_Bob_vox.txt".to_owned();
    match t.on_event(&LogFileEvent::Updated(a.clone())) {
        Some(CharacterChange::Switch(c)) => assert_eq!(c.name, "Ann"),
        _ => panic!("expected a switch"),
    }
    assert!(t.on_event(&LogFileEvent::Updated(a.clone())).is_none());
    assert!(t.on_event(&LogFileEvent::Deleted(b.clone())).is_none());
    match t.on_event(&LogFileEvent::Created(b.clone())) {
        Some(CharacterChange::Switch(c)) => assert_eq!(c.server, "vox"),
        _ => panic!("expected a switch"),
    }
    assert!(matches!(t.on_event(&LogFileEvent::Deleted(b.clone())), Some(CharacterChange::Clear)));
    assert!(t.current_file.is_none());
}
