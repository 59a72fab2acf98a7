use logquest::common::UUID;
use logquest::config::{
    id_file_name, ids_in_file_names, stale_ids, validate_eq_dir, CanonicalPath, EqDirProbe, EverQuestDirectoryError,
    LogQuestConfig,
};

fn probe(is_dir: bool, ini: bool, canonical: CanonicalPath, logs: Option<&str>) -> EqDirProbe {
    EqDirProbe { is_dir, has_eqclient_ini: ini, canonical, logs_dir: logs.map(|s| s.to_owned()) }
}

#[test]
fn eq_dir_validation() {
    let good = probe(true, true, CanonicalPath::Path("/games/eq".to_owned()), Some("/games/eq/Logs"));
    assert_eq!(validate_eq_dir(&good).unwrap(), "/games/eq");
    assert_eq!(
        validate_eq_dir(&probe(false, true, CanonicalPath::Failed, None)).unwrap_err(),
        EverQuestDirectoryError::DoesNotExist
    );
    assert_eq!(
        validate_eq_dir(&probe(true, false, CanonicalPath::Failed, None)).unwrap_err(),
        EverQuestDirectoryError::NotValidEverQuestDir
    );
    assert_eq!(
        validate_eq_dir(&probe(true, true, CanonicalPath::Failed, None)).unwrap_err(),
        EverQuestDirectoryError::CouldNotCanonicalize
    );
    assert_eq!(
        validate_eq_dir(&probe(true, true, CanonicalPath::NotUnicode, None)).unwrap_err(),
        EverQuestDirectoryError::CorruptedPath
    );
}

#[test]
fn setting_the_eq_dir() {
    let mut c = LogQuestConfig::new_with_config_file_path("/cfg/LogQuest.toml");
    assert!(!c.is_ready());
    let no_logs = probe(true, true, CanonicalPath::Path("/games/eq".to_owned()), None);
    assert_eq!(c.set_eq_dir(&no_logs).unwrap_err(), EverQuestDirectoryError::DoesNotHaveLogsDir);
    assert_eq!(c.everquest_directory.as_deref(), Some("/games/eq"));
    assert!(!c.is_ready());
    let good = probe(true, true, CanonicalPath::Path("/games/eq2".to_owned()), Some("/games/eq2/Logs"));
    assert_eq!(c.set_eq_dir(&good).unwrap(), "/games/eq2");
    assert_eq!(c.logs_dir_path.as_deref(), Some("/games/eq2/Logs"));
    assert!(c.is_ready());
    let other = probe(true, true, CanonicalPath::Path("/games/eq3".to_owned()), Some("/games/eq3/Logs"));
    c.set_eq_dir(&other).unwrap();
    assert_eq!(c.logs_dir_path.as_deref(), Some("/games/eq2/Logs"));
    let bad = probe(false, false, CanonicalPath::Failed, None);
    assert!(c.set_eq_dir(&bad).is_err());
    assert_eq!(c.everquest_directory.as_deref(), Some("/games/eq3"));
    assert_eq!(c.config_file_path, "/cfg/LogQuest.toml");
}

#[test]
fn loaded_config_resolution() {
    let good = probe(true, true, CanonicalPath::Path("/games/eq".to_owned()), Some("/games/eq/Logs"));
    let c = LogQuestConfig::resolve_loaded(Some("~/eq".to_owned()), Some(&good), None, "/cfg/x.toml");
    assert_eq!(c.everquest_directory.as_deref(), Some("/games/eq"));
    assert_eq!(c.logs_dir_path.as_deref(), Some("/games/eq/Logs"));
    let c = LogQuestConfig::resolve_loaded(Some("~/eq".to_owned()), Some(&good), Some("/other/logs".to_owned()), "/cfg/x.toml");
    assert_eq!(c.logs_dir_path.as_deref(), Some("/other/logs"));
    let bad = probe(false, false, CanonicalPath::Failed, Some("/x"));
    let c = LogQuestConfig::resolve_loaded(Some("~/eq".to_owned()), Some(&bad), None, "/cfg/x.toml");
    assert!(c.everquest_directory.is_none());
    assert!(c.logs_dir_path.is_none());
    let c = LogQuestConfig::resolve_loaded(None, None, Some("/l".to_owned()), "/cfg/x.toml");
    assert!(c.everquest_directory.is_none());
    assert_eq!(c.logs_dir_path.as_deref(), Some("/l"));
}

#[test]
fn data_file_names() {
    let id = "0f8fad5b-d9cb-469f-a165-70867728950e";
    let names = vec![
        format!("{id}.json"),
        "tree.json".to_owned(),
        format!("{id}.jsonx"),
        format!("{id}.JSON"),
        "0f8fad5b-d9cb-469f-a165-70867728950é.json".to_owned(),
    ];
    let ids = ids_in_file_names(&names);
    assert_eq!(ids.len(), 1);
    assert_eq!(ids[0].as_str(), id);
    assert_eq!(id_file_name(&UUID::from_str_unchecked(id)), format!("{id}.json"));
}

#[test]
fn stale_data_files() {
    let a = UUID::from_str_unchecked("a");
    let b = UUID::from_str_unchecked("b");
    let c = UUID::from_str_unchecked("c");
    let persisted = vec![a.clone(), b.clone(), c.clone(), a.clone()];
    let kept = vec![b.clone()];
    let stale = stale_ids(&persisted, &kept);
    let stale: Vec<&str> = stale.iter().map(|u| u.as_str()).collect();
    assert_eq!(stale, vec!["a", "c"]);
    assert!(stale_ids(&persisted, &persisted).is_empty());
}
