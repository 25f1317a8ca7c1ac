use jumper::cli::{
    db_dir, db_path, duplicate_name_message, get_report, list_lines, not_found_message,
    save_name, save_report,
};
use jumper::store::{SavedPath, StoreError};

#[test]
fn save_name_prefers_given_name() {
    assert_eq!(save_name(Some("mine"), "/home/u/work"), Some("mine".to_string()));
}

#[test]
fn save_name_takes_final_component() {
    assert_eq!(save_name(None, "/home/u/work"), Some("work".to_string()));
    assert_eq!(save_name(None, "/home/u/work/"), Some("work".to_string()));
}

#[test]
fn save_name_of_root_is_none() {
    assert_eq!(save_name(None, "/"), None);
}

#[test]
fn storage_location_under_home() {
    assert_eq!(db_dir("/home/u"), "/home/u/.config/jumper");
    assert_eq!(db_path("/home/u"), "/home/u/.config/jumper/db.sqlite");
}

#[test]
fn messages() {
    assert_eq!(
        duplicate_name_message("work"),
        "Name 'work' is already used for another path."
    );
    assert_eq!(not_found_message("docs"), "Path 'docs' not found.");
}

#[test]
fn list_pads_names_to_the_widest() {
    let paths = vec![
        SavedPath::new("a", "/x"),
        SavedPath::new("work", "/home/u/work"),
        SavedPath::new("ab", "/y"),
    ];
    assert_eq!(
        list_lines(&paths),
        vec![
            "a    | /x".to_string(),
            "work | /home/u/work".to_string(),
            "ab   | /y".to_string(),
        ]
    );
}

#[test]
fn list_of_nothing_is_empty() {
    assert!(list_lines(&Vec::new()).is_empty());
}

#[test]
fn save_report_cases() {
    assert_eq!(save_report("w", Ok(())), Ok(None));
    assert_eq!(
        save_report("w", Err(StoreError::DuplicateName)),
        Ok(Some("Name 'w' is already used for another path.".to_string()))
    );
    assert_eq!(
        save_report("w", Err(StoreError::StorageUnavailable)),
        Err(StoreError::StorageUnavailable)
    );
}

#[test]
fn get_report_cases() {
    assert_eq!(get_report("d", Ok("/p".to_string())), Ok("/p".to_string()));
    assert_eq!(
        get_report("d", Err(StoreError::NotFound)),
        Err("Path 'd' not found.".to_string())
    );
    assert_eq!(
        get_report("d", Err(StoreError::Other)),
        Err("storage error".to_string())
    );
}
