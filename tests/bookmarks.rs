use jumper::store::{SavedPath, Store, StoreError};

fn pairs(store: &Store) -> Vec<(String, String)> {
    store.list().into_iter().map(|b| (b.name, b.path)).collect()
}

fn owned(items: &[(&str, &str)]) -> Vec<(String, String)> {
    items.iter().map(|(n, p)| (n.to_string(), p.to_string())).collect()
}

#[test]
fn scenario_work_and_docs() {
    let mut store = Store::create();
    assert_eq!(store.save("work", "/home/u/work"), Ok(()));
    assert_eq!(store.save("docs", "/home/u/docs"), Ok(()));
    assert_eq!(
        pairs(&store),
        owned(&[("work", "/home/u/work"), ("docs", "/home/u/docs")])
    );
    assert_eq!(store.get("docs"), Ok("/home/u/docs".to_string()));
    assert_eq!(store.save("work", "/tmp"), Err(StoreError::DuplicateName));
    assert_eq!(
        pairs(&store),
        owned(&[("work", "/home/u/work"), ("docs", "/home/u/docs")])
    );
    store.remove("work");
    assert_eq!(store.get("work"), Err(StoreError::NotFound));
    assert_eq!(pairs(&store), owned(&[("docs", "/home/u/docs")]));
}

#[test]
fn save_then_get_returns_path() {
    let mut store = Store::create();
    assert_eq!(store.save("proj", "/srv/projects/a b"), Ok(()));
    assert_eq!(store.get("proj"), Ok("/srv/projects/a b".to_string()));
}

#[test]
fn same_path_under_two_names() {
    let mut store = Store::create();
    assert_eq!(store.save("a", "/same"), Ok(()));
    assert_eq!(store.save("b", "/same"), Ok(()));
    assert_eq!(store.get("a"), Ok("/same".to_string()));
    assert_eq!(store.get("b"), Ok("/same".to_string()));
}

#[test]
fn second_save_of_a_name_fails_without_change() {
    let mut store = Store::create();
    assert_eq!(store.save("x", "/one"), Ok(()));
    assert_eq!(store.save("x", "/two"), Err(StoreError::DuplicateName));
    assert_eq!(pairs(&store), owned(&[("x", "/one")]));
    assert_eq!(store.get("x"), Ok("/one".to_string()));
}

#[test]
fn get_of_unsaved_name_is_not_found() {
    let mut store = Store::create();
    assert_eq!(store.get("nothing"), Err(StoreError::NotFound));
    assert_eq!(store.save("something", "/s"), Ok(()));
    assert_eq!(store.get("nothing"), Err(StoreError::NotFound));
    assert_eq!(store.get("somethin"), Err(StoreError::NotFound));
}

#[test]
fn list_of_empty_store_is_empty() {
    let store = Store::create();
    assert!(store.list().is_empty());
}

#[test]
fn list_keeps_save_order() {
    let mut store = Store::create();
    assert_eq!(store.save("zeta", "/z"), Ok(()));
    assert_eq!(store.save("alpha", "/a"), Ok(()));
    assert_eq!(store.save("mu", "/m"), Ok(()));
    assert_eq!(
        pairs(&store),
        owned(&[("zeta", "/z"), ("alpha", "/a"), ("mu", "/m")])
    );
}

#[test]
fn remove_then_get_is_not_found() {
    let mut store = Store::create();
    assert_eq!(store.save("a", "/a"), Ok(()));
    assert_eq!(store.save("b", "/b"), Ok(()));
    store.remove("a");
    assert_eq!(store.get("a"), Err(StoreError::NotFound));
    assert_eq!(pairs(&store), owned(&[("b", "/b")]));
}

#[test]
fn remove_of_absent_name_changes_nothing() {
    let mut store = Store::create();
    assert_eq!(store.save("a", "/a"), Ok(()));
    store.remove("ghost");
    assert_eq!(store.get("ghost"), Err(StoreError::NotFound));
    assert_eq!(pairs(&store), owned(&[("a", "/a")]));
}

#[test]
fn name_can_be_saved_again_after_remove() {
    let mut store = Store::create();
    assert_eq!(store.save("a", "/old"), Ok(()));
    store.remove("a");
    assert_eq!(store.save("a", "/new"), Ok(()));
    assert_eq!(store.get("a"), Ok("/new".to_string()));
}

#[test]
fn saved_path_new_and_duplicate() {
    let b = SavedPath::new("n", "/p");
    let c = b.duplicate();
    assert_eq!((c.name.as_str(), c.path.as_str()), ("n", "/p"));
}

#[test]
fn error_descriptions() {
    assert_eq!(StoreError::StorageUnavailable.describe(), "storage unavailable");
    assert_eq!(StoreError::DuplicateName.describe(), "name already used");
    assert_eq!(StoreError::NotFound.describe(), "not found");
    assert_eq!(StoreError::Other.describe(), "storage error");
}
