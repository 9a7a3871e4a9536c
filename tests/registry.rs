use tauri_plugin_libsql::error::Error;
use tauri_plugin_libsql::registry::Registry;

fn s(x: &str) -> String {
    x.to_string()
}

#[test]
fn loading_twice_keeps_the_first_connection() {
    let mut reg: Registry<u32> = Registry::new();
    assert!(!reg.contains(&s("a.db")));
    let (p1, back1) = reg.insert_loaded(s("a.db"), 1);
    let (p2, back2) = reg.insert_loaded(s("a.db"), 2);
    assert_eq!(p1, "a.db");
    assert_eq!(p2, "a.db");
    assert_eq!(back1, None);
    assert_eq!(back2, Some(2));
    assert_eq!(reg.len(), 1);
    assert_eq!(reg.get(&s("a.db")), Ok(&1));
}

#[test]
fn get_unloaded_path_is_not_loaded_error() {
    let reg: Registry<u32> = Registry::new();
    assert_eq!(reg.get(&s("never.db")), Err(Error::DatabaseNotLoaded(s("never.db"))));
    assert_eq!(
        Error::DatabaseNotLoaded(s("never.db")).message(),
        "database never.db not loaded"
    );
}

#[test]
fn close_all_after_three_loads_empties_registry() {
    let mut reg: Registry<u32> = Registry::new();
    reg.insert_loaded(s("a.db"), 1);
    reg.insert_loaded(s("b.db"), 2);
    reg.insert_loaded(s(":memory:"), 3);
    assert_eq!(reg.len(), 3);
    let mut closed = reg.close(None);
    closed.sort();
    assert_eq!(closed, vec![1, 2, 3]);
    assert_eq!(reg.len(), 0);
    assert!(reg.get(&s("a.db")).is_err());
}

#[test]
fn close_one_path() {
    let mut reg: Registry<u32> = Registry::new();
    reg.insert_loaded(s("a.db"), 1);
    reg.insert_loaded(s("b.db"), 2);
    assert_eq!(reg.close(Some(s("a.db"))), vec![1]);
    assert_eq!(reg.close(Some(s("a.db"))), Vec::<u32>::new());
    assert_eq!(reg.len(), 1);
    assert_eq!(reg.get(&s("b.db")), Ok(&2));
    assert_eq!(reg.remove(&s("b.db")), Some(2));
    assert_eq!(reg.close(None), Vec::<u32>::new());
}
