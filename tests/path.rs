use tauri_plugin_libsql::error::Error;
use tauri_plugin_libsql::path::{needs_sync, resolve_local_path, resolve_target, LocalPath, Target};

fn file(s: &str) -> Result<LocalPath, Error> {
    Ok(LocalPath::File(s.to_string()))
}

#[test]
fn escaping_path_is_refused() {
    assert_eq!(
        resolve_local_path("../../etc/passwd", "/data/app"),
        Err(Error::InvalidDbUrl("path '../../etc/passwd' escapes the base directory".to_string()))
    );
    assert!(matches!(
        resolve_target("../../etc/passwd", "/data/app", None, None),
        Err(Error::InvalidDbUrl(_))
    ));
}

#[test]
fn absolute_path_is_not_sandboxed() {
    assert_eq!(resolve_local_path("/tmp/x.db", "/data/app"), file("/tmp/x.db"));
    assert_eq!(
        resolve_target("/tmp/x.db", "/data/app", None, None),
        Ok(Target::Local(LocalPath::File("/tmp/x.db".to_string())))
    );
}

#[test]
fn relative_paths_are_joined_and_normalized() {
    assert_eq!(resolve_local_path("sqlite:test.db", "/data/app"), file("/data/app/test.db"));
    assert_eq!(resolve_local_path("test.db", "/data/app/"), file("/data/app/test.db"));
    assert_eq!(resolve_local_path("./a/../b//c.db", "/data/app"), file("/data/app/b/c.db"));
    assert_eq!(resolve_local_path("sub/../../app/x.db", "/data/app"), file("/data/app/x.db"));
    assert!(resolve_local_path("..", "/data/app").is_err());
}

#[test]
fn parent_at_root_is_a_no_op() {
    assert_eq!(resolve_local_path("../../x.db", "/"), file("/x.db"));
}

#[test]
fn memory_database() {
    assert_eq!(resolve_local_path(":memory:", "/data/app"), Ok(LocalPath::Memory));
    assert_eq!(resolve_local_path("sqlite::memory:", "/data/app"), Ok(LocalPath::Memory));
    assert_eq!(
        resolve_target(":memory:", "/data/app", None, None),
        Ok(Target::Local(LocalPath::Memory))
    );
}

#[test]
fn remote_and_replica_targets() {
    assert_eq!(
        resolve_target("libsql://db.example.io", "/data/app", None, Some("tok".to_string())),
        Ok(Target::Remote { url: "libsql://db.example.io".to_string(), auth_token: "tok".to_string() })
    );
    assert_eq!(
        resolve_target("https://db.example.io", "/data/app", None, None),
        Ok(Target::Remote { url: "https://db.example.io".to_string(), auth_token: String::new() })
    );
    let replica = resolve_target(
        "local.db",
        "/data/app",
        Some("libsql://db.example.io".to_string()),
        Some("tok".to_string()),
    )
    .unwrap();
    assert_eq!(
        replica,
        Target::Replica {
            local: LocalPath::File("/data/app/local.db".to_string()),
            sync_url: "libsql://db.example.io".to_string(),
            auth_token: "tok".to_string(),
        }
    );
    assert!(needs_sync(&replica));
    assert!(!needs_sync(&Target::Local(LocalPath::Memory)));
    assert!(matches!(
        resolve_target("../x.db", "/data/app", Some("libsql://h".to_string()), None),
        Err(Error::InvalidDbUrl(_))
    ));
}
