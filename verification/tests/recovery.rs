use codex_kernel::recovery::{
    any_detail_is_corruption, backup_blocking_sqlite_home, backup_runtime_db_files,
    backup_runtime_dbs_for_fresh_start, create_unique_backup_dir, file_name,
    is_sqlite_corruption_error, sqlite_error_detail_is_corruption, sqlite_error_detail_is_lock,
    sqlite_paths, BackupStage, FreshStart, RuntimeDbBackup, SqliteHome,
};

#[test]
fn sqlite_error_detail_classifies_corruption_and_lock_errors() {
    assert!(sqlite_error_detail_is_corruption(
        "database disk image is malformed"
    ));
    assert!(sqlite_error_detail_is_corruption("file is not a database"));
    assert!(sqlite_error_detail_is_corruption(
        "error returned from database: (code: 11) database disk image is malformed"
    ));
    assert!(!sqlite_error_detail_is_corruption("database is locked"));
    assert!(sqlite_error_detail_is_lock("database is locked"));
    assert!(sqlite_error_detail_is_lock("database is busy"));
    assert!(!sqlite_error_detail_is_lock(
        "database disk image is malformed"
    ));
}

#[test]
fn every_sign_of_corruption_counts_in_any_case() {
    for detail in [
        "Database Disk Image Is Malformed",
        "database schema is malformed: x",
        "the DATABASE is corrupt",
        "SQLITE_CORRUPT_VTAB",
        "SQLITE_NOTADB",
        "x (code: 11)",
        "x (code: 26)",
    ] {
        assert!(sqlite_error_detail_is_corruption(detail), "{detail}");
    }
    for detail in ["", "(code: 12)", "code: 11", "database is fine"] {
        assert!(!sqlite_error_detail_is_corruption(detail), "{detail}");
    }
}

#[test]
fn causes_count_as_much_as_the_error_itself() {
    let plain = anyhow::Error::msg("cannot open state");
    assert!(!is_sqlite_corruption_error(&plain));
    let root = anyhow::Error::msg("file is not a database");
    assert!(is_sqlite_corruption_error(&root));
    let wrapped = root.context("cannot open state").context("startup failed");
    assert!(is_sqlite_corruption_error(&wrapped));
    assert!(any_detail_is_corruption(&vec![
        "a".to_string(),
        "sqlite_notadb".to_string()
    ]));
    assert!(!any_detail_is_corruption(&vec![]));
}

#[test]
fn databases_have_two_sidecars() {
    assert_eq!(
        sqlite_paths("/s/state.sqlite"),
        vec!["/s/state.sqlite", "/s/state.sqlite-wal", "/s/state.sqlite-shm"]
    );
}

#[test]
fn a_fresh_start_depends_on_the_home() {
    for (home, expected) in [
        (SqliteHome::Directory, FreshStart::BackUpFiles),
        (SqliteHome::Other, FreshStart::BackUpHome),
        (SqliteHome::Missing, FreshStart::CreateHome),
        (SqliteHome::Failed, FreshStart::Report),
    ] {
        assert_eq!(backup_runtime_dbs_for_fresh_start(home), expected);
    }
}

#[test]
fn backup_moves_the_files_that_are_there() {
    let there = ["/s/state.db", "/s/state.db-wal", "/s/logs.db", "/s/goals.db"];
    let mut backup = backup_runtime_db_files(&vec![
        "/s/state.db".to_string(),
        "/s/logs.db".to_string(),
        "/s/goals.db".to_string(),
    ]);
    let mut asked = 0;
    loop {
        let (path, stage) = match backup.question() {
            Some((path, stage)) => (path.to_string(), stage),
            None => break,
        };
        match stage {
            BackupStage::Probe => {
                asked += 1;
                backup.answer_probe(Some(there.contains(&path.as_str())));
            }
            _ => backup.answer_move(Some(path.replace("/s/", "/s/db-backups/x/"))),
        }
    }
    assert_eq!(asked, 9);
    let backups = backup.finish().expect("files were moved");
    assert_eq!(backups.len(), 4);
    for (moved, original) in backups.iter().zip(there) {
        assert_eq!(
            moved,
            &RuntimeDbBackup {
                original_path: original.to_string(),
                backup_path: original.replace("/s/", "/s/db-backups/x/"),
            }
        );
    }
}

#[test]
fn nothing_to_back_up_is_reported() {
    let mut backup = backup_runtime_db_files(&vec!["/s/state.db".to_string()]);
    while backup.question().is_some() {
        backup.answer_probe(Some(false));
    }
    assert_eq!(
        backup.finish(),
        Err(Some("no Codex runtime database files were found to back up".to_string()))
    );
}

#[test]
fn a_failure_stops_the_backup() {
    let mut backup = backup_runtime_db_files(&vec!["/s/state.db".to_string()]);
    backup.answer_probe(Some(true));
    backup.answer_move(None);
    assert_eq!(backup.question(), None);
    assert_eq!(backup.finish(), Err(None));
    let mut backup = backup_runtime_db_files(&vec!["/s/state.db".to_string()]);
    backup.answer_probe(None);
    assert_eq!(backup.finish(), Err(None));
}

#[test]
fn backup_directories_are_numbered() {
    let mut search = create_unique_backup_dir(1_700_000_000);
    assert_eq!(search.name(), "sqlite-1700000000-0");
    for _ in 0..12 {
        search.taken();
    }
    assert_eq!(search.name(), "sqlite-1700000000-12");
    assert_eq!(create_unique_backup_dir(0).name(), "sqlite-0-0");
}

#[test]
fn what_blocks_the_home_goes_next_to_it() {
    assert_eq!(
        backup_blocking_sqlite_home("/t/sqlite-home", true, Some("sqlite-home")),
        Ok("sqlite-home.db-backups".to_string())
    );
    assert_eq!(
        backup_blocking_sqlite_home("/", false, None),
        Err("cannot create a backup folder for /".to_string())
    );
    assert_eq!(
        backup_blocking_sqlite_home("/t/..", true, None),
        Err("cannot create a backup name for /t/..".to_string())
    );
    assert_eq!(file_name("/t/x", Some("x")), Ok("x".to_string()));
}
