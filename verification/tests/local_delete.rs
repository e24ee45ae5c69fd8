use codex_kernel::local_delete::{
    delete_rollout_file, delete_thread, rollout_scope, LocalDeletion, LocalQuestion, Removal,
    StateRow,
};
use codex_kernel::thread_delete::ThreadStoreError;

type Found = Result<Option<String>, String>;

fn path(name: &str) -> Found {
    Ok(Some(name.to_string()))
}

fn run(
    mut deletion: LocalDeletion,
    active: Found,
    archived: Found,
    there: &[&str],
    rows: u64,
) -> (Vec<LocalQuestion>, Result<(), ThreadStoreError>) {
    let mut asked = Vec::new();
    while let Some(question) = deletion.question() {
        asked.push(question.clone());
        match question {
            LocalQuestion::FindActive => deletion.answer_location(active.clone()),
            LocalQuestion::FindArchived => deletion.answer_location(archived.clone()),
            LocalQuestion::DropRecorder => deletion.answer_recorder(),
            LocalQuestion::DeleteFile(file) => {
                let removal = if file.contains("denied") {
                    Removal::Failed("denied".to_string())
                } else if there.contains(&file.as_str()) {
                    Removal::Removed
                } else {
                    Removal::NotFound
                };
                deletion.answer_file(delete_rollout_file(&file, &removal));
            }
            LocalQuestion::DeleteRows => deletion.answer_rows(rows),
        }
    }
    (asked, deletion.finish())
}

#[test]
fn active_and_archived_rollouts_are_removed() {
    let (asked, result) = run(
        delete_thread("t", StateRow::Unknown),
        path("/s/a"),
        path("/s/b"),
        &["/s/a", "/s/b"],
        0,
    );
    assert_eq!(result, Ok(()));
    assert_eq!(
        asked,
        vec![
            LocalQuestion::FindActive,
            LocalQuestion::FindArchived,
            LocalQuestion::DropRecorder,
            LocalQuestion::DeleteFile("/s/a".to_string()),
            LocalQuestion::DeleteFile("/s/b".to_string()),
            LocalQuestion::DeleteRows,
        ]
    );
}

#[test]
fn one_file_is_removed_once() {
    let (asked, result) =
        run(delete_thread("t", StateRow::Absent), path("/s/a"), path("/s/a"), &["/s/a"], 0);
    assert_eq!(result, Ok(()));
    assert_eq!(asked.len(), 5);
}

#[test]
fn a_missing_rollout_counts_as_deleted_where_a_row_is_there() {
    let (_, result) =
        run(delete_thread("t", StateRow::Exists), path("/s/missing"), Ok(None), &[], 0);
    assert_eq!(result, Ok(()));
    let (_, result) = run(delete_thread("t", StateRow::Unknown), Ok(None), Ok(None), &[], 1);
    assert_eq!(result, Ok(()));
}

#[test]
fn a_missing_thread_is_reported() {
    for found in [Ok(None), path("/s/missing")] {
        let (_, result) = run(delete_thread("t", StateRow::Absent), found, Ok(None), &[], 0);
        assert_eq!(
            result,
            Err(ThreadStoreError::ThreadNotFound { thread_id: "t".to_string() })
        );
    }
}

#[test]
fn failures_stop_the_deletion() {
    let (asked, result) = run(
        delete_thread("t", StateRow::Exists),
        Err("e".to_string()),
        Ok(None),
        &[],
        1,
    );
    assert_eq!(asked.len(), 1);
    assert_eq!(
        result,
        Err(ThreadStoreError::InvalidRequest {
            message: "failed to locate thread id t: e".to_string()
        })
    );
    let (_, result) = run(
        delete_thread("t", StateRow::Exists),
        Ok(None),
        Err("e".to_string()),
        &[],
        1,
    );
    assert_eq!(
        result,
        Err(ThreadStoreError::InvalidRequest {
            message: "failed to locate archived thread id t: e".to_string()
        })
    );
    let (asked, result) =
        run(delete_thread("t", StateRow::Exists), path("/denied"), path("/s/b"), &["/s/b"], 1);
    assert_eq!(asked.len(), 4);
    assert_eq!(
        result,
        Err(ThreadStoreError::Other {
            text: "failed to delete rollout file `/denied`: denied".to_string()
        })
    );
}

#[test]
fn archived_sessions_are_the_second_choice() {
    let wrong = ThreadStoreError::InvalidRequest { message: "outside".to_string() };
    assert_eq!(
        rollout_scope(Ok("/a".to_string()), Err(wrong.clone())),
        Ok("/a".to_string())
    );
    assert_eq!(
        rollout_scope(Err(wrong.clone()), Ok("/b".to_string())),
        Ok("/b".to_string())
    );
    let other = ThreadStoreError::Other { text: "archived".to_string() };
    assert_eq!(rollout_scope(Err(wrong), Err(other.clone())), Err(other));
}
