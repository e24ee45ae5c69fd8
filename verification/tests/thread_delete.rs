use codex_kernel::request_error::RequestError;
use codex_kernel::thread_delete::{
    delete_target, merge_subtree, thread_delete_response,
    thread_store_delete_error, LiveListing, LiveThread, ThreadDeletion, ThreadStoreError,
};

fn ids(names: &[&str]) -> Vec<String> {
    names.iter().map(|name| name.to_string()).collect()
}

/// Deletes every thread but those that fail.
fn run(mut deletion: ThreadDeletion, failing: &[&str]) -> (Vec<String>, Result<Vec<String>, RequestError>) {
    let mut asked = Vec::new();
    while let Some(id) = deletion.question().map(str::to_string) {
        let result = if failing.contains(&id.as_str()) {
            Err(ThreadStoreError::ThreadNotFound { thread_id: id.clone() })
        } else {
            Ok(())
        };
        asked.push(id);
        deletion.answer(result);
    }
    (asked, deletion.finish())
}

#[test]
fn descendants_follow_the_thread_newest_first() {
    let deletion = thread_delete_response(
        "parent",
        LiveThread::Persisted,
        ids(&["parent", "child", "grandchild"]),
        LiveListing::ThreadNotFound,
        /*has_state_db*/ true,
    )
    .expect("plan");
    let (asked, deleted) = run(deletion, &[]);
    assert_eq!(asked, ids(&["parent", "grandchild", "child"]));
    assert_eq!(deleted, Ok(ids(&["parent", "grandchild", "child"])));
}

#[test]
fn a_descendant_that_cannot_be_deleted_is_skipped() {
    let deletion = thread_delete_response(
        "parent",
        LiveThread::Persisted,
        ids(&["parent", "a", "b", "c"]),
        LiveListing::Listed(ids(&["parent", "b", "d"])),
        false,
    )
    .expect("plan");
    let (asked, deleted) = run(deletion, &["c"]);
    assert_eq!(asked, ids(&["parent", "d", "c", "b", "a"]));
    assert_eq!(deleted, Ok(ids(&["parent", "d", "b", "a"])));
}

#[test]
fn nothing_is_deleted_if_the_thread_cannot_be() {
    let deletion = thread_delete_response(
        "parent",
        LiveThread::Persisted,
        ids(&["parent", "a"]),
        LiveListing::ThreadNotFound,
        true,
    )
    .expect("plan");
    let (asked, deleted) = run(deletion, &["parent"]);
    assert_eq!(asked, ids(&["parent"]));
    assert_eq!(
        deleted,
        Err(RequestError::InvalidRequest("thread not found: parent".to_string()))
    );
}

#[test]
fn live_ephemeral_threads_are_refused() {
    for has_state_db in [true, false] {
        let plan = thread_delete_response(
            "t",
            LiveThread::Ephemeral,
            ids(&["t"]),
            LiveListing::Listed(ids(&["t"])),
            has_state_db,
        );
        assert_eq!(
            plan.err(),
            Some(RequestError::InvalidRequest(
                "thread is not persisted and cannot be deleted: t".to_string()
            ))
        );
    }
}

#[test]
fn a_thread_must_be_stored_or_loaded() {
    assert_eq!(
        thread_delete_response("t", LiveThread::NotLoaded, vec![], LiveListing::ThreadNotFound, false).err(),
        Some(RequestError::Internal(
            "cannot delete thread t: sqlite state db is unavailable and the thread is not loaded"
                .to_string()
        ))
    );
    let failure = RequestError::Internal("boom".to_string());
    assert_eq!(
        thread_delete_response("t", LiveThread::NotLoaded, vec![], LiveListing::Failed(failure.clone()), true).err(),
        Some(failure)
    );
    let deletion =
        thread_delete_response("t", LiveThread::NotLoaded, vec![], LiveListing::ThreadNotFound, true).expect("plan");
    assert_eq!(run(deletion, &[]).1, Ok(ids(&["t"])));
}

#[test]
fn thread_ids_must_be_valid() {
    assert_eq!(delete_target(Ok("t".to_string())), Ok("t".to_string()));
    assert_eq!(
        delete_target(Err("bad length".to_string())),
        Err(RequestError::InvalidRequest("invalid thread id: bad length".to_string()))
    );
}

#[test]
fn subtrees_are_merged_without_repetition() {
    assert_eq!(
        merge_subtree(ids(&["a", "b"]), &ids(&["b", "c", "a", "c"])),
        ids(&["a", "b", "c"])
    );
}

#[test]
fn store_errors_become_request_errors() {
    assert_eq!(
        thread_store_delete_error(ThreadStoreError::InvalidRequest { message: "m".to_string() }),
        RequestError::InvalidRequest("m".to_string())
    );
    assert_eq!(
        thread_store_delete_error(ThreadStoreError::Unsupported { operation: "o".to_string() }),
        RequestError::UnsupportedOperation("o".to_string())
    );
    assert_eq!(
        thread_store_delete_error(ThreadStoreError::Other { text: "disk full".to_string() }),
        RequestError::Internal("failed to delete thread: disk full".to_string())
    );
}
