//! Local hard deletion of persisted threads.
//!
//! Existing rollout files are deleted before the operation reports success.
//! Missing rollout files count as already deleted; cleanup of the state
//! database is best effort after rollout deletion succeeds.

use vstd::prelude::*;

use crate::text;
use crate::thread_delete::{StoreFault, ThreadStoreError};

verus! {

/// What the state database knows of a thread.
#[derive(Clone, Copy, Debug, PartialEq, Eq, Structural)]
pub enum StateRow {
    Exists,
    Absent,
    /// There is no database, or it could not be asked.
    Unknown,
}

/// Where a deletion stands.
#[derive(Clone, Copy, Debug, PartialEq, Eq)]
pub enum LocalStage {
    FindActive,
    FindArchived,
    DropRecorder,
    /// Deleting the rollout file with this number.
    DeleteFile(usize),
    DeleteRows,
    Done,
    Failed,
}

/// What a deletion asks for next.
#[derive(Clone, Debug, PartialEq, Eq)]
pub enum LocalQuestion {
    /// Where is the active rollout file?
    FindActive,
    /// Where is the archived rollout file?
    FindArchived,
    /// Stop recording the thread.
    DropRecorder,
    /// Delete this rollout file.
    DeleteFile(String),
    /// Delete the rows of the thread.
    DeleteRows,
}

/// The deletion of one thread, one step at a time.
pub struct LocalDeletion {
    thread_id: String,
    state_thread_exists: bool,
    paths: Vec<String>,
    stage: LocalStage,
    deleted_rollout_file: bool,
    failure: Option<ThreadStoreError>,
}

/// The mathematical counterpart of [`LocalStage`].
pub enum Step {
    FindActive,
    FindArchived,
    DropRecorder,
    DeleteFile(int),
    DeleteRows,
    Done,
    Failed(StoreFault),
}

/// The mathematical counterpart of [`LocalDeletion`].
pub struct Local {
    pub thread_id: Seq<char>,
    pub exists: bool,
    pub paths: Seq<Seq<char>>,
    pub step: Step,
    pub deleted: bool,
}

impl View for LocalDeletion {
    type V = Local;

    closed spec fn view(&self) -> Local {
        Local {
            thread_id: self.thread_id@,
            exists: self.state_thread_exists,
            paths: text::views(self.paths@),
            step: match self.stage {
                LocalStage::FindActive => Step::FindActive,
                LocalStage::FindArchived => Step::FindArchived,
                LocalStage::DropRecorder => Step::DropRecorder,
                LocalStage::DeleteFile(i) => Step::DeleteFile(i as int),
                LocalStage::DeleteRows => Step::DeleteRows,
                LocalStage::Done => Step::Done,
                LocalStage::Failed => Step::Failed(self.failure->0@),
            },
            deleted: self.deleted_rollout_file,
        }
    }
}

/// Whether a deletion asks for a file that it has.
pub open spec fn local_wf(d: Local) -> bool {
    d.step matches Step::DeleteFile(i) ==> 0 <= i < d.paths.len()
}

/// The deletion before its first question.
pub open spec fn local_start(thread_id: Seq<char>, row: StateRow) -> Local {
    Local {
        thread_id,
        exists: row is Exists,
        paths: Seq::empty(),
        step: Step::FindActive,
        deleted: false,
    }
}

/// What went wrong when a rollout file could not be looked for.
pub open spec fn locate_fault(archived: bool, thread_id: Seq<char>, error: Seq<char>) -> StoreFault {
    StoreFault::InvalidRequest {
        message: (if archived {
            "failed to locate archived thread id "@
        } else {
            "failed to locate thread id "@
        }) + thread_id + ": "@ + error,
    }
}

/// The paths with one more, unless it is there already.
pub open spec fn with_path(paths: Seq<Seq<char>>, path: Option<Seq<char>>) -> Seq<Seq<char>> {
    match path {
        Some(p) => if paths.contains(p) {
            paths
        } else {
            paths.push(p)
        },
        None => paths,
    }
}

/// The step after the rollout files before number `i` are deleted.
pub open spec fn file_step(d: Local, i: int) -> Step {
    if i < d.paths.len() {
        Step::DeleteFile(i)
    } else {
        Step::DeleteRows
    }
}

/// The deletion after a rollout file was looked for.
pub open spec fn located(d: Local, path: Result<Option<Seq<char>>, Seq<char>>) -> Local {
    match d.step {
        Step::FindActive => match path {
            Ok(p) => Local { paths: with_path(d.paths, p), step: Step::FindArchived, ..d },
            Err(e) => Local { step: Step::Failed(locate_fault(false, d.thread_id, e)), ..d },
        },
        Step::FindArchived => match path {
            Ok(p) => Local { paths: with_path(d.paths, p), step: Step::DropRecorder, ..d },
            Err(e) => Local { step: Step::Failed(locate_fault(true, d.thread_id, e)), ..d },
        },
        _ => d,
    }
}

/// The deletion after the thread is no longer recorded.
pub open spec fn recorder_dropped(d: Local) -> Local {
    match d.step {
        Step::DropRecorder => Local { step: file_step(d, 0), ..d },
        _ => d,
    }
}

/// The deletion after a rollout file was deleted, was missing, or could not be
/// deleted.
pub open spec fn file_deleted(d: Local, result: Result<bool, StoreFault>) -> Local {
    match d.step {
        Step::DeleteFile(i) => match result {
            Ok(there) => Local { deleted: d.deleted || there, step: file_step(d, i + 1), ..d },
            Err(fault) => Local { step: Step::Failed(fault), ..d },
        },
        _ => d,
    }
}

/// The deletion after rows were deleted, as many as that.
pub open spec fn rows_deleted(d: Local, rows: nat) -> Local {
    match d.step {
        Step::DeleteRows => Local {
            step: if !d.deleted && !d.exists && rows == 0 {
                Step::Failed(StoreFault::ThreadNotFound { thread_id: d.thread_id })
            } else {
                Step::Done
            },
            ..d
        },
        _ => d,
    }
}

pub open spec fn path_view(path: Result<Option<String>, String>) -> Result<
    Option<Seq<char>>,
    Seq<char>,
> {
    match path {
        Ok(Some(p)) => Ok(Some(p@)),
        Ok(None) => Ok(None),
        Err(e) => Err(e@),
    }
}

pub open spec fn removal_view(r: Result<bool, ThreadStoreError>) -> Result<bool, StoreFault> {
    match r {
        Ok(b) => Ok(b),
        Err(e) => Err(e@),
    }
}

fn locate_error(archived: bool, thread_id: &str, error: &str) -> (r: ThreadStoreError)
    ensures
        r@ == locate_fault(archived, thread_id@, error@),
{
    let mut message: String = if archived {
        "failed to locate archived thread id ".to_owned()
    } else {
        "failed to locate thread id ".to_owned()
    };
    message.append(thread_id);
    message.append(": ");
    message.append(error);
    ThreadStoreError::InvalidRequest { message }
}

fn add_path(paths: &mut Vec<String>, path: Option<String>)
    ensures
        text::views(final(paths)@) == with_path(
            text::views(old(paths)@),
            match path {
                Some(p) => Some(p@),
                None => None,
            },
        ),
{
    match path {
        Some(path) => {
            if !text::holds(paths, &path) {
                paths.push(path);
                assert(text::views(paths@) =~= text::views(old(paths)@).push(path@));
            }
        },
        None => {},
    }
}

/// Starts to delete a thread.
pub fn delete_thread(thread_id: &str, row: StateRow) -> (r: LocalDeletion)
    ensures
        r.wf(),
        r@ == local_start(thread_id@, row),
{
    let state_thread_exists = match row {
        StateRow::Exists => true,
        _ => false,
    };
    let paths: Vec<String> = Vec::new();
    assert(text::views(paths@) =~= Seq::<Seq<char>>::empty());
    LocalDeletion {
        thread_id: thread_id.to_owned(),
        state_thread_exists,
        paths,
        stage: LocalStage::FindActive,
        deleted_rollout_file: false,
        failure: None,
    }
}

impl LocalDeletion {
    pub closed spec fn wf(&self) -> bool {
        &&& local_wf(self@)
        &&& self.stage is Failed ==> self.failure is Some
    }

    /// What to do next; none once the deletion is over.
    pub fn question(&self) -> (r: Option<LocalQuestion>)
        requires
            self.wf(),
        ensures
            match self@.step {
                Step::FindActive => r == Some(LocalQuestion::FindActive),
                Step::FindArchived => r == Some(LocalQuestion::FindArchived),
                Step::DropRecorder => r == Some(LocalQuestion::DropRecorder),
                Step::DeleteFile(i) => r matches Some(LocalQuestion::DeleteFile(p)) && p@
                    == self@.paths[i],
                Step::DeleteRows => r == Some(LocalQuestion::DeleteRows),
                _ => r is None,
            },
    {
        match self.stage {
            LocalStage::FindActive => Some(LocalQuestion::FindActive),
            LocalStage::FindArchived => Some(LocalQuestion::FindArchived),
            LocalStage::DropRecorder => Some(LocalQuestion::DropRecorder),
            LocalStage::DeleteFile(i) => {
                assert(text::views(self.paths@).len() == self.paths@.len());
                Some(LocalQuestion::DeleteFile(self.paths[i].clone()))
            },
            LocalStage::DeleteRows => Some(LocalQuestion::DeleteRows),
            _ => None,
        }
    }

    /// Takes where a rollout file is, if there is one.
    pub fn answer_location(&mut self, path: Result<Option<String>, String>)
        requires
            old(self).wf(),
        ensures
            final(self).wf(),
            final(self)@ == located(old(self)@, path_view(path)),
    {
        match self.stage {
            LocalStage::FindActive => match path {
                Ok(path) => {
                    add_path(&mut self.paths, path);
                    self.stage = LocalStage::FindArchived;
                },
                Err(error) => {
                    self.failure = Some(
                        locate_error(false, self.thread_id.as_str(), error.as_str()),
                    );
                    self.stage = LocalStage::Failed;
                },
            },
            LocalStage::FindArchived => match path {
                Ok(path) => {
                    add_path(&mut self.paths, path);
                    self.stage = LocalStage::DropRecorder;
                },
                Err(error) => {
                    self.failure = Some(
                        locate_error(true, self.thread_id.as_str(), error.as_str()),
                    );
                    self.stage = LocalStage::Failed;
                },
            },
            _ => {},
        }
    }

    /// Takes that the thread is no longer recorded.
    pub fn answer_recorder(&mut self)
        requires
            old(self).wf(),
        ensures
            final(self).wf(),
            final(self)@ == recorder_dropped(old(self)@),
    {
        match self.stage {
            LocalStage::DropRecorder => {
                assert(text::views(self.paths@).len() == self.paths@.len());
                self.stage = if self.paths.len() > 0 {
                    LocalStage::DeleteFile(0)
                } else {
                    LocalStage::DeleteRows
                };
            },
            _ => {},
        }
    }

    /// Takes whether the rollout file was there and is deleted.
    pub fn answer_file(&mut self, result: Result<bool, ThreadStoreError>)
        requires
            old(self).wf(),
        ensures
            final(self).wf(),
            final(self)@ == file_deleted(old(self)@, removal_view(result)),
    {
        match self.stage {
            LocalStage::DeleteFile(i) => match result {
                Ok(there) => {
                    assert(text::views(self.paths@).len() == self.paths@.len());
                    let total: usize = self.paths.len();
                    self.deleted_rollout_file = self.deleted_rollout_file || there;
                    self.stage = if i + 1 < total {
                        LocalStage::DeleteFile(i + 1)
                    } else {
                        LocalStage::DeleteRows
                    };
                },
                Err(error) => {
                    self.failure = Some(error);
                    self.stage = LocalStage::Failed;
                },
            },
            _ => {},
        }
    }

    /// Takes how many rows were deleted: none if there is no database or it
    /// failed.
    pub fn answer_rows(&mut self, rows: u64)
        requires
            old(self).wf(),
        ensures
            final(self).wf(),
            final(self)@ == rows_deleted(old(self)@, rows as nat),
    {
        match self.stage {
            LocalStage::DeleteRows => {
                if !self.deleted_rollout_file && !self.state_thread_exists && rows == 0 {
                    self.failure = Some(
                        ThreadStoreError::ThreadNotFound { thread_id: self.thread_id.clone() },
                    );
                    self.stage = LocalStage::Failed;
                } else {
                    self.stage = LocalStage::Done;
                }
            },
            _ => {},
        }
    }

    /// Whether the thread is deleted, or why it is not.
    pub fn finish(self) -> (r: Result<(), ThreadStoreError>)
        requires
            self.wf(),
            self@.step is Done || self@.step is Failed,
        ensures
            match self@.step {
                Step::Failed(fault) => r is Err && r->Err_0@ == fault,
                _ => r is Ok,
            },
    {
        match self.stage {
            LocalStage::Failed => match self.failure {
                Some(e) => Err(e),
                None => Ok(()),
            },
            _ => Ok(()),
        }
    }
}

// ---------------------------------------------------------------------------
// One rollout file
// ---------------------------------------------------------------------------
/// What came of removing a file.
#[derive(Clone, Debug, PartialEq, Eq)]
pub enum Removal {
    Removed,
    NotFound,
    /// Any other failure, with its message.
    Failed(String),
}

/// The place of a rollout file: among the active sessions, or else among the
/// archived ones.
pub fn rollout_scope(
    active: Result<String, ThreadStoreError>,
    archived: Result<String, ThreadStoreError>,
) -> (r: Result<String, ThreadStoreError>)
    ensures
        r == (if active is Ok {
            active
        } else {
            archived
        }),
{
    match active {
        Ok(path) => Ok(path),
        Err(_) => archived,
    }
}

/// Whether a rollout file was there and is removed. A missing file counts as
/// removed before.
pub fn delete_rollout_file(path: &str, removal: &Removal) -> (r: Result<bool, ThreadStoreError>)
    ensures
        match removal {
            Removal::Removed => r == Ok::<bool, ThreadStoreError>(true),
            Removal::NotFound => r == Ok::<bool, ThreadStoreError>(false),
            Removal::Failed(error) => r is Err && r->Err_0@ == (StoreFault::Other {
                text: "failed to delete rollout file `"@ + path@ + "`: "@ + error@,
            }),
        },
{
    match removal {
        Removal::Removed => Ok(true),
        Removal::NotFound => Ok(false),
        Removal::Failed(error) => {
            let mut text: String = "failed to delete rollout file `".to_owned();
            text.append(path);
            text.append("`: ");
            text.append(error.as_str());
            Err(ThreadStoreError::Other { text })
        },
    }
}

// ---------------------------------------------------------------------------
// Laws
// ---------------------------------------------------------------------------
/// Answers to everything that a deletion can ask.
pub struct Answers {
    pub active: Result<Option<Seq<char>>, Seq<char>>,
    pub archived: Result<Option<Seq<char>>, Seq<char>>,
    pub remove: spec_fn(Seq<char>) -> Result<bool, StoreFault>,
    pub rows: nat,
}

/// The deletion carried on to its end.
pub open spec fn local_run(d: Local, a: Answers) -> Local
    decreases
            match d.step {
                Step::FindActive => 5int,
                Step::FindArchived => 4int,
                Step::DropRecorder => 3int,
                Step::DeleteFile(_) => 2int,
                Step::DeleteRows => 1int,
                _ => 0int,
            },
            match d.step {
                Step::DeleteFile(i) => d.paths.len() - i,
                _ => 0int,
            },
{
    match d.step {
        Step::FindActive => local_run(located(d, a.active), a),
        Step::FindArchived => local_run(located(d, a.archived), a),
        Step::DropRecorder => local_run(recorder_dropped(d), a),
        Step::DeleteFile(i) => if 0 <= i < d.paths.len() {
            local_run(file_deleted(d, (a.remove)(d.paths[i])), a)
        } else {
            d
        },
        Step::DeleteRows => local_run(rows_deleted(d, a.rows), a),
        _ => d,
    }
}

/// Whether any of the files was there, or the first failure to remove one.
pub open spec fn removed(
    paths: Seq<Seq<char>>,
    remove: spec_fn(Seq<char>) -> Result<bool, StoreFault>,
) -> Result<bool, StoreFault>
    decreases paths.len(),
{
    if paths.len() == 0 {
        Ok(false)
    } else {
        match remove(paths[0]) {
            Err(fault) => Err(fault),
            Ok(there) => match removed(paths.drop_first(), remove) {
                Err(fault) => Err(fault),
                Ok(others) => Ok(there || others),
            },
        }
    }
}

/// How the deletion of a thread ends.
pub open spec fn local_outcome(thread_id: Seq<char>, row: StateRow, a: Answers) -> Result<
    (),
    StoreFault,
> {
    match (a.active, a.archived) {
        (Err(e), _) => Err(locate_fault(false, thread_id, e)),
        (_, Err(e)) => Err(locate_fault(true, thread_id, e)),
        (Ok(active), Ok(archived)) => {
            let paths = with_path(with_path(Seq::empty(), active), archived);
            match removed(paths, a.remove) {
                Err(fault) => Err(fault),
                Ok(any) => if !any && !(row is Exists) && a.rows == 0 {
                    Err(StoreFault::ThreadNotFound { thread_id })
                } else {
                    Ok(())
                },
            }
        },
    }
}

proof fn lemma_files(d: Local, a: Answers, i: int)
    requires
        0 <= i <= d.paths.len(),
        d.step == file_step(d, i),
    ensures
        local_run(d, a).step == (match removed(d.paths.skip(i), a.remove) {
            Err(fault) => Step::Failed(fault),
            Ok(any) => if !(d.deleted || any) && !d.exists && a.rows == 0 {
                Step::Failed(StoreFault::ThreadNotFound { thread_id: d.thread_id })
            } else {
                Step::Done
            },
        }),
    decreases d.paths.len() - i,
{
    let left = d.paths.skip(i);
    if i < d.paths.len() {
        let path = d.paths[i];
        let next = file_deleted(d, (a.remove)(path));
        assert(left[0] == path);
        assert(left.drop_first() =~= d.paths.skip(i + 1));
        assert(local_run(d, a) == local_run(next, a));
        match (a.remove)(path) {
            Err(_) => {},
            Ok(_) => {
                lemma_files(next, a, i + 1);
            },
        }
    } else {
        let end = rows_deleted(d, a.rows);
        assert(local_run(d, a) == local_run(end, a));
        assert(local_run(end, a) == end);
    }
}

/// A deletion asked to its end deletes every rollout file of the thread before
/// it succeeds. It fails if a file could not be looked for or deleted, and it
/// reports a missing thread exactly if no file, no row and no record of the
/// thread was there.
pub proof fn law_deletion_outcome(thread_id: Seq<char>, row: StateRow, a: Answers)
    ensures
        local_run(local_start(thread_id, row), a).step == (match local_outcome(thread_id, row, a) {
            Ok(()) => Step::Done,
            Err(fault) => Step::Failed(fault),
        }),
{
    let d = local_start(thread_id, row);
    let second = located(d, a.active);
    assert(local_run(d, a) == local_run(second, a));
    match a.active {
        Err(_) => {},
        Ok(_) => {
            let third = located(second, a.archived);
            assert(local_run(second, a) == local_run(third, a));
            match a.archived {
                Err(_) => {},
                Ok(_) => {
                    let fourth = recorder_dropped(third);
                    assert(local_run(third, a) == local_run(fourth, a));
                    assert(fourth.paths.skip(0) =~= fourth.paths);
                    lemma_files(fourth, a, 0);
                },
            }
        },
    }
}

/// Nothing of a thread is deleted while it is still recorded: only the step that
/// stops the recording leads from the lookups to the deletion of files and rows.
pub proof fn law_recording_stops_before_deletion(
    d: Local,
    path: Result<Option<Seq<char>>, Seq<char>>,
    result: Result<bool, StoreFault>,
    rows: nat,
)
    requires
        d.step is FindActive || d.step is FindArchived || d.step is DropRecorder,
    ensures
        !(located(d, path).step is DeleteFile) && !(located(d, path).step is DeleteRows),
        file_deleted(d, result) == d,
        rows_deleted(d, rows) == d,
        d.step is DropRecorder <==> recorder_dropped(d).step is DeleteFile || recorder_dropped(
            d,
        ).step is DeleteRows,
{
}

/// Success means that no rollout file is left: every file of the thread was
/// either removed or missing.
pub proof fn law_success_leaves_no_file(
    paths: Seq<Seq<char>>,
    remove: spec_fn(Seq<char>) -> Result<bool, StoreFault>,
)
    requires
        removed(paths, remove) is Ok,
    ensures
        forall|i: int| 0 <= i < paths.len() ==> remove(#[trigger] paths[i]) is Ok,
        removed(paths, remove)->Ok_0 <==> exists|i: int|
            0 <= i < paths.len() && remove(#[trigger] paths[i]) == Ok::<bool, StoreFault>(true),
    decreases paths.len(),
{
    if paths.len() > 0 {
        let rest = paths.drop_first();
        law_success_leaves_no_file(rest, remove);
        assert forall|i: int| 0 <= i < paths.len() implies remove(#[trigger] paths[i]) is Ok by {
            if i > 0 {
                assert(paths[i] == rest[i - 1]);
            }
        }
        if removed(paths, remove)->Ok_0 {
            if remove(paths[0]) != Ok::<bool, StoreFault>(true) {
                let k = choose|k: int|
                    0 <= k < rest.len() && remove(#[trigger] rest[k]) == Ok::<bool, StoreFault>(
                        true,
                    );
                assert(paths[k + 1] == rest[k]);
            }
        }
        if exists|i: int|
            0 <= i < paths.len() && remove(#[trigger] paths[i]) == Ok::<bool, StoreFault>(true) {
            let i = choose|i: int|
                0 <= i < paths.len() && remove(#[trigger] paths[i]) == Ok::<bool, StoreFault>(true);
            if i > 0 {
                assert(rest[i - 1] == paths[i]);
            }
        }
    }
}

/// Both rollout files of a thread are deleted, the active one first: after the
/// lookups the deletion has every file that was found, each of them once, and no
/// other.
pub proof fn law_every_found_file_is_deleted(
    thread_id: Seq<char>,
    row: StateRow,
    active: Option<Seq<char>>,
    archived: Option<Seq<char>>,
)
    ensures
        ({
            let second = located(local_start(thread_id, row), Ok(active));
            let third = located(second, Ok(archived));
            let ready = recorder_dropped(third);
            &&& third.step is DropRecorder
            &&& ready.paths == (match (active, archived) {
                (Some(a), Some(b)) => if a == b {
                    seq![a]
                } else {
                    seq![a, b]
                },
                (Some(a), None) => seq![a],
                (None, Some(b)) => seq![b],
                (None, None) => Seq::empty(),
            })
            &&& ready.step == (if active is None && archived is None {
                Step::DeleteRows
            } else {
                Step::DeleteFile(0)
            })
            &&& ready.thread_id == thread_id
            &&& ready.exists == (row is Exists)
            &&& !ready.deleted
        }),
{
    let second = located(local_start(thread_id, row), Ok(active));
    let third = located(second, Ok(archived));
    match active {
        Some(a) => {
            assert(second.paths =~= seq![a]);
            assert(seq![a][0] == a);
            assert forall|x: Seq<char>| seq![a].contains(x) implies x == a by {}
        },
        None => {},
    }
    match (active, archived) {
        (Some(a), Some(b)) => {
            if a == b {
                assert(seq![a].contains(b));
                assert(third.paths =~= seq![a]);
            } else {
                assert(third.paths =~= seq![a, b]);
            }
        },
        (Some(a), None) => {},
        (None, Some(b)) => {
            assert(third.paths =~= seq![b]);
        },
        (None, None) => {},
    }
}

/// Files are deleted one after the other, and rows last. A file that cannot be
/// deleted ends the deletion with its fault; a missing one does not.
pub proof fn law_files_go_one_by_one(d: Local, i: int, result: Result<bool, StoreFault>)
    requires
        d.step == Step::DeleteFile(i),
        0 <= i < d.paths.len(),
    ensures
        ({
            let after = file_deleted(d, result);
            &&& result matches Err(fault) ==> after.step == Step::Failed(fault)
            &&& result is Ok && i + 1 < d.paths.len() ==> after.step == Step::DeleteFile(i + 1)
            &&& result is Ok && i + 1 == d.paths.len() ==> after.step is DeleteRows
            &&& result matches Ok(there) ==> (after.deleted <==> d.deleted || there)
            &&& after.paths == d.paths && after.exists == d.exists && after.thread_id == d.thread_id
        }),
{
}

/// A thread is reported as missing exactly if no file of it was there, the state
/// database did not know it and no row of it was deleted.
pub proof fn law_missing_threads_are_reported(d: Local, rows: nat)
    requires
        d.step is DeleteRows,
    ensures
        rows_deleted(d, rows).step is Done <==> d.deleted || d.exists || rows > 0,
        !(d.deleted || d.exists || rows > 0) ==> rows_deleted(d, rows).step == Step::Failed(
            StoreFault::ThreadNotFound { thread_id: d.thread_id },
        ),
{
}

} // verus!
