//! Recognizing damaged runtime databases and moving them out of the way, so
//! that the runtime can rebuild its index from the source rollout data.

use vstd::prelude::*;

use crate::text;

verus! {

/// The directory that backups go to.
pub const BACKUP_DIR_NAME: &'static str = "db-backups";

/// What is reported when there is nothing to back up.
pub const NOTHING_TO_BACK_UP: &'static str = "no Codex runtime database files were found to back up";

/// A runtime database or sidecar that was moved.
#[derive(Clone, Debug, PartialEq, Eq)]
pub struct RuntimeDbBackup {
    /// Path where the runtime database or sidecar lived before it was moved.
    pub original_path: String,
    /// Path where the runtime database or sidecar was backed up.
    pub backup_path: String,
}

/// The mathematical counterpart of [`RuntimeDbBackup`].
pub struct Backup {
    pub original: Seq<char>,
    pub backup: Seq<char>,
}

impl View for RuntimeDbBackup {
    type V = Backup;

    open spec fn view(&self) -> Backup {
        Backup { original: self.original_path@, backup: self.backup_path@ }
    }
}

pub open spec fn backup_views(v: Seq<RuntimeDbBackup>) -> Seq<Backup> {
    v.map_values(|b: RuntimeDbBackup| b@)
}

// ---------------------------------------------------------------------------
// Classification of errors
// ---------------------------------------------------------------------------
/// Whether the detail of an error tells of a damaged database.
pub open spec fn tells_corruption(detail: Seq<char>) -> bool {
    let d = text::ascii_lower(detail);
    ||| text::occurs_in(d, "database disk image is malformed"@)
    ||| text::occurs_in(d, "database schema is malformed"@)
    ||| text::occurs_in(d, "database is corrupt"@)
    ||| text::occurs_in(d, "file is not a database"@)
    ||| text::occurs_in(d, "sqlite_corrupt"@)
    ||| text::occurs_in(d, "sqlite_notadb"@)
    ||| text::occurs_in(d, "(code: 11)"@)
    ||| text::occurs_in(d, "(code: 26)"@)
}

/// Whether the detail of an error tells of a database in use.
pub open spec fn tells_lock(detail: Seq<char>) -> bool {
    let d = text::ascii_lower(detail);
    text::occurs_in(d, "database is locked"@) || text::occurs_in(d, "database is busy"@)
}

/// Whether the detail of an error tells of a damaged database.
pub fn sqlite_error_detail_is_corruption(detail: &str) -> (r: bool)
    ensures
        r == tells_corruption(detail@),
{
    let chars = text::chars_of(detail);
    let d = text::lower_chars(&chars);
    text::has_text(&d, "database disk image is malformed") || text::has_text(
        &d,
        "database schema is malformed",
    ) || text::has_text(&d, "database is corrupt") || text::has_text(&d, "file is not a database")
        || text::has_text(&d, "sqlite_corrupt") || text::has_text(&d, "sqlite_notadb")
        || text::has_text(&d, "(code: 11)") || text::has_text(&d, "(code: 26)")
}

/// Whether the detail of an error tells of a database in use.
pub fn sqlite_error_detail_is_lock(detail: &str) -> (r: bool)
    ensures
        r == tells_lock(detail@),
{
    let chars = text::chars_of(detail);
    let d = text::lower_chars(&chars);
    text::has_text(&d, "database is locked") || text::has_text(&d, "database is busy")
}

/// An error with its causes.
#[verifier::external_type_specification]
#[verifier::external_body]
pub struct ExAnyhowError(anyhow::Error);

/// The messages that an error holds: its own and those of its causes, in the
/// order of `anyhow::Error::chain`.
pub uninterp spec fn error_messages(err: anyhow::Error) -> Seq<Seq<char>>;

/// Wraps `anyhow::Error::chain` and reads the message of each link.
///
/// Trusted: these are the messages that the error holds.
#[verifier::external_body]
fn messages_of(err: &anyhow::Error) -> (r: Vec<String>)
    ensures
        text::views(r@) == error_messages(*err),
{
    err.chain().map(|source| source.to_string()).collect()
}

/// Whether one of `details` tells of a damaged database.
pub fn any_detail_is_corruption(details: &Vec<String>) -> (r: bool)
    ensures
        r == exists|i: int|
            0 <= i < details@.len() && tells_corruption(#[trigger] text::views(details@)[i]),
{
    let mut i: usize = 0;
    while i < details.len()
        invariant
            i <= details@.len(),
            forall|k: int|
                0 <= k < i ==> !tells_corruption(#[trigger] text::views(details@)[k]),
        decreases details.len() - i,
    {
        if sqlite_error_detail_is_corruption(details[i].as_str()) {
            assert(tells_corruption(text::views(details@)[i as int]));
            return true;
        }
        i += 1;
    }
    false
}

/// Whether an error, or one of its causes, tells of a damaged database.
pub fn is_sqlite_corruption_error(err: &anyhow::Error) -> (r: bool)
    ensures
        r == exists|i: int|
            0 <= i < error_messages(*err).len() && tells_corruption(
                #[trigger] error_messages(*err)[i],
            ),
{
    let details = messages_of(err);
    assert(text::views(details@).len() == details@.len());
    any_detail_is_corruption(&details)
}

// ---------------------------------------------------------------------------
// Files
// ---------------------------------------------------------------------------
/// A database and its two sidecars.
pub open spec fn with_sidecars(db: Seq<char>) -> Seq<Seq<char>> {
    seq![db, db + "-wal"@, db + "-shm"@]
}

/// A database and its two sidecars.
pub fn sqlite_paths(db_path: &str) -> (r: Vec<String>)
    ensures
        text::views(r@) == with_sidecars(db_path@),
{
    let mut wal_path: String = db_path.to_owned();
    wal_path.append("-wal");
    let mut shm_path: String = db_path.to_owned();
    shm_path.append("-shm");
    let mut r: Vec<String> = Vec::new();
    r.push(db_path.to_owned());
    r.push(wal_path);
    r.push(shm_path);
    assert(text::views(r@) =~= with_sidecars(db_path@));
    r
}

/// All databases with their sidecars.
pub open spec fn all_files(dbs: Seq<Seq<char>>) -> Seq<Seq<char>>
    decreases dbs.len(),
{
    if dbs.len() == 0 {
        Seq::empty()
    } else {
        all_files(dbs.drop_last()) + with_sidecars(dbs.last())
    }
}

fn runtime_db_files(dbs: &Vec<String>) -> (r: Vec<String>)
    ensures
        text::views(r@) == all_files(text::views(dbs@)),
{
    let mut out: Vec<String> = Vec::new();
    let ghost all = text::views(dbs@);
    let mut i: usize = 0;
    assert(text::views(out@) =~= all_files(all.take(0)));
    while i < dbs.len()
        invariant
            i <= dbs@.len(),
            all == text::views(dbs@),
            text::views(out@) == all_files(all.take(i as int)),
        decreases dbs.len() - i,
    {
        let ghost before = out@;
        let mut files = sqlite_paths(dbs[i].as_str());
        let ghost more = files@;
        out.append(&mut files);
        i += 1;
        proof {
            assert(text::views(out@) =~= text::views(before) + text::views(more));
            assert(all.take(i as int).drop_last() == all.take(i - 1));
            assert(all.take(i as int).last() == all[i - 1]);
        }
    }
    assert(all.take(all.len() as int) == all);
    out
}

/// The name of a file at `path`, which ends in a name or not.
pub fn file_name(path: &str, name: Option<&str>) -> (r: Result<String, String>)
    ensures
        match name {
            Some(n) => r is Ok && r->Ok_0@ == n@,
            None => r is Err && r->Err_0@ == "cannot create a backup name for "@ + path@,
        },
{
    match name {
        Some(n) => Ok(n.to_owned()),
        None => {
            let mut message: String = "cannot create a backup name for ".to_owned();
            message.append(path);
            Err(message)
        },
    }
}

// ---------------------------------------------------------------------------
// Fresh start
// ---------------------------------------------------------------------------
/// What is where the databases belong.
#[derive(Clone, Copy, Debug, PartialEq, Eq, Structural)]
pub enum SqliteHome {
    Directory,
    /// Something in the way of a directory.
    Other,
    Missing,
    /// It could not be looked at.
    Failed,
}

/// What a fresh start does first.
#[derive(Clone, Copy, Debug, PartialEq, Eq, Structural)]
pub enum FreshStart {
    /// Move the database files.
    BackUpFiles,
    /// Move what is in the way and make the directory.
    BackUpHome,
    /// Make the directory and report that there was nothing to back up.
    CreateHome,
    /// Report the failure.
    Report,
}

/// Decides what a fresh start does.
pub fn backup_runtime_dbs_for_fresh_start(home: SqliteHome) -> (r: FreshStart)
    ensures
        r == (match home {
            SqliteHome::Directory => FreshStart::BackUpFiles,
            SqliteHome::Other => FreshStart::BackUpHome,
            SqliteHome::Missing => FreshStart::CreateHome,
            SqliteHome::Failed => FreshStart::Report,
        }),
{
    match home {
        SqliteHome::Directory => FreshStart::BackUpFiles,
        SqliteHome::Other => FreshStart::BackUpHome,
        SqliteHome::Missing => FreshStart::CreateHome,
        SqliteHome::Failed => FreshStart::Report,
    }
}

/// The name of the directory, next to the home at `home`, that takes what is
/// in the way of it.
pub fn backup_blocking_sqlite_home(
    home: &str,
    has_parent: bool,
    name: Option<&str>,
) -> (r: Result<String, String>)
    ensures
        if !has_parent {
            r is Err && r->Err_0@ == "cannot create a backup folder for "@ + home@
        } else {
            match name {
                Some(n) => r is Ok && r->Ok_0@ == n@ + "."@ + BACKUP_DIR_NAME@,
                None => r is Err && r->Err_0@ == "cannot create a backup name for "@ + home@,
            }
        },
{
    if !has_parent {
        let mut message: String = "cannot create a backup folder for ".to_owned();
        message.append(home);
        return Err(message);
    }
    match file_name(home, name) {
        Ok(n) => {
            let mut dir: String = n;
            dir.append(".");
            dir.append(BACKUP_DIR_NAME);
            Ok(dir)
        },
        Err(message) => Err(message),
    }
}

/// A search for a directory name that is not taken.
pub struct BackupDirSearch {
    pub timestamp: u64,
    pub sequence: u32,
}

/// The name of the backup directory with this number.
pub open spec fn backup_dir_name(timestamp: nat, sequence: nat) -> Seq<char> {
    "sqlite-"@ + text::decimal(timestamp) + "-"@ + text::decimal(sequence)
}

/// Starts to look for a directory name at a time, in seconds.
pub fn create_unique_backup_dir(timestamp: u64) -> (r: BackupDirSearch)
    ensures
        r.timestamp == timestamp,
        r.sequence == 0,
{
    BackupDirSearch { timestamp, sequence: 0 }
}

impl BackupDirSearch {
    /// The name to try next.
    pub fn name(&self) -> (r: String)
        ensures
            r@ == backup_dir_name(self.timestamp as nat, self.sequence as nat),
    {
        let mut name: String = "sqlite-".to_owned();
        name.append(text::decimal_text(self.timestamp).as_str());
        name.append("-");
        name.append(text::decimal_text(self.sequence as u64).as_str());
        name
    }

    /// Takes that the name is taken.
    pub fn taken(&mut self)
        requires
            old(self).sequence < u32::MAX,
        ensures
            final(self).timestamp == old(self).timestamp,
            final(self).sequence == old(self).sequence + 1,
    {
        self.sequence = self.sequence + 1;
    }
}

/// Where a backup of files stands.
#[derive(Clone, Copy, Debug, PartialEq, Eq)]
pub enum BackupStage {
    /// Asking whether the next file is there.
    Probe,
    /// Moving the next file.
    Move,
    Done,
    Failed,
}

/// A backup of database files, one file at a time.
pub struct DbFilesBackup {
    paths: Vec<String>,
    next: usize,
    stage: BackupStage,
    backups: Vec<RuntimeDbBackup>,
}

/// The mathematical counterpart of [`DbFilesBackup`].
pub struct FilesBackup {
    pub paths: Seq<Seq<char>>,
    pub next: int,
    pub stage: BackupStage,
    pub backups: Seq<Backup>,
}

impl View for DbFilesBackup {
    type V = FilesBackup;

    closed spec fn view(&self) -> FilesBackup {
        FilesBackup {
            paths: text::views(self.paths@),
            next: self.next as int,
            stage: self.stage,
            backups: backup_views(self.backups@),
        }
    }
}

/// Whether the position of a backup lies within its list.
pub open spec fn backup_wf(b: FilesBackup) -> bool {
    (b.stage is Probe || b.stage is Move) ==> 0 <= b.next < b.paths.len()
}

/// The backup of `paths` before its first question.
pub open spec fn backup_start(paths: Seq<Seq<char>>) -> FilesBackup {
    FilesBackup {
        paths,
        next: 0,
        stage: if paths.len() == 0 {
            BackupStage::Done
        } else {
            BackupStage::Probe
        },
        backups: Seq::empty(),
    }
}

/// The backup moved on to the next file.
pub open spec fn backup_moved_on(b: FilesBackup) -> FilesBackup {
    FilesBackup {
        next: b.next + 1,
        stage: if b.next + 1 < b.paths.len() {
            BackupStage::Probe
        } else {
            BackupStage::Done
        },
        ..b
    }
}

/// The backup after it learned whether the next file is there, if that could
/// be learned.
pub open spec fn probed(b: FilesBackup, exists: Option<bool>) -> FilesBackup {
    if b.stage is Probe {
        match exists {
            None => FilesBackup { stage: BackupStage::Failed, ..b },
            Some(true) => FilesBackup { stage: BackupStage::Move, ..b },
            Some(false) => backup_moved_on(b),
        }
    } else {
        b
    }
}

/// The backup after the next file was moved to a place, if it was.
pub open spec fn moved(b: FilesBackup, to: Option<Seq<char>>) -> FilesBackup {
    if b.stage is Move {
        match to {
            None => FilesBackup { stage: BackupStage::Failed, ..b },
            Some(p) => backup_moved_on(
                FilesBackup {
                    backups: b.backups.push(Backup { original: b.paths[b.next], backup: p }),
                    ..b
                },
            ),
        }
    } else {
        b
    }
}

/// Starts to back up the files of `dbs`.
pub fn backup_runtime_db_files(dbs: &Vec<String>) -> (r: DbFilesBackup)
    ensures
        r.wf(),
        r@ == backup_start(all_files(text::views(dbs@))),
{
    let paths = runtime_db_files(dbs);
    assert(text::views(paths@).len() == paths@.len());
    let stage = if paths.len() == 0 {
        BackupStage::Done
    } else {
        BackupStage::Probe
    };
    let backups: Vec<RuntimeDbBackup> = Vec::new();
    assert(backup_views(backups@) =~= Seq::<Backup>::empty());
    DbFilesBackup { paths, next: 0, stage, backups }
}

impl DbFilesBackup {
    pub closed spec fn wf(&self) -> bool {
        backup_wf(self@)
    }

    /// The file to look for or to move next; none once the backup is over.
    pub fn question(&self) -> (r: Option<(&str, BackupStage)>)
        requires
            self.wf(),
        ensures
            match r {
                Some((path, stage)) => {
                    &&& self@.stage is Probe || self@.stage is Move
                    &&& path@ == self@.paths[self@.next]
                    &&& stage == self@.stage
                },
                None => self@.stage is Done || self@.stage is Failed,
            },
    {
        assert(text::views(self.paths@).len() == self.paths@.len());
        match self.stage {
            BackupStage::Probe => Some((self.paths[self.next].as_str(), BackupStage::Probe)),
            BackupStage::Move => Some((self.paths[self.next].as_str(), BackupStage::Move)),
            _ => None,
        }
    }

    fn move_on(&mut self)
        requires
            0 <= old(self)@.next < old(self)@.paths.len(),
        ensures
            final(self).wf(),
            final(self)@ == backup_moved_on(old(self)@),
    {
        assert(text::views(self.paths@).len() == self.paths@.len());
        let total: usize = self.paths.len();
        self.next = self.next + 1;
        self.stage = if self.next < total {
            BackupStage::Probe
        } else {
            BackupStage::Done
        };
    }

    /// Takes whether the file is there, if that could be learned.
    pub fn answer_probe(&mut self, exists: Option<bool>)
        requires
            old(self).wf(),
        ensures
            final(self).wf(),
            final(self)@ == probed(old(self)@, exists),
    {
        match self.stage {
            BackupStage::Probe => match exists {
                None => {
                    self.stage = BackupStage::Failed;
                },
                Some(there) => {
                    if there {
                        self.stage = BackupStage::Move;
                    } else {
                        self.move_on();
                    }
                },
            },
            _ => {},
        }
    }

    /// Takes where the file was moved to, if it was.
    pub fn answer_move(&mut self, to: Option<String>)
        requires
            old(self).wf(),
        ensures
            final(self).wf(),
            final(self)@ == moved(
                old(self)@,
                match to {
                    Some(p) => Some(p@),
                    None => None,
                },
            ),
    {
        match self.stage {
            BackupStage::Move => match to {
                None => {
                    self.stage = BackupStage::Failed;
                },
                Some(backup_path) => {
                    assert(text::views(self.paths@).len() == self.paths@.len());
                    let ghost before = self.backups@;
                    let original_path: String = self.paths[self.next].clone();
                    self.backups.push(RuntimeDbBackup { original_path, backup_path });
                    assert(backup_views(self.backups@) == backup_views(before).push(
                        self.backups@.last()@,
                    ));
                    self.move_on();
                },
            },
            _ => {},
        }
    }

    /// What was moved. `Err` holds what to report where nothing was moved, and
    /// nothing where a question failed.
    pub fn finish(self) -> (r: Result<Vec<RuntimeDbBackup>, Option<String>>)
        requires
            self@.stage is Done || self@.stage is Failed,
        ensures
            if self@.stage is Failed {
                r is Err && r->Err_0 is None
            } else if self@.backups.len() == 0 {
                r is Err && r->Err_0 is Some && r->Err_0->0@ == NOTHING_TO_BACK_UP@
            } else {
                r is Ok && backup_views(r->Ok_0@) == self@.backups
            },
    {
        assert(backup_views(self.backups@).len() == self.backups@.len());
        match self.stage {
            BackupStage::Failed => Err(None),
            _ => if self.backups.len() == 0 {
                Err(Some(NOTHING_TO_BACK_UP.to_owned()))
            } else {
                Ok(self.backups)
            },
        }
    }
}

// ---------------------------------------------------------------------------
// Laws
// ---------------------------------------------------------------------------
proof fn lemma_digit(a: int, b: int)
    requires
        0 <= a < 10,
        0 <= b < 10,
        text::digit(a) == text::digit(b),
    ensures
        a == b,
{
}

proof fn lemma_decimal_len(n: nat)
    ensures
        text::decimal(n).len() > 0,
        text::decimal(n).len() == 1 <==> n < 10,
    decreases n,
{
    if n >= 10 {
        lemma_decimal_len(n / 10);
    }
}

proof fn lemma_decimal_injective(a: nat, b: nat)
    requires
        text::decimal(a) == text::decimal(b),
    ensures
        a == b,
    decreases a,
{
    lemma_decimal_len(a);
    lemma_decimal_len(b);
    let s = text::decimal(a);
    let t = text::decimal(b);
    assert(s.last() == text::digit((a % 10) as int));
    assert(t.last() == text::digit((b % 10) as int));
    lemma_digit((a % 10) as int, (b % 10) as int);
    if a >= 10 {
        assert(s.drop_last() =~= text::decimal(a / 10));
        assert(t.drop_last() =~= text::decimal(b / 10));
        lemma_decimal_injective(a / 10, b / 10);
    }
}

/// No directory name is tried twice at one time.
pub proof fn law_backup_names_differ(timestamp: nat, a: nat, b: nat)
    requires
        a != b,
    ensures
        backup_dir_name(timestamp, a) != backup_dir_name(timestamp, b),
{
    let head = "sqlite-"@ + text::decimal(timestamp) + "-"@;
    let s = backup_dir_name(timestamp, a);
    let t = backup_dir_name(timestamp, b);
    if s == t {
        assert(s.skip(head.len() as int) =~= text::decimal(a));
        assert(t.skip(head.len() as int) =~= text::decimal(b));
        lemma_decimal_injective(a, b);
    }
}

/// The backup carried on to its end, where `there` says whether a file is
/// there and `place` where it was moved to.
pub open spec fn backup_run(
    b: FilesBackup,
    there: spec_fn(Seq<char>) -> Option<bool>,
    place: spec_fn(Seq<char>) -> Option<Seq<char>>,
) -> FilesBackup
    decreases
            (if b.stage is Probe || b.stage is Move {
                b.paths.len() - b.next + 1
            } else {
                0int
            }),
            (if b.stage is Probe {
                1int
            } else {
                0int
            }),
{
    if backup_wf(b) {
        match b.stage {
            BackupStage::Probe => backup_run(
                probed(b, there(b.paths[b.next])),
                there,
                place,
            ),
            BackupStage::Move => backup_run(moved(b, place(b.paths[b.next])), there, place),
            _ => b,
        }
    } else {
        b
    }
}

/// The files of `paths` that are there, each with its new place; none if one
/// of them could not be looked for or moved.
pub open spec fn files_moved(
    paths: Seq<Seq<char>>,
    there: spec_fn(Seq<char>) -> Option<bool>,
    place: spec_fn(Seq<char>) -> Option<Seq<char>>,
) -> Option<Seq<Backup>>
    decreases paths.len(),
{
    if paths.len() == 0 {
        Some(Seq::empty())
    } else {
        let path = paths[0];
        let rest = paths.drop_first();
        match (there(path), place(path)) {
            (None, _) => None,
            (Some(true), None) => None,
            (Some(true), Some(p)) => match files_moved(rest, there, place) {
                Some(others) => Some(seq![Backup { original: path, backup: p }] + others),
                None => None,
            },
            (Some(false), _) => files_moved(rest, there, place),
        }
    }
}

proof fn lemma_backup_run(
    b: FilesBackup,
    there: spec_fn(Seq<char>) -> Option<bool>,
    place: spec_fn(Seq<char>) -> Option<Seq<char>>,
)
    requires
        backup_wf(b),
        b.stage is Probe || (b.stage is Done && b.next == b.paths.len()),
    ensures
        match files_moved(b.paths.skip(b.next), there, place) {
            Some(more) => {
                let end = backup_run(b, there, place);
                end.stage is Done && end.backups == b.backups + more
            },
            None => backup_run(b, there, place).stage is Failed,
        },
    decreases b.paths.len() - b.next,
{
    let paths = b.paths.skip(b.next);
    if b.stage is Done {
        assert(b.backups + Seq::<Backup>::empty() =~= b.backups);
    } else {
        let path = b.paths[b.next];
        assert(paths[0] == path);
        assert(paths.drop_first() =~= b.paths.skip(b.next + 1));
        let seen = probed(b, there(path));
        assert(backup_run(b, there, place) == backup_run(seen, there, place));
        match there(path) {
            None => {},
            Some(true) => {
                let next = moved(seen, place(path));
                assert(backup_run(seen, there, place) == backup_run(next, there, place));
                match place(path) {
                    None => {},
                    Some(p) => {
                        lemma_backup_run(next, there, place);
                        let one = Backup { original: path, backup: p };
                        match files_moved(paths.drop_first(), there, place) {
                            Some(others) => {
                                assert(b.backups.push(one) + others =~= b.backups + (seq![one]
                                    + others));
                            },
                            None => {},
                        }
                    },
                }
            },
            Some(false) => {
                lemma_backup_run(seen, there, place);
            },
        }
    }
}

/// A backup asked to its end has moved every database file and sidecar that
/// is there, and nothing else, and it fails exactly if one of them could not
/// be looked for or moved.
pub proof fn law_backup_moves_what_is_there(
    dbs: Seq<Seq<char>>,
    there: spec_fn(Seq<char>) -> Option<bool>,
    place: spec_fn(Seq<char>) -> Option<Seq<char>>,
)
    ensures
        ({
            let end = backup_run(backup_start(all_files(dbs)), there, place);
            match files_moved(all_files(dbs), there, place) {
                Some(backups) => end.stage is Done && end.backups == backups,
                None => end.stage is Failed,
            }
        }),
{
    let b = backup_start(all_files(dbs));
    assert(b.paths.skip(0) =~= b.paths);
    lemma_backup_run(b, there, place);
    match files_moved(b.paths, there, place) {
        Some(backups) => {
            assert(b.backups + backups =~= backups);
        },
        None => {},
    }
}

/// Every database is backed up with both of its sidecars, and nothing else is.
pub proof fn law_every_database_file_is_backed_up(dbs: Seq<Seq<char>>, i: int)
    requires
        0 <= i < dbs.len(),
    ensures
        all_files(dbs).len() == 3 * dbs.len(),
        all_files(dbs)[3 * i] == dbs[i],
        all_files(dbs)[3 * i + 1] == dbs[i] + "-wal"@,
        all_files(dbs)[3 * i + 2] == dbs[i] + "-shm"@,
    decreases dbs.len(),
{
    let front = dbs.drop_last();
    lemma_files_count(front);
    let before = all_files(front);
    let all = all_files(dbs);
    assert(all == before + with_sidecars(dbs.last()));
    lemma_files_count(dbs);
    if i < front.len() {
        law_every_database_file_is_backed_up(front, i);
        assert(front[i] == dbs[i]);
    }
}

proof fn lemma_files_count(dbs: Seq<Seq<char>>)
    ensures
        all_files(dbs).len() == 3 * dbs.len(),
    decreases dbs.len(),
{
    if dbs.len() > 0 {
        lemma_files_count(dbs.drop_last());
    }
}

/// The backup of every file that is there is reported with the place it was moved
/// to, and nothing else is.
pub proof fn law_backups_are_reported(
    paths: Seq<Seq<char>>,
    there: spec_fn(Seq<char>) -> Option<bool>,
    place: spec_fn(Seq<char>) -> Option<Seq<char>>,
    x: Seq<char>,
)
    requires
        files_moved(paths, there, place) is Some,
    ensures
        paths.contains(x) && there(x) == Some(true) ==> exists|k: int|
            0 <= k < files_moved(paths, there, place)->0.len() && (#[trigger] files_moved(
                paths,
                there,
                place,
            )->0[k]).original == x && place(x) == Some(files_moved(paths, there, place)->0[k].backup),
    decreases paths.len(),
{
    if paths.len() > 0 {
        let rest = paths.drop_first();
        let moved = files_moved(paths, there, place)->0;
        if paths.contains(x) && there(x) == Some(true) {
            if paths[0] == x {
                assert(moved[0].original == x);
            } else {
                let i = choose|i: int| 0 <= i < paths.len() && paths[i] == x;
                assert(rest[i - 1] == x);
                law_backups_are_reported(rest, there, place, x);
                let others = files_moved(rest, there, place)->0;
                let k = choose|k: int|
                    0 <= k < others.len() && (#[trigger] others[k]).original == x && place(x)
                        == Some(others[k].backup);
                if there(paths[0]) == Some(true) {
                    assert(moved[k + 1] == others[k]);
                } else {
                    assert(moved[k] == others[k]);
                }
            }
        }
    }
}

proof fn lemma_occurs_within(a: Seq<char>, d: Seq<char>, b: Seq<char>, word: Seq<char>)
    ensures
        text::occurs_in(text::ascii_lower(d), word) ==> text::occurs_in(
            text::ascii_lower(a + d + b),
            word,
        ),
{
    let low = text::ascii_lower(d);
    let whole = text::ascii_lower(a + d + b);
    if text::occurs_in(low, word) {
        let i = choose|i: int| text::occurs_at(low, word, i);
        assert(whole.subrange(a.len() + i, a.len() + i + word.len()) =~= low.subrange(
            i,
            i + word.len(),
        ));
        assert(text::occurs_at(whole, word, a.len() + i));
    }
}

proof fn lemma_lower_twice(d: Seq<char>)
    ensures
        text::ascii_lower(text::ascii_lower(d)) == text::ascii_lower(d),
{
    assert(text::ascii_lower(text::ascii_lower(d)) =~= text::ascii_lower(d));
}

/// Damage is told from the words of an error, wherever they stand in it and whatever
/// the case of its letters.
pub proof fn law_damage_is_told_anywhere(a: Seq<char>, detail: Seq<char>, b: Seq<char>)
    ensures
        tells_corruption(detail) ==> tells_corruption(a + detail + b),
        tells_corruption(text::ascii_lower(detail)) == tells_corruption(detail),
        tells_lock(detail) ==> tells_lock(a + detail + b),
        tells_lock(text::ascii_lower(detail)) == tells_lock(detail),
{
    lemma_lower_twice(detail);
    lemma_occurs_within(a, detail, b, "database disk image is malformed"@);
    lemma_occurs_within(a, detail, b, "database schema is malformed"@);
    lemma_occurs_within(a, detail, b, "database is corrupt"@);
    lemma_occurs_within(a, detail, b, "file is not a database"@);
    lemma_occurs_within(a, detail, b, "sqlite_corrupt"@);
    lemma_occurs_within(a, detail, b, "sqlite_notadb"@);
    lemma_occurs_within(a, detail, b, "(code: 11)"@);
    lemma_occurs_within(a, detail, b, "(code: 26)"@);
    lemma_occurs_within(a, detail, b, "database is locked"@);
    lemma_occurs_within(a, detail, b, "database is busy"@);
}

/// Which words tell damage, and which tell that a database is in use.
pub proof fn law_words_of_damage(detail: Seq<char>)
    ensures
        tells_corruption(detail) <==> ({
            let d = text::ascii_lower(detail);
            text::occurs_in(d, "database disk image is malformed"@) || text::occurs_in(
                d,
                "database schema is malformed"@,
            ) || text::occurs_in(d, "database is corrupt"@) || text::occurs_in(
                d,
                "file is not a database"@,
            ) || text::occurs_in(d, "sqlite_corrupt"@) || text::occurs_in(d, "sqlite_notadb"@)
                || text::occurs_in(d, "(code: 11)"@) || text::occurs_in(d, "(code: 26)"@)
        }),
        tells_lock(detail) <==> text::occurs_in(
            text::ascii_lower(detail),
            "database is locked"@,
        ) || text::occurs_in(text::ascii_lower(detail), "database is busy"@),
{
}

/// The name of a backup directory tells its time and its number, in decimal.
pub proof fn law_backup_names(timestamp: nat, sequence: nat, n: nat, d: nat)
    requires
        d < 10,
    ensures
        backup_dir_name(timestamp, sequence) == "sqlite-"@ + text::decimal(timestamp) + "-"@
            + text::decimal(sequence),
        text::decimal(d).len() == 1 && text::decimal(d)[0] as u32 == 48 + d,
        n > 0 ==> text::decimal(10 * n + d) == text::decimal(n) + text::decimal(d),
{
    lemma_digit_code(d as int);
    if n > 0 {
        assert((10 * n + d) / 10 == n && (10 * n + d) % 10 == d) by (nonlinear_arith)
            requires
                d < 10,
        ;
        assert(text::decimal(n).push(text::digit(d as int)) =~= text::decimal(n) + text::decimal(
            d,
        ));
    }
}

proof fn lemma_digit_code(d: int)
    requires
        0 <= d < 10,
    ensures
        text::digit(d) as u32 == 48 + d,
{
}

} // verus!
