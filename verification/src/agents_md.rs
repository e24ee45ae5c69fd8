//! Discovery of `AGENTS.md` files and assembly of user instructions.
//!
//! Project instructions are the documents found along the path from the
//! project root to the working directory:
//!
//! 1. The project root is the nearest directory, from the working directory
//!    upwards, that holds one of the configured markers. Without a marker only
//!    the working directory counts, and an empty marker list disables the walk
//!    upwards.
//! 2. Every directory from the root down to the working directory gives at
//!    most one document: the first of the candidate filenames that is a file.
//! 3. The walk never goes past the project root.
//!
//! The file system is asked from outside. [`DocumentSearch`] and
//! [`DocumentReading`] say what to ask next and take the answer.

use vstd::prelude::*;
use vstd::utf8::*;

use crate::decoding;
use crate::directories;
use crate::environment_path::PathFlavor;
use crate::instructions;
use crate::instructions::{
    Entry, InstructionProvenance, LoadedAgentsMd, Origin, DEFAULT_AGENTS_MD_FILENAME,
    LOCAL_AGENTS_MD_FILENAME,
};
use crate::text;

verus! {

/// The marker of a project root where none is configured.
pub const DEFAULT_PROJECT_ROOT_MARKER: &'static str = ".git";

/// What instruction loading reads of the configuration.
#[derive(Clone, Debug, PartialEq, Eq)]
pub struct Config {
    /// The working directory.
    pub cwd: String,
    /// How the working directory is spelled.
    pub path_flavor: PathFlavor,
    /// How many bytes project documents may take; zero disables them.
    pub project_doc_max_bytes: usize,
    /// More filenames to look for, after the two standard ones.
    pub project_doc_fallback_filenames: Vec<String>,
    /// The configured root markers, if they are set and valid.
    pub project_root_markers: Option<Vec<String>>,
    /// Guidance on nested documents, if it is to be given.
    pub child_agents_message: Option<String>,
}

/// What the file system says of a path.
#[derive(Clone, Copy, Debug, PartialEq, Eq, Structural)]
pub enum Presence {
    /// A regular file.
    File,
    /// Something else, such as a directory.
    Other,
    /// There is nothing.
    Missing,
    /// The question could not be answered.
    Failed,
}

/// What came of reading a file.
#[derive(Clone, Debug, PartialEq, Eq)]
pub enum FileRead {
    Data(Vec<u8>),
    Missing,
    Failed,
}

/// A name in a directory.
#[derive(Clone, Debug, PartialEq, Eq)]
pub struct DocumentPlace {
    pub directory: String,
    pub name: String,
}

// ---------------------------------------------------------------------------
// Candidate filenames
// ---------------------------------------------------------------------------
/// `names` followed by each of the `fallbacks` that is neither empty nor
/// there before it.
pub open spec fn with_fallbacks(
    names: Seq<Seq<char>>,
    fallbacks: Seq<Seq<char>>,
) -> Seq<Seq<char>>
    decreases fallbacks.len(),
{
    if fallbacks.len() == 0 {
        names
    } else {
        let before = with_fallbacks(names, fallbacks.drop_last());
        let name = fallbacks.last();
        if name.len() == 0 || before.contains(name) {
            before
        } else {
            before.push(name)
        }
    }
}

/// The filenames to look for in a directory, in order of preference.
pub open spec fn candidate_names(fallbacks: Seq<Seq<char>>) -> Seq<Seq<char>> {
    with_fallbacks(seq![LOCAL_AGENTS_MD_FILENAME@, DEFAULT_AGENTS_MD_FILENAME@], fallbacks)
}

/// Resolves `AGENTS.md` files into model-visible user instructions.
pub struct AgentsMdManager<'a> {
    pub config: &'a Config,
}

/// The markers that tell a project root.
pub open spec fn root_markers(configured: Option<Vec<String>>) -> Seq<Seq<char>> {
    match configured {
        Some(markers) => text::views(markers@),
        None => seq![DEFAULT_PROJECT_ROOT_MARKER@],
    }
}

/// The working directory and the directories above it, nearest first.
pub open spec fn ancestors_of(config: Config) -> Seq<Seq<char>> {
    seq![config.cwd@] + directories::directories_above(
        config.cwd@,
        directories::root_len(config.cwd@, config.path_flavor),
        directories::separator(config.path_flavor),
    )
}

/// The instructions that a session starts with, before it is asked whether
/// there are any: the global ones, the project documents and the guidance on
/// nested documents, cut down to their budget.
pub open spec fn assembled(
    global: Seq<Entry>,
    documents: Seq<Entry>,
    child_message: Option<Seq<char>>,
) -> Seq<Entry> {
    let all = global + documents;
    instructions::bounded(
        match child_message {
            Some(m) => all.push(Entry { contents: m, origin: Origin::Internal }),
            None => all,
        },
    )
}

/// `entries` unless they are all white space.
pub open spec fn unless_blank(entries: Seq<Entry>) -> Option<Seq<Entry>> {
    if instructions::all_blank(entries) {
        None
    } else {
        Some(entries)
    }
}

pub open spec fn loaded_view(l: Option<LoadedAgentsMd>) -> Option<Seq<Entry>> {
    match l {
        Some(l) => Some(l@),
        None => None,
    }
}

impl<'a> AgentsMdManager<'a> {
    pub fn new(config: &'a Config) -> (r: Self)
        ensures
            *r.config == *config,
    {
        AgentsMdManager { config }
    }

    /// The filenames to look for in a directory, in order of preference.
    pub fn candidate_filenames(&self) -> (r: Vec<String>)
        ensures
            text::views(r@) == candidate_names(
                text::views(self.config.project_doc_fallback_filenames@),
            ),
    {
        let mut names: Vec<String> = Vec::new();
        names.push(LOCAL_AGENTS_MD_FILENAME.to_owned());
        names.push(DEFAULT_AGENTS_MD_FILENAME.to_owned());
        let fallbacks: &Vec<String> = &self.config.project_doc_fallback_filenames;
        let ghost all = text::views(fallbacks@);
        let mut i: usize = 0;
        assert(text::views(names@) == candidate_names(all.take(0)));
        while i < fallbacks.len()
            invariant
                i <= fallbacks@.len(),
                all == text::views(fallbacks@),
                text::views(names@) == candidate_names(all.take(i as int)),
            decreases fallbacks.len() - i,
        {
            let name: &String = &fallbacks[i];
            let ghost before = names@;
            proof {
                assert(all.take(i + 1).drop_last() == all.take(i as int));
                assert(all.take(i + 1).last() == name@);
            }
            if !name.as_str().is_empty() && !text::holds(&names, name) {
                names.push(name.clone());
                assert(text::views(names@) == text::views(before).push(name@));
            }
            i += 1;
        }
        assert(all.take(all.len() as int) == all);
        names
    }

    /// The markers that tell a project root.
    pub fn project_root_markers(&self) -> (r: Vec<String>)
        ensures
            text::views(r@) == root_markers(self.config.project_root_markers),
    {
        match &self.config.project_root_markers {
            Some(markers) => text::copies(markers),
            None => {
                let mut markers: Vec<String> = Vec::new();
                markers.push(DEFAULT_PROJECT_ROOT_MARKER.to_owned());
                assert(text::views(markers@) =~= seq![DEFAULT_PROJECT_ROOT_MARKER@]);
                markers
            },
        }
    }

    /// The search for the documents of the project, ordered from the project
    /// root to the working directory.
    pub fn agents_md_paths(&self) -> (r: DocumentSearch)
        ensures
            r.wf(),
            r@ == search_start(
                self.config.project_doc_max_bytes as nat,
                ancestors_of(*self.config),
                root_markers(self.config.project_root_markers),
                candidate_names(text::views(self.config.project_doc_fallback_filenames@)),
            ),
    {
        let mut ancestors: Vec<String> = Vec::new();
        ancestors.push(self.config.cwd.clone());
        let mut parents = directories::parent_directories(
            self.config.cwd.as_str(),
            self.config.path_flavor,
        );
        let ghost above = parents@;
        ancestors.append(&mut parents);
        proof {
            assert(text::views(ancestors@) =~= seq![self.config.cwd@] + text::views(above));
            lemma_candidate_names(text::views(self.config.project_doc_fallback_filenames@));
        }
        let markers = self.project_root_markers();
        let names = self.candidate_filenames();
        let stage = if self.config.project_doc_max_bytes == 0 {
            SearchStage::Done
        } else if markers.len() == 0 {
            SearchStage::Candidate(0, 0)
        } else {
            SearchStage::Marker(0, 0)
        };
        proof {
            assert(text::views(names@).len() == names@.len());
            assert(text::views(markers@).len() == markers@.len());
        }
        let found: Vec<DocumentPlace> = Vec::new();
        assert(places(found@) =~= Seq::<Place>::empty());
        DocumentSearch { ancestors, markers, names, stage, found }
    }

    /// The reading of the documents at `paths`, within the configured budget.
    pub fn read_agents_md(&self, paths: Vec<String>) -> (r: DocumentReading)
        ensures
            r.wf(),
            r@ == reading_start(self.config.project_doc_max_bytes as nat, text::views(paths@)),
    {
        let max_total = self.config.project_doc_max_bytes;
        let stage = if max_total == 0 || paths.len() == 0 {
            ReadingStage::Done
        } else {
            ReadingStage::Check
        };
        assert(text::views(paths@).len() == paths@.len());
        let warnings: Vec<String> = Vec::new();
        assert(text::views(warnings@) =~= Seq::<Seq<char>>::empty());
        DocumentReading {
            paths,
            next: 0,
            stage,
            remaining: max_total,
            loaded: LoadedAgentsMd::default(),
            warnings,
        }
    }

    /// Combines global instructions and project documents, where there are
    /// any, into what the model sees.
    pub fn user_instructions(
        &self,
        documents: Option<LoadedAgentsMd>,
        loaded: LoadedAgentsMd,
    ) -> (r: Option<LoadedAgentsMd>)
        ensures
            loaded_view(r) == unless_blank(
                assembled(
                    loaded@,
                    match documents {
                        Some(d) => d@,
                        None => Seq::empty(),
                    },
                    instructions::path_of(self.config.child_agents_message),
                ),
            ),
    {
        let mut loaded = loaded;
        let ghost global = loaded@;
        match documents {
            Some(documents) => loaded.extend(documents),
            None => {
                assert(loaded@ + Seq::<Entry>::empty() == loaded@);
            },
        }
        self.finish_instructions(loaded)
    }

    /// Adds the guidance on nested documents and enforces the budget.
    pub fn finish_instructions(&self, loaded: LoadedAgentsMd) -> (r: Option<LoadedAgentsMd>)
        ensures
            loaded_view(r) == unless_blank(
                assembled(
                    loaded@,
                    Seq::empty(),
                    instructions::path_of(self.config.child_agents_message),
                ),
            ),
    {
        let mut loaded = loaded;
        assert(loaded@ + Seq::<Entry>::empty() == loaded@);
        match &self.config.child_agents_message {
            Some(message) => {
                loaded.push(message.clone(), InstructionProvenance::Internal);
            },
            None => {},
        }
        loaded.enforce_model_context_limit();
        if loaded.is_empty() {
            None
        } else {
            Some(loaded)
        }
    }
}

pub proof fn lemma_candidate_names(fallbacks: Seq<Seq<char>>)
    ensures
        candidate_names(fallbacks).len() >= 2,
        candidate_names(fallbacks)[0] == LOCAL_AGENTS_MD_FILENAME@,
        candidate_names(fallbacks)[1] == DEFAULT_AGENTS_MD_FILENAME@,
    decreases fallbacks.len(),
{
    if fallbacks.len() > 0 {
        lemma_candidate_names(fallbacks.drop_last());
    }
}

// ---------------------------------------------------------------------------
// Search
// ---------------------------------------------------------------------------
/// The mathematical counterpart of [`DocumentPlace`].
pub struct Place {
    pub directory: Seq<char>,
    pub name: Seq<char>,
}

impl View for DocumentPlace {
    type V = Place;

    open spec fn view(&self) -> Place {
        Place { directory: self.directory@, name: self.name@ }
    }
}

pub open spec fn places(v: Seq<DocumentPlace>) -> Seq<Place> {
    v.map_values(|p: DocumentPlace| p@)
}

/// Where a search stands. Directories are counted from the working directory
/// upwards.
#[derive(Clone, Copy, Debug, PartialEq, Eq)]
pub enum SearchStage {
    /// Looking for this marker in this directory.
    Marker(usize, usize),
    /// Looking for this filename in this directory.
    Candidate(usize, usize),
    Done,
    Failed,
}

/// A search for documents, one question at a time.
pub struct DocumentSearch {
    ancestors: Vec<String>,
    markers: Vec<String>,
    names: Vec<String>,
    stage: SearchStage,
    found: Vec<DocumentPlace>,
}

/// The mathematical counterpart of [`SearchStage`].
pub enum Stage {
    Marker(int, int),
    Candidate(int, int),
    Done,
    Failed,
}

/// The mathematical counterpart of [`DocumentSearch`].
pub struct Search {
    pub ancestors: Seq<Seq<char>>,
    pub markers: Seq<Seq<char>>,
    pub names: Seq<Seq<char>>,
    pub stage: Stage,
    pub found: Seq<Place>,
}

impl View for SearchStage {
    type V = Stage;

    open spec fn view(&self) -> Stage {
        match self {
            SearchStage::Marker(d, m) => Stage::Marker(*d as int, *m as int),
            SearchStage::Candidate(d, n) => Stage::Candidate(*d as int, *n as int),
            SearchStage::Done => Stage::Done,
            SearchStage::Failed => Stage::Failed,
        }
    }
}

impl View for DocumentSearch {
    type V = Search;

    closed spec fn view(&self) -> Search {
        Search {
            ancestors: text::views(self.ancestors@),
            markers: text::views(self.markers@),
            names: text::views(self.names@),
            stage: self.stage@,
            found: places(self.found@),
        }
    }
}

/// Whether the position of a search lies within its lists.
pub open spec fn search_wf(s: Search) -> bool {
    match s.stage {
        Stage::Marker(d, m) => {
            &&& 0 <= d < s.ancestors.len()
            &&& 0 <= m < s.markers.len()
            &&& s.names.len() > 0
        },
        Stage::Candidate(d, n) => 0 <= d < s.ancestors.len() && 0 <= n < s.names.len(),
        _ => true,
    }
}

/// The search before its first question.
pub open spec fn search_start(
    max_bytes: nat,
    ancestors: Seq<Seq<char>>,
    markers: Seq<Seq<char>>,
    names: Seq<Seq<char>>,
) -> Search {
    Search {
        ancestors,
        markers,
        names,
        stage: if max_bytes == 0 {
            Stage::Done
        } else if markers.len() == 0 {
            Stage::Candidate(0, 0)
        } else {
            Stage::Marker(0, 0)
        },
        found: Seq::empty(),
    }
}

/// What a search asks next.
pub open spec fn search_question(s: Search) -> Option<Place> {
    match s.stage {
        Stage::Marker(d, m) => Some(Place { directory: s.ancestors[d], name: s.markers[m] }),
        Stage::Candidate(d, n) => Some(Place { directory: s.ancestors[d], name: s.names[n] }),
        _ => None,
    }
}

/// The stage after all names were tried in directory `d`.
pub open spec fn next_directory(d: int) -> Stage {
    if d == 0 {
        Stage::Done
    } else {
        Stage::Candidate(d - 1, 0)
    }
}

/// The search after the answer to its question.
pub open spec fn search_answered(s: Search, answer: Presence) -> Search {
    match s.stage {
        Stage::Marker(d, m) => Search {
            stage: match answer {
                Presence::Failed => Stage::Failed,
                Presence::File | Presence::Other => Stage::Candidate(d, 0),
                Presence::Missing => if m + 1 < s.markers.len() {
                    Stage::Marker(d, m + 1)
                } else if d + 1 < s.ancestors.len() {
                    Stage::Marker(d + 1, 0)
                } else {
                    Stage::Candidate(0, 0)
                },
            },
            ..s
        },
        Stage::Candidate(d, n) => Search {
            stage: match answer {
                Presence::Failed => Stage::Failed,
                Presence::File => next_directory(d),
                Presence::Other | Presence::Missing => if n + 1 < s.names.len() {
                    Stage::Candidate(d, n + 1)
                } else {
                    next_directory(d)
                },
            },
            found: if answer is File {
                s.found.push(Place { directory: s.ancestors[d], name: s.names[n] })
            } else {
                s.found
            },
            ..s
        },
        _ => s,
    }
}

impl DocumentSearch {
    pub closed spec fn wf(&self) -> bool {
        search_wf(self@)
    }

    /// The place to look at next; none once the search is over.
    pub fn question(&self) -> (r: Option<DocumentPlace>)
        requires
            self.wf(),
        ensures
            match r {
                Some(p) => search_question(self@) == Some(p@),
                None => search_question(self@) is None,
            },
    {
        match self.stage {
            SearchStage::Marker(d, m) => {
                assert(text::views(self.ancestors@).len() == self.ancestors@.len());
                assert(text::views(self.markers@).len() == self.markers@.len());
                Some(
                    DocumentPlace {
                        directory: self.ancestors[d].clone(),
                        name: self.markers[m].clone(),
                    },
                )
            },
            SearchStage::Candidate(d, n) => {
                assert(text::views(self.ancestors@).len() == self.ancestors@.len());
                assert(text::views(self.names@).len() == self.names@.len());
                Some(
                    DocumentPlace {
                        directory: self.ancestors[d].clone(),
                        name: self.names[n].clone(),
                    },
                )
            },
            _ => None,
        }
    }

    /// Takes what is at the place that was asked for.
    pub fn answer(&mut self, answer: Presence)
        requires
            old(self).wf(),
        ensures
            final(self).wf(),
            final(self)@ == search_answered(old(self)@, answer),
    {
        let ghost before = self.found@;
        let directories: usize = self.ancestors.len();
        let markers: usize = self.markers.len();
        let names: usize = self.names.len();
        assert(text::views(self.ancestors@).len() == directories);
        assert(text::views(self.markers@).len() == markers);
        assert(text::views(self.names@).len() == names);
        match self.stage {
            SearchStage::Marker(d, m) => {
                self.stage = match answer {
                    Presence::Failed => SearchStage::Failed,
                    Presence::File | Presence::Other => SearchStage::Candidate(d, 0),
                    Presence::Missing => if m + 1 < markers {
                        SearchStage::Marker(d, m + 1)
                    } else if d + 1 < directories {
                        SearchStage::Marker(d + 1, 0)
                    } else {
                        SearchStage::Candidate(0, 0)
                    },
                };
            },
            SearchStage::Candidate(d, n) => {
                let after = if d == 0 {
                    SearchStage::Done
                } else {
                    SearchStage::Candidate(d - 1, 0)
                };
                match answer {
                    Presence::Failed => {
                        self.stage = SearchStage::Failed;
                    },
                    Presence::File => {
                        self.found.push(
                            DocumentPlace {
                                directory: self.ancestors[d].clone(),
                                name: self.names[n].clone(),
                            },
                        );
                        assert(places(self.found@) == places(before).push(self.found@.last()@));
                        self.stage = after;
                    },
                    Presence::Other | Presence::Missing => {
                        self.stage = if n + 1 < names {
                            SearchStage::Candidate(d, n + 1)
                        } else {
                            after
                        };
                    },
                }
            },
            _ => {},
        }
    }

    /// The documents that were found, or `Err` if a question failed.
    pub fn finish(self) -> (r: Result<Vec<DocumentPlace>, ()>)
        requires
            search_question(self@) is None,
        ensures
            r is Err <==> self@.stage is Failed,
            r is Ok ==> places(r->Ok_0@) == self@.found,
    {
        match self.stage {
            SearchStage::Failed => Err(()),
            _ => Ok(self.found),
        }
    }
}

// ---------------------------------------------------------------------------
// Reading
// ---------------------------------------------------------------------------
/// Where a reading stands.
#[derive(Clone, Copy, Debug, PartialEq, Eq)]
pub enum ReadingStage {
    /// Asking what the next path is.
    Check,
    /// Reading the file at the next path.
    Read,
    Done,
    Failed,
}

/// A reading of documents, one question at a time.
pub struct DocumentReading {
    paths: Vec<String>,
    next: usize,
    stage: ReadingStage,
    remaining: usize,
    loaded: LoadedAgentsMd,
    warnings: Vec<String>,
}

/// The mathematical counterpart of [`DocumentReading`].
pub struct Reading {
    pub paths: Seq<Seq<char>>,
    pub next: int,
    pub stage: ReadingStage,
    pub remaining: nat,
    pub entries: Seq<Entry>,
    pub warnings: Seq<Seq<char>>,
}

impl View for DocumentReading {
    type V = Reading;

    closed spec fn view(&self) -> Reading {
        Reading {
            paths: text::views(self.paths@),
            next: self.next as int,
            stage: self.stage,
            remaining: self.remaining as nat,
            entries: self.loaded@,
            warnings: text::views(self.warnings@),
        }
    }
}

/// Whether the position of a reading lies within its list.
pub open spec fn reading_wf(r: Reading) -> bool {
    (r.stage is Check || r.stage is Read) ==> {
        &&& 0 <= r.next < r.paths.len()
        &&& r.remaining > 0
    }
}

/// The reading before its first question.
pub open spec fn reading_start(max_total: nat, paths: Seq<Seq<char>>) -> Reading {
    Reading {
        paths,
        next: 0,
        stage: if max_total == 0 || paths.len() == 0 {
            ReadingStage::Done
        } else {
            ReadingStage::Check
        },
        remaining: max_total,
        entries: Seq::empty(),
        warnings: Seq::empty(),
    }
}

/// The reading moved on to the next path, if there is one and there is room.
pub open spec fn moved_on(r: Reading) -> Reading {
    Reading {
        next: r.next + 1,
        stage: if r.next + 1 < r.paths.len() && r.remaining > 0 {
            ReadingStage::Check
        } else {
            ReadingStage::Done
        },
        ..r
    }
}

/// The reading after it learned what the next path is.
pub open spec fn checked(r: Reading, answer: Presence) -> Reading {
    if r.stage is Check {
        match answer {
            Presence::File => Reading { stage: ReadingStage::Read, ..r },
            Presence::Other | Presence::Missing => moved_on(r),
            Presence::Failed => Reading { stage: ReadingStage::Failed, ..r },
        }
    } else {
        r
    }
}

/// `data` cut to at most `room` bytes.
pub open spec fn clipped(data: Seq<u8>, room: nat) -> Seq<u8> {
    if data.len() > room {
        data.take(room as int)
    } else {
        data
    }
}

/// The warning that a file is not valid UTF-8.
pub open spec fn invalid_utf8_warning(
    source: Seq<char>,
    path: Seq<char>,
    error: Seq<char>,
) -> Seq<char> {
    source + " AGENTS.md instructions from `"@ + path + "` contain invalid UTF-8: "@ + error
        + ". Invalid byte sequences were replaced."@
}

/// `warnings` with one on `error`, if there is an error.
pub open spec fn warned(
    warnings: Seq<Seq<char>>,
    source: Seq<char>,
    path: Seq<char>,
    error: Option<Seq<char>>,
) -> Seq<Seq<char>> {
    match error {
        Some(e) => warnings.push(invalid_utf8_warning(source, path, e)),
        None => warnings,
    }
}

/// The error in `data`, if it is not valid UTF-8.
pub open spec fn error_in(data: Seq<u8>) -> Option<Seq<char>> {
    if valid_utf8(data) {
        None
    } else {
        Some(decoding::utf8_error(data))
    }
}

/// The reading after `contents`, which came from `size` bytes with `error`.
pub open spec fn document_taken(
    r: Reading,
    contents: Seq<char>,
    size: nat,
    error: Option<Seq<char>>,
) -> Reading {
    if r.stage is Read {
        let path = r.paths[r.next];
        let noted = Reading { warnings: warned(r.warnings, "Project"@, path, error), ..r };
        moved_on(
            if text::is_blank(contents) {
                noted
            } else {
                Reading {
                    entries: r.entries.push(
                        Entry { contents, origin: Origin::Project(Some(path)) },
                    ),
                    remaining: if size <= r.remaining {
                        (r.remaining - size) as nat
                    } else {
                        0
                    },
                    ..noted
                }
            },
        )
    } else {
        r
    }
}

/// The mathematical counterpart of [`FileRead`].
pub enum ReadResult {
    Data(Seq<u8>),
    Missing,
    Failed,
}

impl View for FileRead {
    type V = ReadResult;

    open spec fn view(&self) -> ReadResult {
        match self {
            FileRead::Data(d) => ReadResult::Data(d@),
            FileRead::Missing => ReadResult::Missing,
            FileRead::Failed => ReadResult::Failed,
        }
    }
}

/// The reading after the file at the next path was read.
pub open spec fn read_through(r: Reading, answer: ReadResult) -> Reading {
    if r.stage is Read {
        match answer {
            ReadResult::Data(data) => {
                let taken = clipped(data, r.remaining);
                document_taken(r, decoding::lossy_text(taken), taken.len(), error_in(data))
            },
            ReadResult::Missing => moved_on(r),
            ReadResult::Failed => Reading { stage: ReadingStage::Failed, ..r },
        }
    } else {
        r
    }
}

pub open spec fn text_of(s: Option<String>) -> Option<Seq<char>> {
    match s {
        Some(s) => Some(s@),
        None => None,
    }
}

/// Warns of `error`, if there is one, in the file at `path`.
pub fn warn_of_error(
    path: &str,
    error: Option<String>,
    source: &str,
    startup_warnings: &mut Vec<String>,
)
    ensures
        text::views(final(startup_warnings)@) == warned(
            text::views(old(startup_warnings)@),
            source@,
            path@,
            text_of(error),
        ),
{
    match error {
        Some(error) => {
            let mut warning: String = source.to_owned();
            warning.append(" AGENTS.md instructions from `");
            warning.append(path);
            warning.append("` contain invalid UTF-8: ");
            warning.append(error.as_str());
            warning.append(". Invalid byte sequences were replaced.");
            startup_warnings.push(warning);
            assert(text::views(startup_warnings@) == text::views(old(startup_warnings)@).push(
                warning@,
            ));
        },
        None => {},
    }
}

/// Warns if `data`, read from `path`, is not valid UTF-8.
pub fn warn_invalid_utf8(
    path: &str,
    data: &[u8],
    source: &str,
    startup_warnings: &mut Vec<String>,
)
    ensures
        text::views(final(startup_warnings)@) == warned(
            text::views(old(startup_warnings)@),
            source@,
            path@,
            error_in(data@),
        ),
{
    let error = decoding::utf8_error_of(data);
    warn_of_error(path, error, source, startup_warnings);
}

impl DocumentReading {
    pub closed spec fn wf(&self) -> bool {
        reading_wf(self@)
    }

    /// The path to ask about or to read next; none once the reading is over.
    pub fn question(&self) -> (r: Option<(&str, ReadingStage)>)
        requires
            self.wf(),
        ensures
            match r {
                Some((path, stage)) => {
                    &&& self@.stage is Check || self@.stage is Read
                    &&& path@ == self@.paths[self@.next]
                    &&& stage == self@.stage
                },
                None => self@.stage is Done || self@.stage is Failed,
            },
    {
        assert(text::views(self.paths@).len() == self.paths@.len());
        match self.stage {
            ReadingStage::Check => Some((self.paths[self.next].as_str(), ReadingStage::Check)),
            ReadingStage::Read => Some((self.paths[self.next].as_str(), ReadingStage::Read)),
            _ => None,
        }
    }

    fn move_on(&mut self)
        requires
            0 <= old(self)@.next < old(self)@.paths.len(),
        ensures
            final(self).wf(),
            final(self)@ == moved_on(old(self)@),
    {
        assert(text::views(self.paths@).len() == self.paths@.len());
        let total: usize = self.paths.len();
        self.next = self.next + 1;
        self.stage = if self.next < total && self.remaining > 0 {
            ReadingStage::Check
        } else {
            ReadingStage::Done
        };
    }

    /// Takes what the next path is.
    pub fn answer_check(&mut self, answer: Presence)
        requires
            old(self).wf(),
        ensures
            final(self).wf(),
            final(self)@ == checked(old(self)@, answer),
    {
        match self.stage {
            ReadingStage::Check => match answer {
                Presence::File => {
                    self.stage = ReadingStage::Read;
                },
                Presence::Other | Presence::Missing => self.move_on(),
                Presence::Failed => {
                    self.stage = ReadingStage::Failed;
                },
            },
            _ => {},
        }
    }

    /// Takes the text of the next document, which came from `size` bytes.
    pub fn take_document(&mut self, contents: String, size: usize, error: Option<String>)
        requires
            old(self).wf(),
        ensures
            final(self).wf(),
            final(self)@ == document_taken(
                old(self)@,
                contents@,
                size as nat,
                text_of(error),
            ),
    {
        match self.stage {
            ReadingStage::Read => {
                assert(text::views(self.paths@).len() == self.paths@.len());
                let path: String = self.paths[self.next].clone();
                warn_of_error(path.as_str(), error, "Project", &mut self.warnings);
                let chars = text::chars_of(contents.as_str());
                if !text::blank(&chars) {
                    self.loaded.push(contents, InstructionProvenance::Project(Some(path)));
                    self.remaining = self.remaining.saturating_sub(size);
                }
                self.move_on();
            },
            _ => {},
        }
    }

    /// Takes what came of reading the file at the next path.
    pub fn answer_read(&mut self, answer: FileRead)
        requires
            old(self).wf(),
        ensures
            final(self).wf(),
            final(self)@ == read_through(old(self)@, answer@),
            old(self)@.stage is Read ==> (answer matches FileRead::Data(data) ==> ({
                let taken = clipped(data@, old(self)@.remaining);
                valid_utf8(taken) ==> decoding::lossy_text(taken) == decode_utf8(taken)
            })),
    {
        match self.stage {
            ReadingStage::Read => match answer {
                FileRead::Data(data) => {
                    let ghost whole = data@;
                    let error = decoding::utf8_error_of(data.as_slice());
                    let mut data = data;
                    if data.len() > self.remaining {
                        data.truncate(self.remaining);
                    }
                    assert(data@ == clipped(whole, self@.remaining));
                    let contents = decoding::decode_lossy(data.as_slice());
                    self.take_document(contents, data.len(), error);
                },
                FileRead::Missing => self.move_on(),
                FileRead::Failed => {
                    self.stage = ReadingStage::Failed;
                },
            },
            _ => {},
        }
    }

    /// The documents, if there are any that are not blank, and the warnings;
    /// `Err` if a question failed.
    pub fn finish(self) -> (r: (Result<Option<LoadedAgentsMd>, ()>, Vec<String>))
        requires
            self@.stage is Done || self@.stage is Failed,
        ensures
            r.0 is Err <==> self@.stage is Failed,
            r.0 is Ok ==> loaded_view(r.0->Ok_0) == unless_blank(self@.entries),
            text::views(r.1@) == self@.warnings,
    {
        let result = match self.stage {
            ReadingStage::Failed => Err(()),
            _ => if self.loaded.is_empty() {
                Ok(None)
            } else {
                Ok(Some(self.loaded))
            },
        };
        (result, self.warnings)
    }
}

/// A warning names the file that it is about.
pub proof fn lemma_warning_names_path(source: Seq<char>, path: Seq<char>, error: Seq<char>)
    ensures
        text::occurs_in(invalid_utf8_warning(source, path, error), path),
        source.is_prefix_of(invalid_utf8_warning(source, path, error)),
        text::occurs_in(invalid_utf8_warning(source, path, error), error),
{
    let w = invalid_utf8_warning(source, path, error);
    let head = source + " AGENTS.md instructions from `"@;
    let middle = head + path + "` contain invalid UTF-8: "@;
    assert(w.subrange(head.len() as int, head.len() as int + path.len()) =~= path);
    assert(text::occurs_at(w, path, head.len() as int));
    assert(w.subrange(middle.len() as int, middle.len() as int + error.len()) =~= error);
    assert(text::occurs_at(w, error, middle.len() as int));
    assert(w.subrange(0, source.len() as int) =~= source);
}

/// Reading one file: its beginning that fits into the room left becomes an entry of
/// the project under its path, unless that is blank, and takes as much of the room.
/// A file that is not valid text is warned of by its path, whatever was taken of it.
/// A file that has vanished changes nothing.
pub proof fn law_one_document(r: Reading, answer: ReadResult)
    requires
        r.stage is Read,
        0 <= r.next < r.paths.len(),
    ensures
        ({
            let after = read_through(r, answer);
            let path = r.paths[r.next];
            match answer {
                ReadResult::Data(data) => {
                    let taken = if data.len() <= r.remaining {
                        data
                    } else {
                        data.take(r.remaining as int)
                    };
                    let contents = decoding::lossy_text(taken);
                    &&& text::is_blank(contents) ==> after.entries == r.entries && after.remaining
                        == r.remaining
                    &&& !text::is_blank(contents) ==> after.entries == r.entries.push(
                        Entry { contents, origin: Origin::Project(Some(path)) },
                    ) && after.remaining + taken.len() == r.remaining
                    &&& valid_utf8(data) ==> after.warnings == r.warnings
                    &&& !valid_utf8(data) ==> after.warnings.len() == r.warnings.len() + 1
                        && after.warnings.drop_last() == r.warnings && text::occurs_in(
                        after.warnings.last(),
                        path,
                    )
                    &&& after.next == r.next + 1
                    &&& after.paths == r.paths
                    &&& !(after.stage is Failed)
                },
                ReadResult::Missing => {
                    &&& after.entries == r.entries && after.remaining == r.remaining
                    &&& after.warnings == r.warnings
                    &&& after.next == r.next + 1 && after.paths == r.paths
                    &&& !(after.stage is Failed)
                },
                ReadResult::Failed => after.stage is Failed,
            }
        }),
{
    if let ReadResult::Data(data) = answer {
        let path = r.paths[r.next];
        if !valid_utf8(data) {
            let e = decoding::utf8_error(data);
            lemma_warning_names_path("Project"@, path, e);
            assert(r.warnings.push(invalid_utf8_warning("Project"@, path, e)).drop_last()
                =~= r.warnings);
        }
    }
}

} // verus!
