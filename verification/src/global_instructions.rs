//! Loading of global instructions from the Codex home directory.
//!
//! The local override is tried before the standard file. The first of them
//! that holds more than white space gives the instructions.

use vstd::prelude::*;
use vstd::utf8::*;

use crate::agents_md;
use crate::agents_md::{DocumentPlace, Place};
use crate::decoding;
use crate::instructions;
use crate::instructions::{
    Entry, LoadedAgentsMd, Origin, DEFAULT_AGENTS_MD_FILENAME, LOCAL_AGENTS_MD_FILENAME,
};
use crate::text;

verus! {

/// What came of reading a candidate file.
#[derive(Clone, Debug, PartialEq, Eq)]
pub enum CandidateRead {
    Data(Vec<u8>),
    NotFound,
    IsADirectory,
    /// Any other failure, with its message.
    Failed(String),
}

/// The mathematical counterpart of [`CandidateRead`].
pub enum CandidateResult {
    Data(Seq<u8>),
    NotFound,
    IsADirectory,
    Failed(Seq<char>),
}

impl View for CandidateRead {
    type V = CandidateResult;

    open spec fn view(&self) -> CandidateResult {
        match self {
            CandidateRead::Data(d) => CandidateResult::Data(d@),
            CandidateRead::NotFound => CandidateResult::NotFound,
            CandidateRead::IsADirectory => CandidateResult::IsADirectory,
            CandidateRead::Failed(m) => CandidateResult::Failed(m@),
        }
    }
}

/// One global instruction text and the file it came from.
#[derive(Clone, Debug, PartialEq, Eq)]
pub struct GlobalInstruction {
    pub contents: String,
    pub source: Option<String>,
}

impl GlobalInstruction {
    pub fn new(contents: &str, source: Option<String>) -> (r: Self)
        ensures
            r.contents@ == contents@,
            r.source == source,
    {
        GlobalInstruction { contents: contents.to_owned(), source }
    }
}

/// Global instructions and what to warn of.
#[derive(Clone, Debug, PartialEq, Eq)]
pub struct GlobalInstructions {
    pub instructions: Vec<GlobalInstruction>,
    pub warnings: Vec<String>,
}

impl Default for GlobalInstructions {
    fn default() -> (r: Self)
        ensures
            r.instructions@.len() == 0,
            r.warnings@.len() == 0,
    {
        GlobalInstructions { instructions: Vec::new(), warnings: Vec::new() }
    }
}

/// A text and the path of the file that it was found in.
pub struct Finding {
    pub contents: Seq<char>,
    pub path: Seq<char>,
}

/// How far a load has come.
pub struct Load {
    pub codex_home: Seq<char>,
    pub tried: int,
    pub found: Option<Finding>,
    pub warnings: Seq<Seq<char>>,
    pub read_errors: Seq<Seq<char>>,
}

/// A load of global instructions, one file at a time.
pub struct GlobalInstructionsLoad {
    codex_home: String,
    tried: usize,
    found: Option<GlobalInstruction>,
    warnings: Vec<String>,
    read_errors: Vec<String>,
}

pub closed spec fn finding_of(g: Option<GlobalInstruction>) -> Option<Finding> {
    match g {
        Some(g) => Some(
            Finding {
                contents: g.contents@,
                path: match g.source {
                    Some(p) => p@,
                    None => Seq::empty(),
                },
            },
        ),
        None => None,
    }
}

impl View for GlobalInstructionsLoad {
    type V = Load;

    closed spec fn view(&self) -> Load {
        Load {
            codex_home: self.codex_home@,
            tried: self.tried as int,
            found: finding_of(self.found),
            warnings: text::views(self.warnings@),
            read_errors: text::views(self.read_errors@),
        }
    }
}

/// The candidates in order of preference.
pub open spec fn candidate(i: int) -> Seq<char> {
    if i == 0 {
        LOCAL_AGENTS_MD_FILENAME@
    } else {
        DEFAULT_AGENTS_MD_FILENAME@
    }
}

/// A load from `codex_home` before its first question.
pub open spec fn load_start(codex_home: Seq<char>) -> Load {
    Load {
        codex_home,
        tried: 0,
        found: None,
        warnings: Seq::empty(),
        read_errors: Seq::empty(),
    }
}

/// The file to read next: the next candidate, as long as nothing was found.
pub open spec fn load_question(s: Load) -> Option<Place> {
    if s.found is None && s.tried < 2 {
        Some(Place { directory: s.codex_home, name: candidate(s.tried) })
    } else {
        None
    }
}

/// The warning that a file could not be read.
pub open spec fn failed_read_warning(path: Seq<char>, error: Seq<char>) -> Seq<char> {
    "Failed to read global AGENTS.md instructions from `"@ + path + "`: "@ + error
}

/// The load after the candidate at `path` turned out to hold `contents`.
pub open spec fn text_taken(
    s: Load,
    path: Seq<char>,
    contents: Seq<char>,
    error: Option<Seq<char>>,
) -> Load {
    if load_question(s) is None {
        s
    } else {
        let trimmed = text::trim_space(contents);
        Load {
            tried: s.tried + 1,
            found: if trimmed.len() == 0 {
                None
            } else {
                Some(Finding { contents: trimmed, path })
            },
            warnings: agents_md::warned(s.warnings, "Global"@, path, error),
            ..s
        }
    }
}

/// The load after its question was answered.
pub open spec fn load_answered(s: Load, path: Seq<char>, answer: CandidateResult) -> Load {
    if load_question(s) is None {
        s
    } else {
        match answer {
            CandidateResult::NotFound | CandidateResult::IsADirectory => Load {
                tried: s.tried + 1,
                ..s
            },
            CandidateResult::Failed(error) => {
                let warning = failed_read_warning(path, error);
                Load {
                    tried: s.tried + 1,
                    warnings: s.warnings.push(warning),
                    read_errors: s.read_errors.push(warning),
                    ..s
                }
            },
            CandidateResult::Data(data) => text_taken(
                s,
                path,
                decoding::lossy_text(data),
                agents_md::error_in(data),
            ),
        }
    }
}

impl GlobalInstructionsLoad {
    pub closed spec fn wf(&self) -> bool {
        self.found is Some ==> self.found->0.source is Some
    }

    /// The file to read next; none once the load is over.
    pub fn question(&self) -> (r: Option<DocumentPlace>)
        ensures
            match r {
                Some(p) => load_question(self@) == Some(p@),
                None => load_question(self@) is None,
            },
    {
        if self.found.is_some() || self.tried >= 2 {
            return None;
        }
        let name = if self.tried == 0 {
            LOCAL_AGENTS_MD_FILENAME
        } else {
            DEFAULT_AGENTS_MD_FILENAME
        };
        Some(DocumentPlace { directory: self.codex_home.clone(), name: name.to_owned() })
    }

    /// Takes the text of the candidate at `path`.
    pub fn take_text(&mut self, path: &str, contents: &str, error: Option<String>)
        requires
            old(self).wf(),
        ensures
            final(self).wf(),
            final(self)@ == text_taken(
                old(self)@,
                path@,
                contents@,
                agents_md::text_of(error),
            ),
    {
        if self.found.is_some() || self.tried >= 2 {
            return ;
        }
        agents_md::warn_of_error(path, error, "Global", &mut self.warnings);
        let chars = text::chars_of(contents);
        let trimmed = text::trimmed(&chars);
        if trimmed.len() > 0 {
            let contents = text::string_of(&trimmed);
            self.found = Some(
                GlobalInstruction { contents, source: Some(path.to_owned()) },
            );
        }
        self.tried = self.tried + 1;
    }

    /// Takes what came of reading the candidate at `path`.
    pub fn answer(&mut self, path: &str, answer: CandidateRead)
        requires
            old(self).wf(),
        ensures
            final(self).wf(),
            final(self)@ == load_answered(old(self)@, path@, answer@),
            load_question(old(self)@) is Some ==> (answer matches CandidateRead::Data(data) ==> (
            valid_utf8(data@) ==> decoding::lossy_text(data@) == decode_utf8(data@))),
    {
        if self.found.is_some() || self.tried >= 2 {
            return ;
        }
        match answer {
            CandidateRead::NotFound | CandidateRead::IsADirectory => {
                self.tried = self.tried + 1;
            },
            CandidateRead::Failed(error) => {
                let mut warning: String = "Failed to read global AGENTS.md instructions from `".to_owned();
                warning.append(path);
                warning.append("`: ");
                warning.append(error.as_str());
                self.warnings.push(warning.clone());
                self.read_errors.push(warning);
                self.tried = self.tried + 1;
                proof {
                    let w = failed_read_warning(path@, error@);
                    assert(text::views(self.warnings@) == text::views(old(self).warnings@).push(
                        w,
                    ));
                    assert(text::views(self.read_errors@) == text::views(
                        old(self).read_errors@,
                    ).push(w));
                }
            },
            CandidateRead::Data(data) => {
                let error = decoding::utf8_error_of(data.as_slice());
                let contents = decoding::decode_lossy(data.as_slice());
                self.take_text(path, contents.as_str(), error);
            },
        }
    }

    /// The instructions that were found, and what to warn of. An unreadable
    /// candidate is an error unless another one gave instructions.
    pub fn finish(self) -> (r: Result<GlobalInstructions, String>)
        requires
            self.wf(),
            load_question(self@) is None,
        ensures
            match self@.found {
                Some(f) => {
                    &&& r is Ok
                    &&& r->Ok_0.instructions@.len() == 1
                    &&& r->Ok_0.instructions@[0].contents@ == f.contents
                    &&& r->Ok_0.instructions@[0].source is Some
                    &&& r->Ok_0.instructions@[0].source->0@ == f.path
                    &&& text::views(r->Ok_0.warnings@) == self@.warnings
                },
                None => if self@.read_errors.len() > 0 {
                    r is Err && r->Err_0@ == text::join_with(self@.read_errors, "; "@)
                } else {
                    &&& r is Ok
                    &&& r->Ok_0.instructions@.len() == 0
                    &&& text::views(r->Ok_0.warnings@) == self@.warnings
                },
            },
    {
        assert(text::views(self.read_errors@).len() == self.read_errors@.len());
        let mut instructions: Vec<GlobalInstruction> = Vec::new();
        match self.found {
            Some(found) => {
                instructions.push(found);
                Ok(GlobalInstructions { instructions, warnings: self.warnings })
            },
            None => if self.read_errors.len() > 0 {
                Err(text::join_strings(&self.read_errors, "; "))
            } else {
                Ok(GlobalInstructions { instructions, warnings: self.warnings })
            },
        }
    }

    /// The instructions that were found, as the start of a session's
    /// instructions, and what to warn of. An unreadable candidate only warns.
    pub fn load_global_instructions(self) -> (r: (Option<LoadedAgentsMd>, Vec<String>))
        requires
            self.wf(),
            load_question(self@) is None,
        ensures
            match self@.found {
                Some(f) => {
                    &&& r.0 is Some
                    &&& r.0->0@ == instructions::bounded(
                        instructions::single(f.contents, Origin::Global(Some(f.path))),
                    )
                },
                None => r.0 is None,
            },
            text::views(r.1@) == self@.warnings,
    {
        let loaded = match self.found {
            Some(found) => match found.source {
                Some(path) => Some(LoadedAgentsMd::new_user(found.contents, path)),
                None => None,
            },
            None => None,
        };
        (loaded, self.warnings)
    }
}

/// Loads global instructions from a configured Codex home directory.
pub struct CodexHomeInstructionsContributor {
    pub codex_home: String,
}

impl CodexHomeInstructionsContributor {
    pub fn new(codex_home: String) -> (r: Self)
        ensures
            r.codex_home == codex_home,
    {
        CodexHomeInstructionsContributor { codex_home }
    }

    /// Starts to load the instructions.
    pub fn load(&self) -> (r: GlobalInstructionsLoad)
        ensures
            r.wf(),
            r@ == load_start(self.codex_home@),
    {
        let r = GlobalInstructionsLoad {
            codex_home: self.codex_home.clone(),
            tried: 0,
            found: None,
            warnings: Vec::new(),
            read_errors: Vec::new(),
        };
        assert(r@.warnings =~= Seq::<Seq<char>>::empty());
        assert(r@.read_errors =~= Seq::<Seq<char>>::empty());
        r
    }
}

// ---------------------------------------------------------------------------
// Laws
// ---------------------------------------------------------------------------
/// The load carried on to its end, where `read` says what comes of reading
/// the candidate with a name and `path_of` how its path is spelled.
pub open spec fn load_run(
    s: Load,
    path_of: spec_fn(Seq<char>) -> Seq<char>,
    read: spec_fn(Seq<char>) -> CandidateResult,
) -> Load
    decreases 2 - s.tried,
{
    match load_question(s) {
        Some(p) => load_run(load_answered(s, path_of(p.name), read(p.name)), path_of, read),
        None => s,
    }
}

/// Whether a candidate that was read like this gives instructions.
pub open spec fn gives_instructions(r: CandidateResult) -> bool {
    r matches CandidateResult::Data(data) && !text::is_blank(decoding::lossy_text(data))
}

/// The text of a candidate without white space at either end.
pub open spec fn text_in(r: CandidateResult) -> Seq<char> {
    match r {
        CandidateResult::Data(data) => text::trim_space(decoding::lossy_text(data)),
        _ => Seq::empty(),
    }
}

proof fn lemma_load_run(
    codex_home: Seq<char>,
    path_of: spec_fn(Seq<char>) -> Seq<char>,
    read: spec_fn(Seq<char>) -> CandidateResult,
)
    ensures
        ({
            let start = load_start(codex_home);
            let local = LOCAL_AGENTS_MD_FILENAME@;
            let standard = DEFAULT_AGENTS_MD_FILENAME@;
            let first = load_answered(start, path_of(local), read(local));
            let second = load_answered(first, path_of(standard), read(standard));
            load_run(start, path_of, read) == (if first.found is Some {
                first
            } else {
                second
            })
        }),
{
    reveal_with_fuel(load_run, 3);
}

/// The local override gives the instructions wherever it can; the standard
/// file gives them only where the override does not. Nothing but white space
/// is cut off.
pub proof fn law_override_comes_first(
    codex_home: Seq<char>,
    path_of: spec_fn(Seq<char>) -> Seq<char>,
    read: spec_fn(Seq<char>) -> CandidateResult,
)
    ensures
        ({
            let end = load_run(load_start(codex_home), path_of, read);
            let local = LOCAL_AGENTS_MD_FILENAME@;
            let standard = DEFAULT_AGENTS_MD_FILENAME@;
            &&& load_question(end) is None
            &&& gives_instructions(read(local)) ==> end.found == Some(
                Finding {
                    contents: text_in(read(local)),
                    path: path_of(local),
                },
            )
            &&& !gives_instructions(read(local)) && gives_instructions(read(standard))
                ==> end.found == Some(
                Finding {
                    contents: text_in(read(standard)),
                    path: path_of(standard),
                },
            )
            &&& !gives_instructions(read(local)) && !gives_instructions(read(standard))
                ==> end.found is None
        }),
{
    lemma_load_run(codex_home, path_of, read);
    match read(LOCAL_AGENTS_MD_FILENAME@) {
        CandidateResult::Data(data) => text::lemma_trim_blank(decoding::lossy_text(data)),
        _ => {},
    }
    match read(DEFAULT_AGENTS_MD_FILENAME@) {
        CandidateResult::Data(data) => text::lemma_trim_blank(decoding::lossy_text(data)),
        _ => {},
    }
}

/// Where no candidate gives instructions, an unreadable candidate is told
/// from a missing or blank one: only then is there a read error.
pub proof fn law_unreadable_is_not_empty(
    codex_home: Seq<char>,
    path_of: spec_fn(Seq<char>) -> Seq<char>,
    read: spec_fn(Seq<char>) -> CandidateResult,
)
    requires
        !gives_instructions(read(LOCAL_AGENTS_MD_FILENAME@)),
        !gives_instructions(read(DEFAULT_AGENTS_MD_FILENAME@)),
    ensures
        load_run(load_start(codex_home), path_of, read).read_errors.len() > 0 <==> (read(
            LOCAL_AGENTS_MD_FILENAME@,
        ) is Failed || read(DEFAULT_AGENTS_MD_FILENAME@) is Failed),
{
    law_override_comes_first(codex_home, path_of, read);
    lemma_load_run(codex_home, path_of, read);
}

/// The text of a candidate is what is left of it without the white space at its two
/// ends, and nothing else is cut off.
pub proof fn law_only_outer_space_is_cut_off(contents: Seq<char>)
    ensures
        exists|i: int, j: int|
            0 <= i <= j <= contents.len() && text::trim_space(contents)
                == #[trigger] contents.subrange(i, j) && (forall|k: int|
                0 <= k < i || j <= k < contents.len() ==> text::is_space(#[trigger] contents[k]))
                && (i < j ==> !text::is_space(contents[i]) && !text::is_space(contents[j - 1])),
{
    let space = |c: char| text::is_space(c);
    let a = lemma_leading(contents, space);
    let rest = contents.skip(a);
    let b = lemma_trailing(rest, space);
    text::lemma_trim_start_at(contents, space, a);
    text::lemma_trim_end_at(rest, space, b);
    assert(rest.take(b) =~= contents.subrange(a, a + b));
    assert forall|k: int| 0 <= k < a || a + b <= k < contents.len() implies text::is_space(
        #[trigger] contents[k],
    ) by {
        if k < a {
            assert(space(contents[k]));
        } else {
            assert(rest[k - a] == contents[k]);
            assert(space(rest[k - a]));
        }
    }
    if b > 0 {
        assert(rest[0] == contents[a]);
        assert(rest[b - 1] == contents[a + b - 1]);
        assert(!space(contents[a]));
        assert(!space(rest[b - 1]));
    }
    assert(text::trim_space(contents) == contents.subrange(a, a + b));
}

proof fn lemma_leading(s: Seq<char>, drop: spec_fn(char) -> bool) -> (n: int)
    ensures
        0 <= n <= s.len(),
        forall|k: int| 0 <= k < n ==> drop(#[trigger] s[k]),
        n < s.len() ==> !drop(s[n]),
    decreases s.len(),
{
    if s.len() > 0 && drop(s[0]) {
        let m = lemma_leading(s.drop_first(), drop);
        assert forall|k: int| 0 <= k < m + 1 implies drop(#[trigger] s[k]) by {
            if k > 0 {
                assert(s.drop_first()[k - 1] == s[k]);
            }
        }
        if m + 1 < s.len() {
            assert(s.drop_first()[m] == s[m + 1]);
        }
        m + 1
    } else {
        0
    }
}

proof fn lemma_trailing(s: Seq<char>, drop: spec_fn(char) -> bool) -> (n: int)
    ensures
        0 <= n <= s.len(),
        forall|k: int| n <= k < s.len() ==> drop(#[trigger] s[k]),
        n > 0 ==> !drop(s[n - 1]),
    decreases s.len(),
{
    if s.len() > 0 && drop(s.last()) {
        let m = lemma_trailing(s.drop_last(), drop);
        assert forall|k: int| m <= k < s.len() implies drop(#[trigger] s[k]) by {
            if k < s.len() - 1 {
                assert(s.drop_last()[k] == s[k]);
            }
        }
        m
    } else {
        s.len() as int
    }
}

/// What is warned of while global instructions are loaded: an unreadable candidate,
/// with its path and the reason, and one that is not valid text, with its path.
/// Nothing else is.
pub proof fn law_global_warnings(s: Load, path: Seq<char>, answer: CandidateResult)
    requires
        load_question(s) is Some,
    ensures
        ({
            let after = load_answered(s, path, answer);
            match answer {
                CandidateResult::NotFound => after.warnings == s.warnings && after.read_errors
                    == s.read_errors && after.found is None,
                CandidateResult::IsADirectory => after.warnings == s.warnings && after.read_errors
                    == s.read_errors && after.found is None,
                CandidateResult::Failed(error) => {
                    &&& after.found is None
                    &&& after.warnings.len() == s.warnings.len() + 1
                    &&& after.warnings.drop_last() == s.warnings
                    &&& text::occurs_in(after.warnings.last(), path)
                    &&& error.is_suffix_of(after.warnings.last())
                    &&& after.read_errors == s.read_errors.push(after.warnings.last())
                },
                CandidateResult::Data(data) => {
                    &&& valid_utf8(data) ==> after.warnings == s.warnings
                    &&& !valid_utf8(data) ==> after.warnings.len() == s.warnings.len() + 1
                        && after.warnings.drop_last() == s.warnings && text::occurs_in(
                        after.warnings.last(),
                        path,
                    )
                    &&& after.read_errors == s.read_errors
                },
            }
        }),
        load_answered(s, path, answer).tried == s.tried + 1,
        load_answered(s, path, answer).codex_home == s.codex_home,
{
    match answer {
        CandidateResult::Failed(error) => {
            let w = failed_read_warning(path, error);
            let head = "Failed to read global AGENTS.md instructions from `"@;
            assert(w.subrange(head.len() as int, head.len() as int + path.len()) =~= path);
            assert(text::occurs_at(w, path, head.len() as int));
            assert(w.subrange(w.len() - error.len(), w.len() as int) =~= error);
            assert(s.warnings.push(w).drop_last() =~= s.warnings);
        },
        CandidateResult::Data(data) => {
            if !valid_utf8(data) {
                let w = agents_md::invalid_utf8_warning(
                    "Global"@,
                    path,
                    decoding::utf8_error(data),
                );
                agents_md::lemma_warning_names_path(
                    "Global"@,
                    path,
                    decoding::utf8_error(data),
                );
                assert(s.warnings.push(w).drop_last() =~= s.warnings);
            }
        },
        _ => {},
    }
}

} // verus!
