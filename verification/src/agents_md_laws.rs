//! What holds of the discovery and reading of documents as a whole.
//!
//! The laws speak of a file system that gives the same answer whenever it is
//! asked the same question.

use vstd::prelude::*;

use crate::agents_md;
use crate::agents_md::{Place, Presence, ReadResult, Reading, ReadingStage, Search, Stage};
use crate::decoding;
use crate::instructions::{
    Entry, Origin, DEFAULT_AGENTS_MD_FILENAME, LOCAL_AGENTS_MD_FILENAME,
};
use crate::text;

verus! {

// ---------------------------------------------------------------------------
// Candidate filenames
// ---------------------------------------------------------------------------
proof fn lemma_fallbacks(names: Seq<Seq<char>>, fallbacks: Seq<Seq<char>>)
    requires
        names.no_duplicates(),
    ensures
        ({
            let all = agents_md::with_fallbacks(names, fallbacks);
            &&& all.no_duplicates()
            &&& names.is_prefix_of(all)
            &&& forall|x: Seq<char>| #[trigger]
                all.contains(x) <==> names.contains(x) || (fallbacks.contains(x) && x.len() > 0)
        }),
    decreases fallbacks.len(),
{
    let all = agents_md::with_fallbacks(names, fallbacks);
    if fallbacks.len() > 0 {
        let name = fallbacks.last();
        let front = fallbacks.drop_last();
        let before = agents_md::with_fallbacks(names, front);
        lemma_fallbacks(names, front);
        assert(fallbacks == front.push(name));
        assert forall|x: Seq<char>| #[trigger] all.contains(x) <==> names.contains(x) || (
        fallbacks.contains(x) && x.len() > 0) by {
            assert(fallbacks.contains(x) <==> front.contains(x) || x == name) by {
                if front.contains(x) {
                    let i = choose|i: int| 0 <= i < front.len() && front[i] == x;
                    assert(fallbacks[i] == x);
                }
                if x == name {
                    assert(fallbacks[fallbacks.len() - 1] == x);
                }
                if fallbacks.contains(x) && x != name {
                    let i = choose|i: int| 0 <= i < fallbacks.len() && fallbacks[i] == x;
                    assert(front[i] == x);
                }
            }
            assert(before.push(name).contains(x) <==> before.contains(x) || x == name) by {
                if before.contains(x) {
                    let i = choose|i: int| 0 <= i < before.len() && before[i] == x;
                    assert(before.push(name)[i] == x);
                }
                if x == name {
                    assert(before.push(name)[before.len() as int] == x);
                }
            }
            assert(before.contains(x) <==> names.contains(x) || (front.contains(x) && x.len()
                > 0));
        }
    } else {
        assert forall|x: Seq<char>| #[trigger] all.contains(x) <==> names.contains(x) || (
        fallbacks.contains(x) && x.len() > 0) by {}
    }
}

/// The local override is preferred to the standard filename, and that to
/// every fallback. No filename is tried twice, and every fallback that is not
/// empty is tried.
pub proof fn law_candidate_filenames(fallbacks: Seq<Seq<char>>)
    ensures
        ({
            let names = agents_md::candidate_names(fallbacks);
            &&& names.len() >= 2
            &&& names[0] == LOCAL_AGENTS_MD_FILENAME@
            &&& names[1] == DEFAULT_AGENTS_MD_FILENAME@
            &&& names.no_duplicates()
            &&& forall|x: Seq<char>|
                fallbacks.contains(x) && x.len() > 0 ==> #[trigger] names.contains(x)
            &&& forall|x: Seq<char>| #[trigger]
                names.contains(x) ==> x == LOCAL_AGENTS_MD_FILENAME@ || x
                    == DEFAULT_AGENTS_MD_FILENAME@ || fallbacks.contains(x)
        }),
{
    let standard = seq![LOCAL_AGENTS_MD_FILENAME@, DEFAULT_AGENTS_MD_FILENAME@];
    reveal_strlit("AGENTS.md");
    reveal_strlit("AGENTS.override.md");
    assert(standard[0].len() != standard[1].len());
    agents_md::lemma_candidate_names(fallbacks);
    lemma_fallbacks(standard, fallbacks);
    assert forall|x: Seq<char>| #[trigger]
        agents_md::candidate_names(fallbacks).contains(x) implies x == LOCAL_AGENTS_MD_FILENAME@
        || x == DEFAULT_AGENTS_MD_FILENAME@ || fallbacks.contains(x) by {
        if standard.contains(x) {
            let i = choose|i: int| 0 <= i < standard.len() && standard[i] == x;
            assert(i == 0 || i == 1);
        }
    }
}

// ---------------------------------------------------------------------------
// Search
// ---------------------------------------------------------------------------
pub open spec fn place(directory: Seq<char>, name: Seq<char>) -> Place {
    Place { directory, name }
}

/// What the markers from position `m` on say of a directory: the first answer
/// that is not `Missing`.
pub open spec fn marker_in(
    answers: spec_fn(Place) -> Presence,
    directory: Seq<char>,
    markers: Seq<Seq<char>>,
    m: int,
) -> Presence
    decreases markers.len() - m,
{
    if m >= markers.len() {
        Presence::Missing
    } else {
        match answers(place(directory, markers[m])) {
            Presence::Missing => marker_in(answers, directory, markers, m + 1),
            a => a,
        }
    }
}

/// The outcome of looking for one of several things in order.
pub enum Pick {
    Nothing,
    At(int),
    Failed,
}

/// The project root: the nearest directory, from the one at `d` upwards, that
/// holds a marker.
pub open spec fn root_from(
    answers: spec_fn(Place) -> Presence,
    ancestors: Seq<Seq<char>>,
    markers: Seq<Seq<char>>,
    d: int,
) -> Pick
    decreases ancestors.len() - d,
{
    if d >= ancestors.len() {
        Pick::Nothing
    } else {
        match marker_in(answers, ancestors[d], markers, 0) {
            Presence::Missing => root_from(answers, ancestors, markers, d + 1),
            Presence::Failed => Pick::Failed,
            _ => Pick::At(d),
        }
    }
}

/// The first of the names from position `n` on that is a file.
pub open spec fn document_in(
    answers: spec_fn(Place) -> Presence,
    directory: Seq<char>,
    names: Seq<Seq<char>>,
    n: int,
) -> Pick
    decreases names.len() - n,
{
    if n >= names.len() {
        Pick::Nothing
    } else {
        match answers(place(directory, names[n])) {
            Presence::File => Pick::At(n),
            Presence::Failed => Pick::Failed,
            _ => document_in(answers, directory, names, n + 1),
        }
    }
}

/// The documents from the directory at `d` down to the working directory,
/// where the names of the first of them are tried from position `n` on; none
/// if a question failed.
pub open spec fn documents_from(
    answers: spec_fn(Place) -> Presence,
    ancestors: Seq<Seq<char>>,
    names: Seq<Seq<char>>,
    d: int,
    n: int,
) -> Option<Seq<Place>>
    decreases d,
{
    let here = document_in(answers, ancestors[d], names, n);
    let below = if d <= 0 {
        Some(Seq::empty())
    } else {
        documents_from(answers, ancestors, names, d - 1, 0)
    };
    match (here, below) {
        (Pick::Failed, _) => None,
        (_, None) => None,
        (Pick::Nothing, Some(rest)) => Some(rest),
        (Pick::At(k), Some(rest)) => Some(seq![place(ancestors[d], names[k])] + rest),
    }
}

/// The documents of a project; none if a question failed.
pub open spec fn located(
    answers: spec_fn(Place) -> Presence,
    max_bytes: nat,
    ancestors: Seq<Seq<char>>,
    markers: Seq<Seq<char>>,
    names: Seq<Seq<char>>,
) -> Option<Seq<Place>> {
    if max_bytes == 0 {
        Some(Seq::empty())
    } else {
        match if markers.len() == 0 {
            Pick::Nothing
        } else {
            root_from(answers, ancestors, markers, 0)
        } {
            Pick::Failed => None,
            Pick::Nothing => documents_from(answers, ancestors, names, 0, 0),
            Pick::At(root) => documents_from(answers, ancestors, names, root, 0),
        }
    }
}

/// The search carried on to its end.
pub open spec fn search_run(s: Search, answers: spec_fn(Place) -> Presence) -> Search
    decreases
            match s.stage {
                Stage::Marker(_, _) => 2int,
                Stage::Candidate(_, _) => 1int,
                _ => 0int,
            },
            match s.stage {
                Stage::Marker(d, _) => s.ancestors.len() - d,
                Stage::Candidate(d, _) => d,
                _ => 0int,
            },
            match s.stage {
                Stage::Marker(_, m) => s.markers.len() - m,
                Stage::Candidate(_, n) => s.names.len() - n,
                _ => 0int,
            },
{
    if agents_md::search_wf(s) {
        match agents_md::search_question(s) {
            Some(p) => search_run(agents_md::search_answered(s, answers(p)), answers),
            None => s,
        }
    } else {
        s
    }
}

/// The end of a search that has `found` so far and still finds `more`.
pub open spec fn search_ends(end: Search, found: Seq<Place>, more: Option<Seq<Place>>) -> bool {
    match more {
        Some(rest) => end.stage is Done && end.found == found + rest,
        None => end.stage is Failed,
    }
}

proof fn lemma_candidates(s: Search, answers: spec_fn(Place) -> Presence, d: int, n: int)
    requires
        agents_md::search_wf(s),
        s.stage == Stage::Candidate(d, n),
    ensures
        search_ends(
            search_run(s, answers),
            s.found,
            documents_from(answers, s.ancestors, s.names, d, n),
        ),
    decreases d, s.names.len() - n,
{
    let asked = place(s.ancestors[d], s.names[n]);
    let answer = answers(asked);
    let next = agents_md::search_answered(s, answer);
    assert(agents_md::search_question(s) == Some(asked));
    assert(search_run(s, answers) == search_run(next, answers));
    let below = if d <= 0 {
        Some(Seq::<Place>::empty())
    } else {
        documents_from(answers, s.ancestors, s.names, d - 1, 0)
    };
    match answer {
        Presence::Failed => {},
        Presence::File => {
            assert(document_in(answers, s.ancestors[d], s.names, n) == Pick::At(n));
            if d > 0 {
                lemma_candidates(next, answers, d - 1, 0);
            }
            match below {
                Some(rest) => {
                    assert(s.found.push(asked) + rest == s.found + (seq![asked] + rest));
                },
                None => {},
            }
        },
        _ => {
            if n + 1 < s.names.len() {
                lemma_candidates(next, answers, d, n + 1);
            } else {
                assert(document_in(answers, s.ancestors[d], s.names, n + 1) is Nothing);
                if d > 0 {
                    lemma_candidates(next, answers, d - 1, 0);
                } else {
                    assert(s.found + Seq::<Place>::empty() == s.found);
                }
            }
        },
    }
}

/// What a search finds that still looks for the marker at `m` in the
/// directory at `d`.
pub open spec fn located_from(
    answers: spec_fn(Place) -> Presence,
    s: Search,
    d: int,
    m: int,
) -> Option<Seq<Place>> {
    match marker_in(answers, s.ancestors[d], s.markers, m) {
        Presence::Failed => None,
        Presence::Missing => match root_from(answers, s.ancestors, s.markers, d + 1) {
            Pick::Failed => None,
            Pick::Nothing => documents_from(answers, s.ancestors, s.names, 0, 0),
            Pick::At(root) => documents_from(answers, s.ancestors, s.names, root, 0),
        },
        _ => documents_from(answers, s.ancestors, s.names, d, 0),
    }
}

proof fn lemma_markers(s: Search, answers: spec_fn(Place) -> Presence, d: int, m: int)
    requires
        agents_md::search_wf(s),
        s.stage == Stage::Marker(d, m),
    ensures
        search_ends(search_run(s, answers), s.found, located_from(answers, s, d, m)),
    decreases s.ancestors.len() - d, s.markers.len() - m,
{
    let asked = place(s.ancestors[d], s.markers[m]);
    let answer = answers(asked);
    let next = agents_md::search_answered(s, answer);
    assert(agents_md::search_question(s) == Some(asked));
    assert(search_run(s, answers) == search_run(next, answers));
    match answer {
        Presence::Failed => {},
        Presence::Missing => {
            if m + 1 < s.markers.len() {
                lemma_markers(next, answers, d, m + 1);
            } else {
                assert(marker_in(answers, s.ancestors[d], s.markers, m + 1) is Missing);
                if d + 1 < s.ancestors.len() {
                    lemma_markers(next, answers, d + 1, 0);
                } else {
                    lemma_candidates(next, answers, 0, 0);
                }
            }
        },
        _ => {
            lemma_candidates(next, answers, d, 0);
        },
    }
}

/// A search asked to its end finds the documents of the project, in order
/// from the project root to the working directory, and fails exactly if one
/// of its questions fails.
pub proof fn law_search_locates_documents(
    answers: spec_fn(Place) -> Presence,
    max_bytes: nat,
    ancestors: Seq<Seq<char>>,
    markers: Seq<Seq<char>>,
    names: Seq<Seq<char>>,
)
    requires
        ancestors.len() > 0,
        names.len() > 0,
    ensures
        ({
            let end = search_run(
                agents_md::search_start(max_bytes, ancestors, markers, names),
                answers,
            );
            match located(answers, max_bytes, ancestors, markers, names) {
                Some(found) => end.stage is Done && end.found == found,
                None => end.stage is Failed,
            }
        }),
{
    let s = agents_md::search_start(max_bytes, ancestors, markers, names);
    if max_bytes > 0 {
        if markers.len() == 0 {
            lemma_candidates(s, answers, 0, 0);
        } else {
            lemma_markers(s, answers, 0, 0);
        }
        match located(answers, max_bytes, ancestors, markers, names) {
            Some(found) => {
                assert(s.found + found == found);
            },
            None => {},
        }
    }
}

/// Whether one of `markers` is in `directory`.
pub open spec fn marked(
    answers: spec_fn(Place) -> Presence,
    directory: Seq<char>,
    markers: Seq<Seq<char>>,
) -> bool {
    exists|m: int|
        0 <= m < markers.len() && !(#[trigger] answers(place(directory, markers[m])) is Missing)
}

pub proof fn lemma_marker_in(
    answers: spec_fn(Place) -> Presence,
    directory: Seq<char>,
    markers: Seq<Seq<char>>,
    m: int,
)
    requires
        0 <= m,
    ensures
        marker_in(answers, directory, markers, m) is Missing <==> forall|k: int|
            m <= k < markers.len() ==> (#[trigger] answers(place(directory, markers[k]))) is Missing,
    decreases markers.len() - m,
{
    if m < markers.len() {
        lemma_marker_in(answers, directory, markers, m + 1);
        if answers(place(directory, markers[m])) is Missing {
            assert forall|k: int|
                marker_in(answers, directory, markers, m) is Missing && m <= k
                    < markers.len() implies (#[trigger] answers(
                place(directory, markers[k]),
            )) is Missing by {
                if k > m {
                    assert(m + 1 <= k);
                }
            }
        }
    }
}

proof fn lemma_root_from(
    answers: spec_fn(Place) -> Presence,
    ancestors: Seq<Seq<char>>,
    markers: Seq<Seq<char>>,
    d: int,
)
    requires
        0 <= d,
    ensures
        ({
            let root = root_from(answers, ancestors, markers, d);
            &&& root matches Pick::At(r) ==> {
                &&& d <= r < ancestors.len()
                &&& marked(answers, ancestors[r], markers)
                &&& forall|k: int| d <= k < r ==> !marked(answers, #[trigger] ancestors[k], markers)
            }
            &&& root is Nothing <==> forall|k: int|
                d <= k < ancestors.len() ==> !marked(answers, #[trigger] ancestors[k], markers)
        }),
    decreases ancestors.len() - d,
{
    if d < ancestors.len() {
        lemma_marker_in(answers, ancestors[d], markers, 0);
        lemma_root_from(answers, ancestors, markers, d + 1);
        assert(marked(answers, ancestors[d], markers) <==> !(marker_in(
            answers,
            ancestors[d],
            markers,
            0,
        ) is Missing));
    }
}

/// The project root is the nearest directory that holds a marker; without
/// any there is no root.
pub proof fn law_root_is_nearest(
    answers: spec_fn(Place) -> Presence,
    ancestors: Seq<Seq<char>>,
    markers: Seq<Seq<char>>,
)
    ensures
        ({
            let root = root_from(answers, ancestors, markers, 0);
            &&& root matches Pick::At(r) ==> {
                &&& 0 <= r < ancestors.len()
                &&& marked(answers, ancestors[r], markers)
                &&& forall|k: int| 0 <= k < r ==> !marked(answers, #[trigger] ancestors[k], markers)
            }
            &&& root is Nothing <==> forall|k: int|
                0 <= k < ancestors.len() ==> !marked(answers, #[trigger] ancestors[k], markers)
        }),
{
    lemma_root_from(answers, ancestors, markers, 0);
}

proof fn lemma_document_in(
    answers: spec_fn(Place) -> Presence,
    directory: Seq<char>,
    names: Seq<Seq<char>>,
    n: int,
)
    requires
        0 <= n,
    ensures
        document_in(answers, directory, names, n) matches Pick::At(k) ==> {
            &&& n <= k < names.len()
            &&& answers(place(directory, names[k])) is File
            &&& forall|j: int|
                n <= j < k ==> !((#[trigger] answers(place(directory, names[j]))) is File)
        },
        document_in(answers, directory, names, n) is Nothing ==> forall|j: int|
            n <= j < names.len() ==> !((#[trigger] answers(place(directory, names[j]))) is File),
    decreases names.len() - n,
{
    if n < names.len() {
        lemma_document_in(answers, directory, names, n + 1);
    }
}

/// The directories, from the one at `d` downwards, that have a document.
pub open spec fn document_directories(
    answers: spec_fn(Place) -> Presence,
    ancestors: Seq<Seq<char>>,
    names: Seq<Seq<char>>,
    d: int,
) -> Seq<int>
    decreases d + 1,
{
    if d < 0 {
        Seq::empty()
    } else {
        let below = document_directories(answers, ancestors, names, d - 1);
        if document_in(answers, ancestors[d], names, 0) is At {
            seq![d] + below
        } else {
            below
        }
    }
}

/// Documents come in order from the directory at `d`, the project root, to
/// the working directory, and from nowhere else. Every directory that has one
/// of the candidates as a file gives one document: its first such candidate.
pub proof fn law_documents_run_from_the_root_down(
    answers: spec_fn(Place) -> Presence,
    ancestors: Seq<Seq<char>>,
    names: Seq<Seq<char>>,
    d: int,
)
    requires
        0 <= d < ancestors.len(),
        documents_from(answers, ancestors, names, d, 0) is Some,
    ensures
        ({
            let found = documents_from(answers, ancestors, names, d, 0)->0;
            let dirs = document_directories(answers, ancestors, names, d);
            &&& found.len() == dirs.len()
            &&& forall|i: int, j: int| 0 <= i < j < dirs.len() ==> dirs[i] > dirs[j]
            &&& forall|i: int|
                #![trigger dirs[i]]
                0 <= i < dirs.len() ==> {
                    let directory = ancestors[dirs[i]];
                    &&& 0 <= dirs[i] <= d
                    &&& found[i].directory == directory
                    &&& answers(found[i]) is File
                    &&& exists|k: int|
                        0 <= k < names.len() && found[i].name == names[k] && (forall|j: int|
                            0 <= j < k ==> !((#[trigger] answers(
                                place(directory, names[j]),
                            )) is File))
                }
            &&& forall|k: int, n: int|
                #![trigger ancestors[k], names[n]]
                0 <= k <= d && 0 <= n < names.len() && answers(place(ancestors[k], names[n])) is File
                    ==> dirs.contains(k)
        }),
    decreases d,
{
    let found = documents_from(answers, ancestors, names, d, 0)->0;
    let dirs = document_directories(answers, ancestors, names, d);
    let below_dirs = document_directories(answers, ancestors, names, d - 1);
    lemma_document_in(answers, ancestors[d], names, 0);
    if d > 0 {
        law_documents_run_from_the_root_down(answers, ancestors, names, d - 1);
    } else {
        assert(below_dirs.len() == 0);
    }
    let shift: int = if document_in(answers, ancestors[d], names, 0) is At {
        1
    } else {
        0
    };
    assert forall|i: int| 0 <= i < below_dirs.len() implies #[trigger] below_dirs[i] == dirs[i
        + shift] by {}
    assert forall|i: int|
        #![trigger dirs[i]]
        0 <= i < dirs.len() implies {
        let directory = ancestors[dirs[i]];
        &&& 0 <= dirs[i] <= d
        &&& found[i].directory == directory
        &&& answers(found[i]) is File
        &&& exists|k: int|
            0 <= k < names.len() && found[i].name == names[k] && (forall|j: int|
                0 <= j < k ==> !((#[trigger] answers(place(directory, names[j]))) is File))
    } by {
        if i >= shift {
            assert(below_dirs[i - shift] == dirs[i]);
            let below = documents_from(answers, ancestors, names, d - 1, 0)->0;
            assert(found[i] == below[i - shift]);
        }
    }
    assert forall|k: int, n: int|
        #![trigger ancestors[k], names[n]]
        0 <= k <= d && 0 <= n < names.len() && answers(
            place(ancestors[k], names[n]),
        ) is File implies dirs.contains(k) by {
        if k < d {
            assert(below_dirs.contains(k));
            let i = choose|i: int| 0 <= i < below_dirs.len() && below_dirs[i] == k;
            assert(dirs[i + shift] == k);
        } else {
            assert(dirs[0] == k);
        }
    }
}

/// Without a marker anywhere, or without any to look for, only the working
/// directory counts.
pub proof fn law_no_marker_means_working_directory(
    answers: spec_fn(Place) -> Presence,
    max_bytes: nat,
    ancestors: Seq<Seq<char>>,
    markers: Seq<Seq<char>>,
    names: Seq<Seq<char>>,
)
    requires
        ancestors.len() > 0,
        forall|k: int|
            0 <= k < ancestors.len() ==> !marked(answers, #[trigger] ancestors[k], markers),
        located(answers, max_bytes, ancestors, markers, names) is Some,
    ensures
        ({
            let found = located(answers, max_bytes, ancestors, markers, names)->0;
            &&& found.len() <= 1
            &&& found.len() == 1 ==> found[0].directory == ancestors[0]
        }),
{
    law_root_is_nearest(answers, ancestors, markers);
    if max_bytes > 0 {
        law_documents_run_from_the_root_down(answers, ancestors, names, 0);
        let dirs = document_directories(answers, ancestors, names, 0);
        assert(document_directories(answers, ancestors, names, -1).len() == 0);
        assert(dirs.len() <= 1);
        if dirs.len() == 1 {
            assert(dirs[0] == 0);
        }
    }
}

// ---------------------------------------------------------------------------
// Reading
// ---------------------------------------------------------------------------
/// The bytes that were taken of the file at a path.
pub struct Document {
    pub path: Seq<char>,
    pub data: Seq<u8>,
}

pub open spec fn document_entry(d: Document) -> Entry {
    Entry { contents: decoding::lossy_text(d.data), origin: Origin::Project(Some(d.path)) }
}

pub open spec fn document_entries(docs: Seq<Document>) -> Seq<Entry> {
    docs.map_values(|d: Document| document_entry(d))
}

/// What is taken of the files at `paths` with room for `remaining` bytes;
/// none if a question failed.
pub open spec fn documents_read(
    stat: spec_fn(Seq<char>) -> Presence,
    read: spec_fn(Seq<char>) -> ReadResult,
    paths: Seq<Seq<char>>,
    remaining: nat,
) -> Option<Seq<Document>>
    decreases paths.len(),
{
    if paths.len() == 0 || remaining == 0 {
        Some(Seq::empty())
    } else {
        let path = paths[0];
        let rest = paths.drop_first();
        match (stat(path), read(path)) {
            (Presence::Failed, _) => None,
            (Presence::File, ReadResult::Failed) => None,
            (Presence::File, ReadResult::Data(whole)) => {
                let data = agents_md::clipped(whole, remaining);
                if text::is_blank(decoding::lossy_text(data)) {
                    documents_read(stat, read, rest, remaining)
                } else {
                    match documents_read(stat, read, rest, (remaining - data.len()) as nat) {
                        Some(docs) => Some(seq![Document { path, data }] + docs),
                        None => None,
                    }
                }
            },
            _ => documents_read(stat, read, rest, remaining),
        }
    }
}

/// The reading carried on to its end.
pub open spec fn reading_run(
    r: Reading,
    stat: spec_fn(Seq<char>) -> Presence,
    read: spec_fn(Seq<char>) -> ReadResult,
) -> Reading
    decreases
            (if r.stage is Check || r.stage is Read {
                r.paths.len() - r.next + 1
            } else {
                0int
            }),
            (if r.stage is Check {
                1int
            } else {
                0int
            }),
{
    if agents_md::reading_wf(r) {
        match r.stage {
            ReadingStage::Check => reading_run(
                agents_md::checked(r, stat(r.paths[r.next])),
                stat,
                read,
            ),
            ReadingStage::Read => reading_run(
                agents_md::read_through(r, read(r.paths[r.next])),
                stat,
                read,
            ),
            _ => r,
        }
    } else {
        r
    }
}

proof fn lemma_reading(
    r: Reading,
    stat: spec_fn(Seq<char>) -> Presence,
    read: spec_fn(Seq<char>) -> ReadResult,
)
    requires
        agents_md::reading_wf(r),
        r.stage is Check || (r.stage is Done && (r.next == r.paths.len() || r.remaining == 0)),
        0 <= r.next <= r.paths.len(),
    ensures
        match documents_read(stat, read, r.paths.skip(r.next), r.remaining) {
            Some(docs) => {
                let end = reading_run(r, stat, read);
                &&& end.stage is Done
                &&& end.entries == r.entries + document_entries(docs)
            },
            None => reading_run(r, stat, read).stage is Failed,
        },
    decreases r.paths.len() - r.next,
{
    let paths = r.paths.skip(r.next);
    if r.stage is Done {
        assert(r.entries + document_entries(Seq::empty()) =~= r.entries);
    } else {
        let path = r.paths[r.next];
        assert(paths[0] == path);
        assert(paths.drop_first() == r.paths.skip(r.next + 1));
        let seen = agents_md::checked(r, stat(path));
        assert(reading_run(r, stat, read) == reading_run(seen, stat, read));
        match stat(path) {
            Presence::Failed => {},
            Presence::File => {
                let next = agents_md::read_through(seen, read(path));
                assert(reading_run(seen, stat, read) == reading_run(next, stat, read));
                match read(path) {
                    ReadResult::Failed => {},
                    ReadResult::Missing => {
                        lemma_reading(next, stat, read);
                    },
                    ReadResult::Data(whole) => {
                        let data = agents_md::clipped(whole, r.remaining);
                        lemma_reading(next, stat, read);
                        if !text::is_blank(decoding::lossy_text(data)) {
                            let d = Document { path, data };
                            match documents_read(
                                stat,
                                read,
                                paths.drop_first(),
                                (r.remaining - data.len()) as nat,
                            ) {
                                Some(docs) => {
                                    assert(r.entries.push(document_entry(d)) + document_entries(
                                        docs,
                                    ) =~= r.entries + document_entries(seq![d] + docs));
                                },
                                None => {},
                            }
                        }
                    },
                }
            },
            _ => {
                lemma_reading(seen, stat, read);
            },
        }
    }
}

/// A reading asked to its end holds what is taken of the files, in their
/// order, and fails exactly if one of its questions fails.
pub proof fn law_reading_takes_documents(
    stat: spec_fn(Seq<char>) -> Presence,
    read: spec_fn(Seq<char>) -> ReadResult,
    max_total: nat,
    paths: Seq<Seq<char>>,
)
    ensures
        ({
            let end = reading_run(agents_md::reading_start(max_total, paths), stat, read);
            match documents_read(stat, read, paths, max_total) {
                Some(docs) => end.stage is Done && end.entries == document_entries(docs),
                None => end.stage is Failed,
            }
        }),
{
    let r = agents_md::reading_start(max_total, paths);
    assert(paths.skip(0) == paths);
    lemma_reading(r, stat, read);
    match documents_read(stat, read, paths, max_total) {
        Some(docs) => {
            assert(r.entries + document_entries(docs) == document_entries(docs));
        },
        None => {},
    }
}

/// The bytes of all documents together.
pub open spec fn total_size(docs: Seq<Document>) -> nat
    decreases docs.len(),
{
    if docs.len() == 0 {
        0
    } else {
        docs[0].data.len() + total_size(docs.drop_first())
    }
}

/// The documents of a project never take more bytes than they may. Each is
/// the beginning of a file that was asked for, and only the last of them can
/// be cut short.
pub proof fn law_documents_stay_within_budget(
    stat: spec_fn(Seq<char>) -> Presence,
    read: spec_fn(Seq<char>) -> ReadResult,
    paths: Seq<Seq<char>>,
    remaining: nat,
)
    requires
        documents_read(stat, read, paths, remaining) is Some,
    ensures
        ({
            let docs = documents_read(stat, read, paths, remaining)->0;
            &&& total_size(docs) <= remaining
            &&& forall|i: int|
                #![trigger docs[i]]
                0 <= i < docs.len() ==> {
                    &&& paths.contains(docs[i].path)
                    &&& stat(docs[i].path) is File
                    &&& read(docs[i].path) matches ReadResult::Data(whole)
                        && docs[i].data.is_prefix_of(whole) && (docs[i].data == whole || (i
                        == docs.len() - 1 && total_size(docs) == remaining))
                    &&& !text::is_blank(decoding::lossy_text(docs[i].data))
                }
        }),
    decreases paths.len(),
{
    let docs = documents_read(stat, read, paths, remaining)->0;
    if paths.len() > 0 && remaining > 0 {
        let path = paths[0];
        let rest = paths.drop_first();
        assert forall|p: Seq<char>| rest.contains(p) implies paths.contains(p) by {
            let i = choose|i: int| 0 <= i < rest.len() && rest[i] == p;
            assert(paths[i + 1] == p);
        }
        match (stat(path), read(path)) {
            (Presence::File, ReadResult::Data(whole)) => {
                let data = agents_md::clipped(whole, remaining);
                if text::is_blank(decoding::lossy_text(data)) {
                    law_documents_stay_within_budget(stat, read, rest, remaining);
                } else {
                    let left = (remaining - data.len()) as nat;
                    law_documents_stay_within_budget(stat, read, rest, left);
                    let others = documents_read(stat, read, rest, left)->0;
                    assert(docs.drop_first() == others);
                    assert(paths.contains(path));
                    assert(left == 0 ==> others.len() == 0);
                    assert forall|i: int|
                        #![trigger docs[i]]
                        0 <= i < docs.len() implies {
                        &&& paths.contains(docs[i].path)
                        &&& stat(docs[i].path) is File
                        &&& read(docs[i].path) matches ReadResult::Data(whole)
                            && docs[i].data.is_prefix_of(whole) && (docs[i].data == whole || (i
                            == docs.len() - 1 && total_size(docs) == remaining))
                        &&& !text::is_blank(decoding::lossy_text(docs[i].data))
                    } by {
                        if i > 0 {
                            assert(docs[i] == others[i - 1]);
                        }
                    }
                }
            },
            _ => {
                law_documents_stay_within_budget(stat, read, rest, remaining);
            },
        }
    }
}

} // verus!
