//! What the discovery of documents makes of a configuration.

use vstd::prelude::*;

use crate::agents_md;
use crate::agents_md::{Config, Place, Presence, Search};
use crate::agents_md_laws;
use crate::agents_md_laws::Pick;
use crate::directories;
use crate::environment_path::PathFlavor;
use crate::instructions;
use crate::instructions::{Entry, Origin};
use crate::instructions_laws;
use crate::text;

verus! {

/// The override comes first, then the standard filename, then the fallbacks in
/// their order, each of them unless it is empty or was there before.
pub proof fn law_candidates_go_on(fallbacks: Seq<Seq<char>>, next: Seq<char>)
    ensures
        agents_md::candidate_names(Seq::empty()) == seq!["AGENTS.override.md"@, "AGENTS.md"@],
        agents_md::candidate_names(fallbacks.push(next)) == (if next.len() == 0
            || agents_md::candidate_names(fallbacks).contains(next) {
            agents_md::candidate_names(fallbacks)
        } else {
            agents_md::candidate_names(fallbacks).push(next)
        }),
{
    assert(fallbacks.push(next).drop_last() == fallbacks);
}

/// The markers of a project root are the configured ones, all of them and in
/// their order, or `.git` where none are configured.
pub proof fn law_markers_are_the_configured_ones(configured: Vec<String>)
    ensures
        ({
            let markers = agents_md::root_markers(Some(configured));
            &&& markers.len() == configured@.len()
            &&& forall|i: int|
                0 <= i < configured@.len() ==> #[trigger] markers[i] == configured@[i]@
        }),
        agents_md::root_markers(None) == seq![".git"@],
{
}

/// The directories of a search are the working directory and the ones above it,
/// one by one up to the root.
pub proof fn law_search_goes_up_to_the_root(
    config: Config,
    above: Config,
    name: Seq<char>,
)
    requires
        config.path_flavor is Posix,
        above.path_flavor is Posix,
        above.cwd@.len() > 0 && above.cwd@[0] == '/',
        above.cwd@.len() > 1 ==> above.cwd@.last() != '/',
        name.len() > 0 && !name.contains('/'),
        config.cwd@ == (if above.cwd@.len() == 1 {
            above.cwd@ + name
        } else {
            above.cwd@.push('/') + name
        }),
    ensures
        agents_md::ancestors_of(config) == seq![config.cwd@] + agents_md::ancestors_of(above),
        above.cwd@.len() == 1 ==> agents_md::ancestors_of(above) == seq![above.cwd@],
{
    let dir = above.cwd@;
    directories::law_directories_go_up_one_by_one(dir, name, 1, '/');
    assert(config.cwd@[0] == '/');
    assert(directories::root_len(config.cwd@, PathFlavor::Posix) == 1);
    assert(directories::root_len(dir, PathFlavor::Posix) == 1);
    assert(agents_md::ancestors_of(config) =~= seq![config.cwd@] + agents_md::ancestors_of(above));
    if dir.len() == 1 {
        assert(agents_md::ancestors_of(above) =~= seq![dir]);
    }
}

/// Instructions are assembled in one order: the global ones, the documents of the
/// project, then the guidance on nested documents. What takes less than 32000
/// bytes is all there.
pub proof fn law_assembly_order(
    global: Seq<Entry>,
    documents: Seq<Entry>,
    message: Option<Seq<char>>,
)
    ensures
        ({
            let all = match message {
                Some(m) => (global + documents).push(
                    Entry { contents: m, origin: Origin::Internal },
                ),
                None => global + documents,
            };
            &&& agents_md::assembled(global, documents, message) == instructions::bounded(all)
            &&& text::utf8_len(instructions::rendered(all)) < 32_000 ==> agents_md::assembled(
                global,
                documents,
                message,
            ) == all
        }),
{
    let all = match message {
        Some(m) => (global + documents).push(Entry { contents: m, origin: Origin::Internal }),
        None => global + documents,
    };
    instructions_laws::law_budget_in_bytes(all);
}

/// Instructions count as none exactly if no character of them is more than white
/// space.
pub proof fn law_blank_instructions_are_none(entries: Seq<Entry>)
    ensures
        agents_md::unless_blank(entries) is None <==> forall|i: int, k: int|
            0 <= i < entries.len() && 0 <= k < entries[i].contents.len() ==> text::is_space(
                #[trigger] entries[i].contents[k],
            ),
        agents_md::unless_blank(entries) matches Some(e) ==> e == entries,
{
    if agents_md::unless_blank(entries) is None {
        assert forall|i: int, k: int|
            0 <= i < entries.len() && 0 <= k < entries[i].contents.len() implies text::is_space(
            #[trigger] entries[i].contents[k],
        ) by {
            assert(text::is_blank(entries[i].contents));
        }
    }
    if forall|i: int, k: int|
        0 <= i < entries.len() && 0 <= k < entries[i].contents.len() ==> text::is_space(
            #[trigger] entries[i].contents[k],
        ) {
        assert forall|i: int| 0 <= i < entries.len() implies text::is_blank(
            (#[trigger] entries[i]).contents,
        ) by {
            assert forall|k: int| 0 <= k < entries[i].contents.len() implies text::is_space(
                #[trigger] entries[i].contents[k],
            ) by {}
        }
    }
}

proof fn lemma_root_at(
    answers: spec_fn(Place) -> Presence,
    ancestors: Seq<Seq<char>>,
    markers: Seq<Seq<char>>,
    k: int,
    d: int,
)
    requires
        0 <= d <= k < ancestors.len(),
        agents_md_laws::marked(answers, ancestors[k], markers),
        forall|j: int| 0 <= j < k ==> !agents_md_laws::marked(answers, #[trigger] ancestors[j], markers),
        forall|p: Place| !(#[trigger] answers(p) is Failed),
    ensures
        agents_md_laws::root_from(answers, ancestors, markers, d) == Pick::At(k),
    decreases k - d,
{
    agents_md_laws::lemma_marker_in(answers, ancestors[d], markers, 0);
    lemma_marker_answers(answers, ancestors[d], markers, 0);
    if d < k {
        assert(!agents_md_laws::marked(answers, ancestors[d], markers));
        lemma_root_at(answers, ancestors, markers, k, d + 1);
    }
}

proof fn lemma_marker_answers(
    answers: spec_fn(Place) -> Presence,
    directory: Seq<char>,
    markers: Seq<Seq<char>>,
    m: int,
)
    requires
        0 <= m,
        forall|p: Place| !(#[trigger] answers(p) is Failed),
    ensures
        !(agents_md_laws::marker_in(answers, directory, markers, m) is Failed),
    decreases markers.len() - m,
{
    if m < markers.len() {
        lemma_marker_answers(answers, directory, markers, m + 1);
        assert(!(answers(agents_md_laws::place(directory, markers[m])) is Failed));
    }
}

proof fn lemma_no_failing_documents(
    answers: spec_fn(Place) -> Presence,
    ancestors: Seq<Seq<char>>,
    names: Seq<Seq<char>>,
    d: int,
)
    requires
        0 <= d,
        forall|p: Place| !(#[trigger] answers(p) is Failed),
    ensures
        agents_md_laws::documents_from(answers, ancestors, names, d, 0) is Some,
    decreases d,
{
    lemma_no_failing_document(answers, ancestors[d], names, 0);
    if d > 0 {
        lemma_no_failing_documents(answers, ancestors, names, d - 1);
    }
}

proof fn lemma_no_failing_document(
    answers: spec_fn(Place) -> Presence,
    directory: Seq<char>,
    names: Seq<Seq<char>>,
    n: int,
)
    requires
        0 <= n,
        forall|p: Place| !(#[trigger] answers(p) is Failed),
    ensures
        !(agents_md_laws::document_in(answers, directory, names, n) is Failed),
    decreases names.len() - n,
{
    if n < names.len() {
        assert(!(answers(agents_md_laws::place(directory, names[n])) is Failed));
        lemma_no_failing_document(answers, directory, names, n + 1);
    }
}

/// The search of a configuration, carried on to its end.
pub open spec fn config_search(config: Config, answers: spec_fn(Place) -> Presence) -> Search {
    agents_md_laws::search_run(
        agents_md::search_start(
            config.project_doc_max_bytes as nat,
            agents_md::ancestors_of(config),
            agents_md::root_markers(config.project_root_markers),
            agents_md::candidate_names(text::views(config.project_doc_fallback_filenames@)),
        ),
        answers,
    )
}

proof fn lemma_marked(
    answers: spec_fn(Place) -> Presence,
    directory: Seq<char>,
    markers: Vec<String>,
    m: int,
)
    requires
        0 <= m < markers@.len(),
        !(answers(Place { directory, name: markers@[m]@ }) is Missing),
    ensures
        agents_md_laws::marked(answers, directory, agents_md::root_markers(Some(markers))),
{
    let all = agents_md::root_markers(Some(markers));
    law_markers_are_the_configured_ones(markers);
    assert(all[m] == markers@[m]@);
    assert(!(answers(agents_md_laws::place(directory, all[m])) is Missing));
}

proof fn lemma_unmarked(
    answers: spec_fn(Place) -> Presence,
    directory: Seq<char>,
    markers: Vec<String>,
)
    requires
        forall|i: int|
            0 <= i < markers@.len() ==> answers(
                Place { directory, name: (#[trigger] markers@[i])@ },
            ) is Missing,
    ensures
        !agents_md_laws::marked(answers, directory, agents_md::root_markers(Some(markers))),
{
    let all = agents_md::root_markers(Some(markers));
    law_markers_are_the_configured_ones(markers);
    assert forall|i: int| 0 <= i < all.len() implies (#[trigger] answers(
        agents_md_laws::place(directory, all[i]),
    )) is Missing by {
        assert(all[i] == markers@[i]@);
    }
}

/// The directory at `k` above the working directory holds the marker at `m`, and no
/// nearer directory holds any.
pub open spec fn is_nearest_marked(
    config: Config,
    markers: Vec<String>,
    answers: spec_fn(Place) -> Presence,
    k: int,
    m: int,
) -> bool {
    let above = agents_md::ancestors_of(config);
    &&& 0 <= k < above.len()
    &&& 0 <= m < markers@.len()
    &&& !(answers(Place { directory: above[k], name: markers@[m]@ }) is Missing)
    &&& forall|j: int, i: int|
        0 <= j < k && 0 <= i < markers@.len() ==> answers(
            Place { directory: #[trigger] above[j], name: (#[trigger] markers@[i])@ },
        ) is Missing
}

/// A directory that holds any of the configured markers is the project root if no
/// nearer one does, whichever marker it is: the documents are those from there down
/// to the working directory.
pub proof fn law_any_configured_marker_makes_a_root(
    config: Config,
    markers: Vec<String>,
    answers: spec_fn(Place) -> Presence,
    k: int,
    m: int,
)
    requires
        config.project_doc_max_bytes > 0,
        config.project_root_markers == Some(markers),
        forall|p: Place| !(#[trigger] answers(p) is Failed),
        is_nearest_marked(config, markers, answers, k, m),
    ensures
        config_search(config, answers).stage is Done,
        agents_md_laws::documents_from(
            answers,
            agents_md::ancestors_of(config),
            agents_md::candidate_names(text::views(config.project_doc_fallback_filenames@)),
            k,
            0,
        ) == Some(config_search(config, answers).found),
{
    let above = agents_md::ancestors_of(config);
    let all = agents_md::root_markers(config.project_root_markers);
    let fallbacks = text::views(config.project_doc_fallback_filenames@);
    let names = agents_md::candidate_names(fallbacks);
    agents_md::lemma_candidate_names(fallbacks);
    lemma_marked(answers, above[k], markers, m);
    assert forall|j: int| 0 <= j < k implies !agents_md_laws::marked(
        answers,
        #[trigger] above[j],
        all,
    ) by {
        assert forall|i: int| 0 <= i < markers@.len() implies answers(
            Place { directory: above[j], name: (#[trigger] markers@[i])@ },
        ) is Missing by {
            assert(above[j] == above[j]);
        }
        lemma_unmarked(answers, above[j], markers);
    }
    lemma_root_at(answers, above, all, k, 0);
    law_markers_are_the_configured_ones(markers);
    agents_md_laws::law_search_locates_documents(
        answers,
        config.project_doc_max_bytes as nat,
        above,
        all,
        names,
    );
    lemma_no_failing_documents(answers, above, names, k);
}

/// Every directory from the project root down that has one of the candidates as a
/// file gives a document.
pub proof fn law_every_level_gives_its_document(
    config: Config,
    markers: Vec<String>,
    answers: spec_fn(Place) -> Presence,
    k: int,
    m: int,
    j: int,
    n: int,
)
    requires
        config.project_doc_max_bytes > 0,
        config.project_root_markers == Some(markers),
        forall|p: Place| !(#[trigger] answers(p) is Failed),
        is_nearest_marked(config, markers, answers, k, m),
        0 <= j <= k,
        0 <= n < agents_md::candidate_names(
            text::views(config.project_doc_fallback_filenames@),
        ).len(),
        answers(
            Place {
                directory: agents_md::ancestors_of(config)[j],
                name: agents_md::candidate_names(
                    text::views(config.project_doc_fallback_filenames@),
                )[n],
            },
        ) is File,
    ensures
        exists|i: int|
            0 <= i < config_search(config, answers).found.len() && (#[trigger] config_search(
                config,
                answers,
            ).found[i]).directory == agents_md::ancestors_of(config)[j],
{
    let above = agents_md::ancestors_of(config);
    let names = agents_md::candidate_names(
        text::views(config.project_doc_fallback_filenames@),
    );
    law_any_configured_marker_makes_a_root(config, markers, answers, k, m);
    agents_md_laws::law_documents_run_from_the_root_down(answers, above, names, k);
    let found = config_search(config, answers).found;
    let dirs = agents_md_laws::document_directories(answers, above, names, k);
    assert(answers(agents_md_laws::place(above[j], names[n])) is File);
    assert(dirs.contains(j));
    let i = dirs.index_of(j);
    assert(dirs[i] == j);
    assert(found[i].directory == above[j]);
}

/// Where no marker is found, or none is configured, the working directory alone is
/// searched; with no room for documents nothing is.
pub proof fn law_without_a_root(
    config: Config,
    markers: Vec<String>,
    answers: spec_fn(Place) -> Presence,
)
    requires
        config.project_root_markers == Some(markers),
        forall|p: Place| !(#[trigger] answers(p) is Failed),
        forall|j: int, i: int|
            0 <= j < agents_md::ancestors_of(config).len() && 0 <= i < markers@.len() ==> answers(
                Place {
                    directory: #[trigger] agents_md::ancestors_of(config)[j],
                    name: (#[trigger] markers@[i])@,
                },
            ) is Missing,
    ensures
        config_search(config, answers).stage is Done,
        config.project_doc_max_bytes == 0 ==> config_search(config, answers).found.len() == 0,
        config.project_doc_max_bytes > 0 ==> agents_md_laws::documents_from(
            answers,
            agents_md::ancestors_of(config),
            agents_md::candidate_names(text::views(config.project_doc_fallback_filenames@)),
            0,
            0,
        ) == Some(config_search(config, answers).found),
{
    let above = agents_md::ancestors_of(config);
    let all = agents_md::root_markers(config.project_root_markers);
    let fallbacks = text::views(config.project_doc_fallback_filenames@);
    let names = agents_md::candidate_names(fallbacks);
    agents_md::lemma_candidate_names(fallbacks);
    assert forall|j: int| 0 <= j < above.len() implies !agents_md_laws::marked(
        answers,
        #[trigger] above[j],
        all,
    ) by {
        assert forall|i: int| 0 <= i < markers@.len() implies answers(
            Place { directory: above[j], name: (#[trigger] markers@[i])@ },
        ) is Missing by {
            assert(above[j] == agents_md::ancestors_of(config)[j]);
        }
        lemma_unmarked(answers, above[j], markers);
    }
    agents_md_laws::law_root_is_nearest(answers, above, all);
    agents_md_laws::law_search_locates_documents(
        answers,
        config.project_doc_max_bytes as nat,
        above,
        all,
        names,
    );
    lemma_no_failing_documents(answers, above, names, 0);
}

/// Without configured markers `.git` marks a project root: the search is that of
/// the same configuration with this marker.
pub proof fn law_git_marks_a_root_by_default(
    config: Config,
    explicit: Config,
    markers: Vec<String>,
    answers: spec_fn(Place) -> Presence,
)
    requires
        config.project_root_markers is None,
        markers@.len() == 1 && markers@[0]@ == ".git"@,
        explicit == (Config { project_root_markers: Some(markers), ..config }),
    ensures
        config_search(config, answers) == config_search(explicit, answers),
{
    law_markers_are_the_configured_ones(markers);
    assert(agents_md::root_markers(config.project_root_markers) =~= agents_md::root_markers(
        explicit.project_root_markers,
    ));
}

} // verus!
