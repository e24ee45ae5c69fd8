use codex_kernel::agents_md::{
    warn_invalid_utf8, AgentsMdManager, Config, DocumentReading, DocumentSearch, FileRead,
    Presence, ReadingStage,
};
use codex_kernel::environment_path::PathFlavor;
use codex_kernel::instructions::LoadedAgentsMd;
use std::collections::BTreeMap;

/// A file system with these files; a path that ends in `/` is a directory.
struct Files(BTreeMap<String, Vec<u8>>);

impl Files {
    fn new(files: &[(&str, &str)]) -> Self {
        Files(
            files
                .iter()
                .map(|(path, data)| (path.to_string(), data.as_bytes().to_vec()))
                .collect(),
        )
    }

    fn presence(&self, path: &str) -> Presence {
        if path.contains("denied") {
            Presence::Failed
        } else if self.0.contains_key(path) {
            Presence::File
        } else if self.0.contains_key(&format!("{path}/")) {
            Presence::Other
        } else {
            Presence::Missing
        }
    }

    fn search(&self, mut search: DocumentSearch) -> Result<Vec<String>, ()> {
        while let Some(place) = search.question() {
            search.answer(self.presence(&joined(&place.directory, &place.name)));
        }
        let found = search.finish()?;
        Ok(found
            .into_iter()
            .map(|place| joined(&place.directory, &place.name))
            .collect())
    }

    fn read(&self, mut reading: DocumentReading) -> (Result<Option<LoadedAgentsMd>, ()>, Vec<String>) {
        loop {
            let (path, stage) = match reading.question() {
                Some((path, stage)) => (path.to_string(), stage),
                None => return reading.finish(),
            };
            match stage {
                ReadingStage::Check => reading.answer_check(self.presence(&path)),
                _ => reading.answer_read(match self.0.get(&path) {
                    Some(data) => FileRead::Data(data.clone()),
                    None => FileRead::Missing,
                }),
            }
        }
    }
}

fn joined(directory: &str, name: &str) -> String {
    format!("{}/{name}", directory.trim_end_matches('/'))
}

fn config() -> Config {
    Config {
        cwd: "/r/a/b".to_string(),
        path_flavor: PathFlavor::Posix,
        project_doc_max_bytes: 1000,
        project_doc_fallback_filenames: vec![],
        project_root_markers: None,
        child_agents_message: None,
    }
}

#[test]
fn documents_come_from_the_root_down() {
    let files = Files::new(&[
        ("/r/.git/", ""),
        ("/AGENTS.md", "above the root"),
        ("/r/AGENTS.md", "root"),
        ("/r/a/AGENTS.override.md", "override"),
        ("/r/a/AGENTS.md", "hidden"),
        ("/r/a/b/AGENTS.md", "leaf"),
    ]);
    let config = config();
    let manager = AgentsMdManager::new(&config);
    let paths = files.search(manager.agents_md_paths()).expect("no failure");
    assert_eq!(
        paths,
        vec!["/r/AGENTS.md", "/r/a/AGENTS.override.md", "/r/a/b/AGENTS.md"]
    );
    let (docs, warnings) = files.read(manager.read_agents_md(paths));
    assert!(warnings.is_empty());
    let docs = docs.expect("no failure").expect("documents");
    assert_eq!(docs.text(), "root\n\noverride\n\nleaf");
    let global = LoadedAgentsMd::new_user("global".to_string(), "/h/AGENTS.md".to_string());
    let all = manager.user_instructions(Some(docs), global).expect("instructions");
    assert_eq!(
        all.text(),
        "global\n\n--- project-doc ---\n\nroot\n\noverride\n\nleaf"
    );
}

#[test]
fn the_root_directory_can_be_the_project_root() {
    let files = Files::new(&[
        ("/.git/", ""),
        ("/AGENTS.md", "top"),
        ("/r/a/AGENTS.md", "middle"),
    ]);
    let config = config();
    let paths = files.search(AgentsMdManager::new(&config).agents_md_paths());
    assert_eq!(
        paths,
        Ok(vec!["/AGENTS.md".to_string(), "/r/a/AGENTS.md".to_string()])
    );
}

#[test]
fn the_nearest_marker_is_the_root() {
    let files = Files::new(&[
        ("/r/.git/", ""),
        ("/r/a/.git", "gitdir: elsewhere"),
        ("/r/AGENTS.md", "outer"),
        ("/r/a/AGENTS.md", "inner"),
    ]);
    let config = config();
    let paths = files.search(AgentsMdManager::new(&config).agents_md_paths());
    assert_eq!(paths, Ok(vec!["/r/a/AGENTS.md".to_string()]));
}

#[test]
fn without_a_marker_only_the_working_directory_counts() {
    let files = Files::new(&[("/r/AGENTS.md", "x"), ("/r/a/b/AGENTS.md", "y")]);
    let mut config = config();
    let expected = Ok(vec!["/r/a/b/AGENTS.md".to_string()]);
    assert_eq!(files.search(AgentsMdManager::new(&config).agents_md_paths()), expected);
    config.project_root_markers = Some(vec![]);
    assert_eq!(files.search(AgentsMdManager::new(&config).agents_md_paths()), expected);
    config.project_root_markers = Some(vec!["AGENTS.md".to_string()]);
    assert_eq!(files.search(AgentsMdManager::new(&config).agents_md_paths()), expected);
}

#[test]
fn no_budget_means_no_documents() {
    let files = Files::new(&[("/r/a/b/AGENTS.md", "y")]);
    let mut config = config();
    config.project_doc_max_bytes = 0;
    let manager = AgentsMdManager::new(&config);
    assert!(manager.agents_md_paths().question().is_none());
    assert_eq!(files.search(manager.agents_md_paths()), Ok(vec![]));
    let reading = manager.read_agents_md(vec!["/r/a/b/AGENTS.md".to_string()]);
    assert_eq!(files.read(reading), (Ok(None), vec![]));
}

#[test]
fn candidates_are_tried_in_order_and_once() {
    let mut config = config();
    for name in ["", "AGENTS.md", "README.md", "README.md", "NOTES.md"] {
        config.project_doc_fallback_filenames.push(name.to_string());
    }
    let manager = AgentsMdManager::new(&config);
    assert_eq!(
        manager.candidate_filenames(),
        vec!["AGENTS.override.md", "AGENTS.md", "README.md", "NOTES.md"]
    );
    assert_eq!(manager.project_root_markers(), vec![".git"]);
    let files = Files::new(&[("/r/a/b/AGENTS.md/", ""), ("/r/a/b/NOTES.md", "n")]);
    assert_eq!(
        files.search(manager.agents_md_paths()),
        Ok(vec!["/r/a/b/NOTES.md".to_string()])
    );
}

#[test]
fn a_failing_question_fails_the_search() {
    let mut config = config();
    config.project_root_markers = Some(vec!["denied".to_string()]);
    let files = Files::new(&[]);
    assert_eq!(files.search(AgentsMdManager::new(&config).agents_md_paths()), Err(()));
    config.project_root_markers = None;
    config.project_doc_fallback_filenames = vec!["denied".to_string()];
    assert_eq!(files.search(AgentsMdManager::new(&config).agents_md_paths()), Err(()));
    let manager = AgentsMdManager::new(&config);
    let (docs, _) = files.read(manager.read_agents_md(vec!["/denied".to_string()]));
    assert_eq!(docs, Err(()));
}

#[test]
fn documents_share_their_budget() {
    let mut config = config();
    config.project_doc_max_bytes = 10;
    let files = Files::new(&[("/1", "123456"), ("/2", "  \n "), ("/3", "abcdef"), ("/4", "x")]);
    let manager = AgentsMdManager::new(&config);
    let paths = vec!["/1", "/2", "/missing", "/3", "/4"];
    let reading = manager.read_agents_md(paths.into_iter().map(str::to_string).collect());
    let (docs, _) = files.read(reading);
    let docs = docs.expect("no failure").expect("documents");
    assert_eq!(docs.text(), "123456\n\nabcd");
    assert_eq!(docs.sources(), vec!["/1", "/3"]);
}

#[test]
fn invalid_text_is_replaced_and_warned_of() {
    let config = config();
    let mut files = Files::new(&[]);
    let data = vec![b'd', b'o', b'c', 0xff];
    files.0.insert("/r/AGENTS.md".to_string(), data.clone());
    let error = String::from_utf8(data.clone()).expect_err("invalid").utf8_error();
    let manager = AgentsMdManager::new(&config);
    let (docs, warnings) = files.read(manager.read_agents_md(vec!["/r/AGENTS.md".to_string()]));
    assert_eq!(docs.expect("no failure").expect("documents").text(), "doc\u{fffd}");
    let expected = format!(
        "Project AGENTS.md instructions from `/r/AGENTS.md` contain invalid UTF-8: {error}. Invalid byte sequences were replaced."
    );
    assert_eq!(warnings, vec![expected.clone()]);
    let mut more = vec!["first".to_string()];
    warn_invalid_utf8("/r/AGENTS.md", &data, "Project", &mut more);
    warn_invalid_utf8("/r/AGENTS.md", b"fine", "Project", &mut more);
    assert_eq!(more, vec!["first".to_string(), expected]);
}

#[test]
fn blank_documents_give_nothing() {
    let config = config();
    let files = Files::new(&[("/1", " ")]);
    let manager = AgentsMdManager::new(&config);
    let (docs, _) = files.read(manager.read_agents_md(vec!["/1".to_string()]));
    assert_eq!(docs, Ok(None));
    assert_eq!(manager.user_instructions(None, LoadedAgentsMd::default()), None);
}

#[test]
fn guidance_on_nested_documents_comes_last() {
    let mut config = config();
    config.child_agents_message = Some("look below".to_string());
    let manager = AgentsMdManager::new(&config);
    let only = manager.finish_instructions(LoadedAgentsMd::default()).expect("guidance");
    assert_eq!(only.text(), "look below");
    let loaded = LoadedAgentsMd::from_text_for_testing("first");
    let both = manager.user_instructions(None, loaded).expect("instructions");
    assert_eq!(both.text(), "first\n\nlook below");
}
