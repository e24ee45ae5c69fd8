use codex_kernel::global_instructions::{
    CandidateRead, CodexHomeInstructionsContributor, GlobalInstruction, GlobalInstructions,
    GlobalInstructionsLoad,
};

fn data(text: &str) -> CandidateRead {
    CandidateRead::Data(text.as_bytes().to_vec())
}

/// Loads from `/h` where the override and the standard file read like this.
fn load(local: CandidateRead, standard: CandidateRead) -> GlobalInstructionsLoad {
    let mut load = CodexHomeInstructionsContributor::new("/h".to_string()).load();
    while let Some(place) = load.question() {
        assert_eq!(place.directory, "/h");
        let path = format!("/h/{}", place.name);
        let answer = if place.name == "AGENTS.override.md" {
            local.clone()
        } else {
            standard.clone()
        };
        load.answer(&path, answer);
    }
    load
}

fn found(contents: &str, path: &str) -> GlobalInstructions {
    GlobalInstructions {
        instructions: vec![GlobalInstruction::new(contents, Some(path.to_string()))],
        warnings: Vec::new(),
    }
}

#[test]
fn loads_override_before_default() {
    let actual = load(data("override"), data("default")).finish().expect("load");
    assert_eq!(actual, found("override", "/h/AGENTS.override.md"));
}

#[test]
fn falls_back_from_empty_override_to_default() {
    let actual = load(data(" \n"), data("default")).finish().expect("load");
    assert_eq!(actual, found("default", "/h/AGENTS.md"));
}

#[test]
fn falls_back_from_directory_override_to_default() {
    let actual = load(CandidateRead::IsADirectory, data("default")).finish().expect("load");
    assert_eq!(
        actual.instructions,
        vec![GlobalInstruction::new("default", Some("/h/AGENTS.md".to_string()))]
    );
}

#[test]
fn whitespace_only_files_return_empty_instructions() {
    let actual = load(data(" \n"), data("\t")).finish().expect("load");
    assert_eq!(actual, GlobalInstructions::default());
}

#[test]
fn loads_default_without_an_execution_environment() {
    let actual = load(CandidateRead::NotFound, data("default")).finish().expect("load");
    assert_eq!(
        actual.instructions,
        vec![GlobalInstruction::new("default", Some("/h/AGENTS.md".to_string()))]
    );
}

#[test]
fn missing_files_return_empty_instructions() {
    let actual = load(CandidateRead::NotFound, CandidateRead::NotFound).finish().expect("load");
    assert_eq!(actual, Default::default());
}

#[test]
fn invalid_utf8_is_lossy_and_warns() {
    let bytes = vec![
        b'g', b'l', b'o', b'b', b'a', b'l', 0xff, b' ', b'd', b'o', b'c',
    ];
    let utf8_error = String::from_utf8(bytes.clone())
        .expect_err("fixture should be invalid UTF-8")
        .utf8_error();

    let actual = load(CandidateRead::NotFound, CandidateRead::Data(bytes)).finish().expect("load");

    assert_eq!(
        actual,
        GlobalInstructions {
            instructions: vec![GlobalInstruction::new(
                "global\u{fffd} doc",
                Some("/h/AGENTS.md".to_string()),
            )],
            warnings: vec![format!(
                "Global AGENTS.md instructions from `/h/AGENTS.md` contain invalid UTF-8: {utf8_error}. Invalid byte sequences were replaced.",
            )],
        }
    );
}

#[test]
fn unreadable_candidates_fail_instead_of_deleting_the_previous_snapshot() {
    let error = load(CandidateRead::Failed("loop".to_string()), CandidateRead::NotFound)
        .finish()
        .expect_err("unreadable candidate should fail");
    assert!(error.contains("Failed to read global AGENTS.md instructions"));
    assert!(error.contains("/h/AGENTS.override.md"));
    let both = load(
        CandidateRead::Failed("a".to_string()),
        CandidateRead::Failed("b".to_string()),
    )
    .finish();
    assert_eq!(
        both,
        Err(
            "Failed to read global AGENTS.md instructions from `/h/AGENTS.override.md`: a; Failed to read global AGENTS.md instructions from `/h/AGENTS.md`: b"
                .to_string()
        )
    );
}

#[test]
fn an_unreadable_override_only_warns_where_the_default_is_there() {
    let actual = load(CandidateRead::Failed("a".to_string()), data(" default "))
        .finish()
        .expect("load");
    assert_eq!(actual.instructions[0].contents, "default");
    assert_eq!(
        actual.warnings,
        vec!["Failed to read global AGENTS.md instructions from `/h/AGENTS.override.md`: a"]
    );
}

#[test]
fn sessions_start_with_the_global_instructions() {
    let (loaded, warnings) = load(data("override"), data("default")).load_global_instructions();
    let loaded = loaded.expect("instructions");
    assert_eq!(loaded.text(), "override");
    assert_eq!(loaded.sources(), vec!["/h/AGENTS.override.md"]);
    assert!(warnings.is_empty());
    let (loaded, warnings) =
        load(CandidateRead::NotFound, CandidateRead::Failed("x".to_string()))
            .load_global_instructions();
    assert_eq!(loaded, None);
    assert_eq!(warnings.len(), 1);
}
