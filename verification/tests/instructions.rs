use codex_kernel::instructions::{
    truncate_instruction_contents, InstructionProvenance, InstructionSnapshot, LoadedAgentsMd,
    SnapshotProvenance, UserInstructionsSnapshot,
};

const BUDGET: usize = 32_000;
const MARKER: &str = "\n[instructions truncated]";

fn project(path: &str) -> InstructionProvenance {
    InstructionProvenance::Project(Some(path.to_string()))
}

fn sources(loaded: &LoadedAgentsMd) -> Vec<String> {
    loaded.sources().into_iter().cloned().collect()
}

#[test]
fn global_instructions_precede_project_instructions() {
    let mut loaded =
        LoadedAgentsMd::new_user("global instructions".to_string(), "/home/AGENTS.md".to_string());
    loaded.push("project instructions".to_string(), project("/w/AGENTS.md"));
    loaded.push("nested instructions".to_string(), project("/w/a/AGENTS.md"));
    loaded.push("internal guidance".to_string(), InstructionProvenance::Internal);
    assert_eq!(
        loaded.text(),
        "global instructions\n\n--- project-doc ---\n\nproject instructions\n\nnested instructions\n\ninternal guidance"
    );
    assert_eq!(sources(&loaded), vec!["/home/AGENTS.md", "/w/AGENTS.md", "/w/a/AGENTS.md"]);
}

#[test]
fn blank_texts_give_no_instructions() {
    let blank = LoadedAgentsMd::new_user(" \n\t".to_string(), "/home/AGENTS.md".to_string());
    assert_eq!(blank, LoadedAgentsMd::default());
    assert!(blank.is_empty());
    assert_eq!(LoadedAgentsMd::from_text_for_testing(" "), LoadedAgentsMd::default());
    let text = LoadedAgentsMd::from_text_for_testing("x");
    assert!(!text.is_empty());
    assert_eq!(text.text(), "x");
    assert!(sources(&text).is_empty());
}

#[test]
fn truncation_marks_what_it_cuts() {
    assert_eq!(truncate_instruction_contents("short", 5), "short");
    assert_eq!(truncate_instruction_contents("longer", 5), &MARKER[..5]);
    assert_eq!(truncate_instruction_contents("longer", 0), "");
    let long = "x".repeat(100);
    let cut = truncate_instruction_contents(&long, 40);
    assert_eq!(cut, format!("{}{MARKER}", "x".repeat(40 - MARKER.len())));
    let wide = "語".repeat(100);
    let cut = truncate_instruction_contents(&wide, MARKER.len() + 8);
    assert_eq!(cut, format!("語語{MARKER}"));
}

#[test]
fn instructions_stay_within_their_budget() {
    let loaded = LoadedAgentsMd::new_user("x".repeat(BUDGET + 1), "/h".to_string());
    assert_eq!(loaded.text().len(), BUDGET);
    assert!(loaded.text().ends_with(MARKER));

    let fitting = LoadedAgentsMd::new_user("x".repeat(BUDGET), "/h".to_string());
    assert_eq!(fitting.text(), "x".repeat(BUDGET));

    let mut several = LoadedAgentsMd::default();
    several.push("a".repeat(BUDGET - 100), InstructionProvenance::Global(None));
    several.push("b".repeat(200), project("/w"));
    several.push("c".to_string(), project("/v"));
    several.enforce_model_context_limit();
    assert_eq!(several.text().len(), BUDGET);
    assert!(several.text().ends_with(MARKER));
    assert_eq!(sources(&several), vec!["/w"]);
    let again = several.clone();
    several.enforce_model_context_limit();
    assert_eq!(several, again);
}

#[test]
fn an_entry_without_room_for_its_separator_is_dropped() {
    let mut loaded = LoadedAgentsMd::default();
    loaded.push("a".repeat(BUDGET - 2), InstructionProvenance::Internal);
    loaded.push(String::new(), InstructionProvenance::Internal);
    let whole = loaded.clone();
    loaded.enforce_model_context_limit();
    assert_ne!(loaded, whole);
    assert_eq!(loaded.text().len(), BUDGET - 2);
}

#[test]
fn snapshots_bring_instructions_back() {
    let mut loaded = LoadedAgentsMd::new_user("global".to_string(), "/h/AGENTS.md".to_string());
    loaded.push("project".to_string(), project("/w/AGENTS.md"));
    loaded.push("internal".to_string(), InstructionProvenance::Internal);
    let snapshot = loaded.snapshot();
    assert_eq!(
        snapshot.instructions[0],
        InstructionSnapshot {
            contents: "global".to_string(),
            provenance: SnapshotProvenance::Global,
            source: Some("/h/AGENTS.md".to_string()),
        }
    );
    assert_eq!(snapshot.instructions[2].source, None);
    assert_eq!(LoadedAgentsMd::from_snapshot(&snapshot), loaded);
}

#[test]
fn restoring_bounds_what_was_saved() {
    let snapshot = UserInstructionsSnapshot {
        instructions: vec![InstructionSnapshot {
            contents: "y".repeat(BUDGET * 2),
            provenance: SnapshotProvenance::Project,
            source: None,
        }],
    };
    assert_eq!(LoadedAgentsMd::from_snapshot(&snapshot).text().len(), BUDGET);
}

#[test]
fn refreshing_replaces_global_instructions_only() {
    let mut loaded =
        LoadedAgentsMd::new_user("old global instructions".to_string(), "/h".to_string());
    loaded.push("legacy project instructions".to_string(), project("/w"));
    let fresh = LoadedAgentsMd::new_user("new global instructions".to_string(), "/n".to_string());
    loaded.replace_global(fresh.clone());
    assert_eq!(
        loaded.text(),
        "new global instructions\n\n--- project-doc ---\n\nlegacy project instructions"
    );
    loaded.replace_global(LoadedAgentsMd::default());
    assert_eq!(loaded.text(), "legacy project instructions");
    loaded.replace_global(fresh);
    assert_eq!(sources(&loaded), vec!["/n", "/w"]);
}
