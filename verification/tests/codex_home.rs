use codex_kernel::codex_home::{
    canonicalize_error, check_codex_home, codex_home_under, env_var_truthy,
    find_codex_home_from_env_and_context,
    is_wsl_runtime, looks_like_windows_path_in_wsl, non_empty_value,
    path_looks_like_windows_path_in_wsl, runtime_cache_home_for_codex_home_from_context,
    sanitize_namespace_component, HomeErrorKind, HomeMetadata, HomeSearch,
    DEFAULT_CODEX_HOME_NAME,
};
use codex_kernel::environment_path::PathFlavor;
use tempfile::{NamedTempFile, TempDir};

fn metadata(path: &str) -> HomeMetadata {
    match std::path::Path::new(path).metadata() {
        Ok(found) if found.is_dir() => HomeMetadata::Directory,
        Ok(_) => HomeMetadata::NotADirectory,
        Err(err) if err.kind() == std::io::ErrorKind::NotFound => HomeMetadata::NotFound,
        Err(err) => HomeMetadata::Failed(err.to_string()),
    }
}

fn checked(search: HomeSearch) -> String {
    match search {
        HomeSearch::Check(path) => path,
        other => panic!("expected a configured home: {other:?}"),
    }
}

fn found(search: HomeSearch) -> String {
    match search {
        HomeSearch::Found(path) => path,
        other => panic!("expected a home to use: {other:?}"),
    }
}

#[test]
fn find_codex_home_env_missing_path_is_fatal() {
    let temp_home = TempDir::new().expect("temp home");
    let missing = temp_home.path().join("missing-codex-home");
    let missing_str = missing
        .to_str()
        .expect("missing codex home path should be valid utf-8");

    let path = checked(find_codex_home_from_env_and_context(Some(missing_str), false, false, None, PathFlavor::Posix));
    let err = check_codex_home(&path, &metadata(&path)).expect_err("missing CODEX_HOME");
    assert_eq!(err.kind, HomeErrorKind::NotFound);
    assert!(
        err.message.contains("CODEX_HOME"),
        "unexpected error: {}",
        err.message
    );
    assert_eq!(
        err.message,
        format!("CODEX_HOME points to {missing_str:?}, but that path does not exist")
    );
}

#[test]
fn find_codex_home_env_file_path_is_fatal() {
    let file = NamedTempFile::new().expect("temp file");
    let file_str = file.path().to_str().expect("valid utf-8");

    let path = checked(find_codex_home_from_env_and_context(Some(file_str), false, false, None, PathFlavor::Posix));
    let err = check_codex_home(&path, &metadata(&path)).expect_err("file CODEX_HOME");
    assert_eq!(err.kind, HomeErrorKind::InvalidInput);
    assert!(
        err.message.contains("not a directory"),
        "unexpected error: {}",
        err.message
    );
}

#[test]
fn find_codex_home_env_valid_directory_canonicalizes() {
    let temp_home = TempDir::new().expect("temp home");
    let temp_str = temp_home
        .path()
        .to_str()
        .expect("temp codex home path should be valid utf-8");

    let path = checked(find_codex_home_from_env_and_context(Some(temp_str), false, false, None, PathFlavor::Posix));
    assert_eq!(check_codex_home(&path, &metadata(&path)), Ok(()));
    let resolved = std::path::Path::new(&path).canonicalize().expect("valid CODEX_HOME");
    let expected = temp_home
        .path()
        .canonicalize()
        .expect("canonicalize temp home");
    assert_eq!(resolved, expected);
}

#[test]
fn other_failures_keep_their_kind() {
    let err = check_codex_home("/a\"b", &HomeMetadata::Failed("denied".to_string()))
        .expect_err("unreadable");
    assert_eq!(err.kind, HomeErrorKind::SameAsCause);
    assert_eq!(err.message, "failed to read CODEX_HOME \"/a\\\"b\": denied");
    let err = canonicalize_error("/a", "gone");
    assert_eq!(err.kind, HomeErrorKind::SameAsCause);
    assert_eq!(err.message, "failed to canonicalize CODEX_HOME \"/a\": gone");
}

#[test]
fn find_codex_home_without_env_uses_default_home_dir() {
    let home = dirs::home_dir().expect("home dir");
    let resolved = found(find_codex_home_from_env_and_context(
        /*codex_home_env*/ None,
        false,
        false,
        home.to_str(),
        PathFlavor::Posix,
    ));
    let mut expected = home.clone();
    expected.push(".codex");
    assert_eq!(Some(resolved.as_str()), expected.to_str());

    assert_eq!(
        find_codex_home_from_env_and_context(None, false, false, Some("/home/alice"), PathFlavor::Posix),
        HomeSearch::Found("/home/alice/.codex".to_string())
    );
    assert_eq!(codex_home_under("/home/alice", PathFlavor::Posix), "/home/alice/.codex");
    assert_eq!(codex_home_under("/", PathFlavor::Posix), "/.codex");
    assert_eq!(DEFAULT_CODEX_HOME_NAME, ".codex");
    match find_codex_home_from_env_and_context(None, false, false, None, PathFlavor::Posix) {
        HomeSearch::Failed(err) => {
            assert_eq!(err.kind, HomeErrorKind::NotFound);
            assert_eq!(err.message, "Could not find home directory");
        }
        other => panic!("expected a failure: {other:?}"),
    }
}

#[test]
fn windows_homes_are_joined_with_backslashes() {
    for (home, expected) in [
        (r"C:\Users\a", r"C:\Users\a\.codex"),
        (r"C:\", r"C:\.codex"),
        ("C:/Users/a/", "C:/Users/a/.codex"),
        ("C:", "C:.codex"),
        (r"\\server\share", r"\\server\share\.codex"),
        ("", ".codex"),
    ] {
        assert_eq!(codex_home_under(home, PathFlavor::Windows), expected);
        assert_eq!(
            find_codex_home_from_env_and_context(
                None,
                false,
                false,
                Some(home),
                PathFlavor::Windows,
            ),
            HomeSearch::Found(expected.to_string())
        );
    }
    assert_eq!(
        runtime_cache_home_for_codex_home_from_context(
            r"D:\x",
            true,
            Some(r"C:\Users\a"),
            Some("u"),
            PathFlavor::Windows,
        ),
        r"C:\Users\a\.codex/runtime/wsl\u"
    );
}

#[test]
fn desktop_wsl_keeps_windows_mount_codex_home_without_native_home_opt_in() {
    let native_home = TempDir::new().expect("native home");
    let codex_home = TempDir::new().expect("codex home");
    let codex_home_str = codex_home
        .path()
        .to_str()
        .expect("codex home path should be valid utf-8");

    let path = checked(find_codex_home_from_env_and_context(
        Some(codex_home_str),
        /*is_wsl*/ true,
        /*use_native_wsl_codex_home*/ false,
        native_home.path().to_str(),
        PathFlavor::Posix,
    ));
    assert_eq!(check_codex_home(&path, &metadata(&path)), Ok(()));
    assert_eq!(
        std::path::Path::new(&path).canonicalize().expect("existing codex home"),
        codex_home.path().canonicalize().expect("existing codex home")
    );
    for home in ["/mnt/c/Users/alice/.codex", r"C:\Users\alice\.codex"] {
        assert_eq!(
            find_codex_home_from_env_and_context(Some(home), true, false, Some("/home/alice"), PathFlavor::Posix),
            HomeSearch::Check(home.to_string())
        );
    }
}

#[test]
fn desktop_wsl_uses_native_home_when_explicitly_opted_in() {
    let native_home = TempDir::new().expect("native home");

    let resolved = found(find_codex_home_from_env_and_context(
        Some("/mnt/c/Users/alice/.codex"),
        /*is_wsl*/ true,
        /*use_native_wsl_codex_home*/ true,
        native_home.path().to_str(),
        PathFlavor::Posix,
    ));

    assert_eq!(Some(resolved.as_str()), native_home.path().join(".codex").to_str());
    assert_eq!(
        find_codex_home_from_env_and_context(
            Some("/mnt/c/Users/alice/.codex"),
            true,
            true,
            Some("/home/alice"),
            PathFlavor::Posix,
        ),
        HomeSearch::Found("/home/alice/.codex".to_string())
    );
}

#[test]
fn wsl_native_home_opt_in_does_not_require_originator_override() {
    let native_home = TempDir::new().expect("native home");

    let resolved = found(find_codex_home_from_env_and_context(
        Some("/mnt/c/Users/alice/.codex"),
        /*is_wsl*/ true,
        /*use_native_wsl_codex_home*/ true,
        native_home.path().to_str(),
        PathFlavor::Posix,
    ));

    assert_eq!(Some(resolved.as_str()), native_home.path().join(".codex").to_str());
}

#[test]
fn wsl_honors_explicit_windows_mount_codex_home_without_native_home_opt_in() {
    let native_home = TempDir::new().expect("native home");
    let codex_home = TempDir::new().expect("codex home");
    let codex_home_str = codex_home
        .path()
        .to_str()
        .expect("codex home path should be valid utf-8");
    let path = checked(find_codex_home_from_env_and_context(
        Some(codex_home_str),
        /*is_wsl*/ true,
        /*use_native_wsl_codex_home*/ false,
        native_home.path().to_str(),
        PathFlavor::Posix,
    ));
    assert_eq!(path, codex_home_str);
    assert_eq!(check_codex_home(&path, &metadata(&path)), Ok(()));
}

#[test]
fn native_opt_in_keeps_native_homes() {
    assert_eq!(
        find_codex_home_from_env_and_context(Some("/home/a/.codex"), true, true, Some("/home/b"), PathFlavor::Posix),
        HomeSearch::Check("/home/a/.codex".to_string())
    );
}

#[test]
fn runtime_cache_home_moves_windows_backed_wsl_codex_home_to_native_home() {
    let native_home = TempDir::new().expect("native home");
    let resolved = runtime_cache_home_for_codex_home_from_context(
        "/mnt/c/Users/alice/.codex",
        /*is_wsl*/ true,
        native_home.path().to_str(),
        Some("Ubuntu 24.04"),
        PathFlavor::Posix,
    );

    assert_eq!(
        Some(resolved.as_str()),
        native_home
            .path()
            .join(".codex/runtime/wsl/Ubuntu-24.04")
            .to_str()
    );
}

#[test]
fn runtime_cache_home_keeps_non_windows_backed_codex_home() {
    let native_home = TempDir::new().expect("native home");
    let resolved = runtime_cache_home_for_codex_home_from_context(
        "/home/alice/.codex",
        /*is_wsl*/ true,
        native_home.path().to_str(),
        Some("Ubuntu"),
        PathFlavor::Posix,
    );

    assert_eq!(resolved, "/home/alice/.codex");
}

#[test]
fn caches_stay_where_there_is_no_native_home() {
    let home = "/mnt/c/Users/alice/.codex";
    assert_eq!(runtime_cache_home_for_codex_home_from_context(home, true, None, None, PathFlavor::Posix), home);
    assert_eq!(
        runtime_cache_home_for_codex_home_from_context(home, false, Some("/home/a"), None, PathFlavor::Posix),
        home
    );
    assert_eq!(
        runtime_cache_home_for_codex_home_from_context(home, true, Some("/home/a/"), None, PathFlavor::Posix),
        "/home/a/.codex/runtime/wsl/default"
    );
}

#[test]
fn namespaces_are_safe_components() {
    for (input, expected) in [
        ("Ubuntu 24.04", "Ubuntu-24.04"),
        ("../../etc", "..-..-etc"),
        ("--x--", "x"),
        ("", "default"),
        ("日本", "default"),
        ("a_b.c-d", "a_b.c-d"),
    ] {
        assert_eq!(sanitize_namespace_component(input), expected);
        assert_eq!(sanitize_namespace_component(expected), expected);
    }
}

#[test]
fn windows_paths_are_recognized_under_wsl() {
    for path in [r"C:\x", "c:/x", "/mnt/c", "/MNT/C/Users", r"\mnt\d\x", "mnt//e"] {
        assert!(looks_like_windows_path_in_wsl(path), "{path}");
        assert!(path_looks_like_windows_path_in_wsl(Some(path)));
    }
    for path in ["", "C:", "C:x", "/mnt", "/mnt/cd", "/mnt/1", "/home/mnt/c", "é:/x"] {
        assert!(!looks_like_windows_path_in_wsl(path), "{path}");
    }
    assert!(!path_looks_like_windows_path_in_wsl(None));
}

#[test]
fn variables_are_switched_on_by_five_values() {
    for value in ["1", "true", "TRUE", "yes", "on"] {
        assert!(env_var_truthy(Some(value)));
    }
    for value in ["", "0", "True", "YES", "On", "2"] {
        assert!(!env_var_truthy(Some(value)));
    }
    assert!(!env_var_truthy(None));
    assert_eq!(non_empty_value(Some(String::new())), None);
    assert_eq!(non_empty_value(None), None);
    assert_eq!(non_empty_value(Some("x".to_string())), Some("x".to_string()));
}

#[test]
fn wsl_is_recognized_by_its_kernel() {
    assert!(is_wsl_runtime(true, None));
    assert!(is_wsl_runtime(false, Some("Linux version 5.15 MICROSOFT-standard-WSL2")));
    assert!(!is_wsl_runtime(false, Some("Linux version 6.1 Debian")));
    assert!(!is_wsl_runtime(false, None));
}
