use codex_kernel::environment_path::{EnvironmentPath, EnvironmentPathError, PathFlavor};

fn spelled(path: Result<EnvironmentPath, EnvironmentPathError>) -> Result<String, EnvironmentPathError> {
    path.map(|p| p.as_str().to_string())
}

#[test]
fn normalized_paths_collapse_separators_and_dot_segments() {
    for (input, expected) in [
        ("/", "/"),
        ("///", "/"),
        ("/workspace//src///lib.rs", "/workspace/src/lib.rs"),
        ("/workspace/./src/../lib.rs", "/workspace/lib.rs"),
        ("/../../workspace", "/workspace"),
        ("/workspace/../../../src", "/src"),
        ("/C:/Users/../Alice", "/c:/Alice"),
        ("/c:/../../Windows", "/c:/Windows"),
        ("//server/share/src/..", "//server/share"),
        (
            "//server/share/../../outside/file.rs",
            "//server/share/outside/file.rs",
        ),
    ] {
        assert_eq!(
            spelled(EnvironmentPath::new(input)),
            Ok(expected.to_string()),
            "normalizing {input}"
        );
    }
}

#[test]
fn normalization_is_idempotent() {
    for input in [
        "/",
        "/workspace/src",
        "/c:/Users/Alice",
        "//server/share/src",
    ] {
        let path = EnvironmentPath::new(input).expect("valid path");
        assert_eq!(EnvironmentPath::new(path.as_str()), Ok(path));
    }
}

#[test]
fn drive_letters_are_lower_case_wherever_dot_segments_stood() {
    for (input, expected) in [
        ("/./C:/foo", "/c:/foo"),
        ("/C:", "/c:"),
        ("/x/../D:/", "/d:/"),
        ("///E:/x", "/e:/x"),
        ("//C:/share/D:", "//C:/share/D:"),
    ] {
        let path = EnvironmentPath::new(input).expect("valid path");
        assert_eq!(path.as_str(), expected, "normalizing {input}");
        assert_eq!(EnvironmentPath::new(path.as_str()), Ok(path));
    }
}

#[test]
fn windows_roots_have_two_separators() {
    for input in [r"\\\server\share", "///server/share", r"//\server\share", r"\\/server/share"] {
        assert_eq!(
            EnvironmentPath::windows(input),
            Err(EnvironmentPathError::InvalidWindowsUncPath(input.to_string()))
        );
    }
}

#[test]
fn posix_paths_preserve_backslashes_and_unicode_as_filename_characters() {
    assert_eq!(
        spelled(EnvironmentPath::posix("/workspace/a\\b/日本語.rs")),
        Ok("/workspace/a\\b/日本語.rs".to_string())
    );
}

#[test]
fn posix_paths_do_not_infer_windows_roots() {
    assert_eq!(
        spelled(EnvironmentPath::posix("/C:/../x")),
        Ok("/x".to_string())
    );
    let path = EnvironmentPath::posix("/srv/./app").expect("valid path");
    assert_eq!(path.to_native_path(PathFlavor::Posix), Ok("/srv/app".to_string()));
    assert_eq!(EnvironmentPath::posix(path.as_str()), Ok(path));
}

#[test]
fn windows_drive_paths_normalize_on_every_host() {
    for (input, expected) in [
        (r"C:\Users\Alice\src", "/c:/Users/Alice/src"),
        ("D:/work/src", "/d:/work/src"),
        (r"E:\work\\src\.\lib\..\main.rs", "/e:/work/src/main.rs"),
        (r"z:\..\..\Windows", "/z:/Windows"),
        (r"C:\", "/c:/"),
    ] {
        assert_eq!(
            spelled(EnvironmentPath::windows(input)),
            Ok(expected.to_string()),
            "normalizing {input}"
        );
    }
}

#[test]
fn windows_unc_paths_normalize_on_every_host() {
    for (input, expected) in [
        (r"\\server\share", "//server/share"),
        (r"\\server\share\src\main.rs", "//server/share/src/main.rs"),
        ("//server/share/src/../tests", "//server/share/tests"),
        (r"\\server\\share\..\..\outside", "//server/share/outside"),
    ] {
        assert_eq!(
            spelled(EnvironmentPath::windows(input)),
            Ok(expected.to_string()),
            "normalizing {input}"
        );
    }
}

#[test]
fn native_conversion_needs_a_fully_qualified_path() {
    for (path, posix, windows) in [
        ("/c:/Users/Alice", "/c:/Users/Alice", r"c:\Users\Alice"),
        (
            "//server/share/src",
            "//server/share/src",
            r"\\server\share\src",
        ),
    ] {
        let path = EnvironmentPath::new(path).expect("valid canonical path");
        assert_eq!(path.to_native_path(PathFlavor::Posix), Ok(posix.to_string()));
        assert_eq!(path.to_native_path(PathFlavor::Windows), Ok(windows.to_string()));
    }
    let path = EnvironmentPath::new("/workspace/src").expect("valid canonical path");
    assert_eq!(path.to_native_path(PathFlavor::Posix), Ok("/workspace/src".to_string()));
    let error = path.to_native_path(PathFlavor::Windows).expect_err("not fully qualified");
    assert_eq!(
        error,
        EnvironmentPathError::IncompatiblePathFlavor {
            path: "/workspace/src".to_string(),
            flavor: PathFlavor::Windows,
        }
    );
    assert_eq!(
        error.message(),
        "path `/workspace/src` cannot be represented using Windows path syntax"
    );
    let device = EnvironmentPath::posix(r"/\?/C:/src").expect("a POSIX file name");
    assert_eq!(
        device.to_native_path(PathFlavor::Windows),
        Err(EnvironmentPathError::UnsupportedWindowsNamespace(
            r"/\?/C:/src".to_string()
        ))
    );
}

#[test]
fn native_windows_paths_are_never_relative_to_a_root() {
    for stored in [r"/\\x/y", r"/\/x/y", "/workspace", "/c:", "/"] {
        let path = EnvironmentPath::new(stored).expect("valid path");
        assert_eq!(
            path.to_native_path(PathFlavor::Windows),
            Err(EnvironmentPathError::IncompatiblePathFlavor {
                path: path.as_str().to_string(),
                flavor: PathFlavor::Windows,
            })
        );
    }
    for (stored, native) in [
        (r"/\server/share", r"\\server\share"),
        (r"/\\C:/x", r"c:\x"),
        (r"/C:/a\..\b", r"c:\b"),
    ] {
        let path = EnvironmentPath::posix(stored).expect("valid path");
        assert_eq!(path.to_native_path(PathFlavor::Windows), Ok(native.to_string()));
    }
}

#[test]
fn windows_paths_survive_native_conversion() {
    for input in [r"C:\Users\Alice", r"\\server\share\src", r"d:\"] {
        let path = EnvironmentPath::windows(input).expect("valid Windows path");
        let native = path.to_native_path(PathFlavor::Windows).expect("fully qualified");
        assert_eq!(EnvironmentPath::windows(&native), Ok(path));
    }
}

#[test]
fn constructors_reject_empty_relative_and_null_paths() {
    for input in ["", "workspace/src", "C:relative", r"\rooted", "src\0file"] {
        assert!(
            EnvironmentPath::posix(input).is_err(),
            "accepting {input:?}"
        );
    }

    assert_eq!(
        EnvironmentPath::windows(""),
        Err(EnvironmentPathError::Empty)
    );
    assert_eq!(
        EnvironmentPath::windows("src\0file"),
        Err(EnvironmentPathError::ContainsNull)
    );
    for input in ["workspace/src", "C:relative", r"\rooted"] {
        assert_eq!(
            EnvironmentPath::windows(input),
            Err(EnvironmentPathError::NotAbsolute(input.to_string()))
        );
    }
}

#[test]
fn canonical_and_windows_constructors_reject_incomplete_unc_paths() {
    for input in ["//", "//server", "//server/"] {
        assert_eq!(
            EnvironmentPath::new(input),
            Err(EnvironmentPathError::InvalidWindowsUncPath(
                input.to_string()
            ))
        );
    }
    for input in [r"\\", r"\\server", r"\\server\"] {
        assert_eq!(
            EnvironmentPath::windows(input),
            Err(EnvironmentPathError::InvalidWindowsUncPath(
                input.to_string()
            ))
        );
    }
}

#[test]
fn windows_constructor_rejects_device_and_verbatim_namespaces() {
    for input in [
        r"\\?\C:\src",
        r"\\.\C:\src",
        r"\\?\UNC\server\share",
        r"\\.\PhysicalDrive0",
    ] {
        assert_eq!(
            EnvironmentPath::windows(input),
            Err(EnvironmentPathError::UnsupportedWindowsNamespace(
                input.to_string()
            ))
        );
    }
}

#[test]
fn basename_handles_posix_drive_and_unc_roots() {
    for input in ["/", "/c:/", "//server/share"] {
        let path = EnvironmentPath::new(input).expect("valid root");
        assert_eq!(path.basename(), None, "basename for {input}");
    }
    for (input, expected) in [
        ("/workspace/src/lib.rs", "lib.rs"),
        ("/c:/Users/Alice", "Alice"),
        ("//server/share/src", "src"),
        ("/日本語/ファイル.rs", "ファイル.rs"),
    ] {
        let path = EnvironmentPath::new(input).expect("valid path");
        assert_eq!(path.basename(), Some(expected), "basename for {input}");
    }
}

#[test]
fn parent_stops_at_each_kind_of_root() {
    for (input, expected) in [
        ("/workspace/src/lib.rs", Some("/workspace/src")),
        ("/workspace", Some("/")),
        ("/", None),
        ("/c:/Users/Alice", Some("/c:/Users")),
        ("/c:/Users", Some("/c:/")),
        ("/c:/", None),
        ("//server/share/src", Some("//server/share")),
        ("//server/share", None),
    ] {
        let path = EnvironmentPath::new(input).expect("valid path");
        assert_eq!(
            path.parent().map(|p| p.as_str().to_string()),
            expected.map(str::to_string),
            "parent for {input}"
        );
    }
}

#[test]
fn joining_the_basename_to_the_parent_gives_the_path() {
    for input in ["/workspace/src/lib.rs", "/c:/Users", "//server/share/src"] {
        let path = EnvironmentPath::new(input).expect("valid path");
        let parent = path.parent().expect("not a root");
        let name = path.basename().expect("not a root");
        assert_eq!(parent.join(name), Ok(path.clone()));
    }
}

#[test]
fn join_normalizes_relative_segments_without_escaping_the_root() {
    for (base, relative, expected) in [
        (
            "/workspace/src",
            "../tests/test.rs",
            "/workspace/tests/test.rs",
        ),
        ("/", "../../etc", "/etc"),
        ("/c:/Users", "../../Windows", "/c:/Windows"),
        (
            "//server/share/src",
            "../../../outside",
            "//server/share/outside",
        ),
        ("/workspace", "", "/workspace"),
    ] {
        let base = EnvironmentPath::new(base).expect("valid base");
        assert_eq!(
            spelled(base.join(relative)),
            Ok(expected.to_string()),
            "joining {relative}"
        );
    }
}

#[test]
fn joining_twice_is_joining_once() {
    for base in ["/", "/c:", "/c:/", "/workspace/src", "//server/share/x"] {
        let a = EnvironmentPath::new(base).expect("valid base");
        for (b, c) in [("x", "y/z"), ("..", "a"), ("../..", "../b/."), ("x/y", "../../.."), ("q/", "r")] {
            let twice = a.join(b).expect("first join").join(c);
            assert!(twice.is_ok());
            assert_eq!(twice, a.join(&format!("{b}/{c}")), "joining {b} and {c} onto {base}");
        }
    }
}

#[test]
fn join_rejects_absolute_and_null_paths() {
    let base = EnvironmentPath::new("/workspace").expect("valid base");
    assert_eq!(
        base.join("/src"),
        Err(EnvironmentPathError::JoinPathMustBeRelative(
            "/src".to_string()
        ))
    );
    assert_eq!(
        base.join("src\0file"),
        Err(EnvironmentPathError::ContainsNull)
    );
}

#[test]
fn path_errors_say_what_went_wrong() {
    let null = EnvironmentPath::posix("/a\0b").expect_err("null");
    assert_eq!(null.message(), "environment path cannot contain a null character");
    let relative = EnvironmentPath::posix("a").expect_err("relative");
    assert_eq!(relative.message(), "environment path `a` must be absolute");
    assert_eq!(EnvironmentPathError::Empty.message(), "environment path cannot be empty");
    let device = EnvironmentPath::windows(r"\\.\x").expect_err("device");
    assert_eq!(
        device.message(),
        r"path `\\.\x` uses an unsupported Windows device or verbatim namespace"
    );
    let unc = EnvironmentPath::new("//server").expect_err("no share");
    assert_eq!(unc.message(), "Windows UNC path `//server` must contain a server and share");
    let base = EnvironmentPath::new("/w").expect("valid base");
    let absolute = base.join("/src").expect_err("absolute");
    assert_eq!(
        absolute.message(),
        "path `/src` must be relative when joining an environment path"
    );
}
