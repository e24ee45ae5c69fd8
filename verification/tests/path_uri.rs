use codex_kernel::environment_path::{EnvironmentPath, PathFlavor};
use codex_kernel::path_uri::{
    legacy_file_view, looks_like_uri, uri_scheme, EnvironmentId, EnvironmentIdError, FileUriView,
    PathUri, PathUriParseError, PathUriView, MAX_ENVIRONMENT_ID_LEN,
};
use codex_kernel::url_parts::UrlParts;

fn environment(uri: &PathUri) -> (String, String) {
    match uri.view() {
        PathUriView::Environment(view) => (
            view.environment_id().as_str().to_string(),
            view.path().as_str().to_string(),
        ),
        _ => panic!("expected environment view"),
    }
}

fn file_path(uri: &PathUri) -> String {
    match uri.view() {
        PathUriView::File(view) => view.path().as_str().to_string(),
        _ => panic!("expected file view"),
    }
}

fn file_view(uri: &PathUri) -> FileUriView {
    match uri.view() {
        PathUriView::File(view) => view,
        _ => panic!("expected file view"),
    }
}

fn native_path(uri: &str) -> Result<Vec<u8>, PathUriParseError> {
    file_view(&PathUri::parse(uri).expect("valid file URI")).to_native_path()
}

fn file_parts(path: &str, host: Option<&str>, text: &str) -> UrlParts {
    UrlParts {
        scheme: "file".to_string(),
        username: String::new(),
        password: None,
        host: host.map(str::to_string),
        port: None,
        path: path.to_string(),
        query: None,
        fragment: None,
        text: text.to_string(),
    }
}

#[test]
fn file_uri_round_trips_an_absolute_path() {
    let directory = tempfile::TempDir::new().expect("temp dir");
    let path = directory.path().join("a path/file.rs");
    let path = path.to_str().expect("valid utf-8");

    let uri = PathUri::from_file_path(path, PathFlavor::Posix)
        .expect("path should convert to a file URI");

    assert!(uri.as_str().starts_with("file:"));
    assert!(uri.as_str().ends_with("/a%20path/file.rs"));
    assert_eq!(
        PathUri::parse(uri.as_str()).expect("serialized URI should parse"),
        uri
    );
    match uri.view() {
        PathUriView::File(view) => {
            assert_eq!(view.path().as_str(), path);
            assert_eq!(
                view.path().to_native_path(PathFlavor::Posix),
                Ok(view.path().as_str().to_string())
            );
        }
        _ => panic!("expected file view"),
    }
}

#[test]
fn relative_paths_have_no_file_uri() {
    assert_eq!(
        PathUri::from_file_path("relative/file.rs", PathFlavor::Posix),
        Err(PathUriParseError::PathCannotBeRepresentedAsFileUri)
    );
}

#[test]
fn windows_hosts_normalize_drive_paths() {
    let native = file_parts("/C:/Users/Alice", None, "file:///C:/Users/Alice");
    let uri = PathUri::from_native_url(Some(native), r"C:\Users\100%\Alice", PathFlavor::Windows)
        .expect("drive path");
    assert_eq!(uri.as_str(), "file:///c:/Users/100%25/Alice");
    assert_eq!(file_path(&uri), "/c:/Users/100%/Alice");
    for (path, shown, text) in [
        (r"D:\", "/d:/", "file:///d:/"),
        (r"C:\a b\..\c#d?e", "/c:/c#d?e", "file:///c:/c%23d%3Fe"),
        (r"C:\%2e\{x}", "/c:/%2e/{x}", "file:///c:/%252e/%7Bx%7D"),
    ] {
        let native = file_parts("/C:/", None, "file:///C:/");
        let uri = PathUri::from_native_url(Some(native), path, PathFlavor::Windows)
            .expect("drive path");
        assert_eq!(uri.as_str(), text);
        assert_eq!(file_path(&uri), shown);
        assert_eq!(PathUri::parse(text), Ok(uri));
    }
}

#[test]
fn native_paths_keep_their_server() {
    let native = file_parts("/share/a%20b", Some("server"), "file://server/share/a%20b");
    let uri = PathUri::from_native_url(
        Some(native.clone()),
        r"\\server\share\a b",
        PathFlavor::Windows,
    )
    .expect("UNC path");
    assert_eq!(uri.as_str(), "file://server/share/a%20b");
    assert_eq!(file_path(&uri), "//server/share/a b");
    assert_eq!(PathUri::try_from(native), Ok(uri.clone()));
    assert_eq!(
        PathUri::parse(uri.as_str()),
        Err(PathUriParseError::FileUriMustReferenceCurrentHost)
    );
    // POSIX has no path on another host.
    assert_eq!(
        file_view(&uri).to_native_path(),
        Err(PathUriParseError::InvalidFileUriPath)
    );

    let without_share = file_parts("/", Some("server"), "file://server/");
    assert_eq!(
        PathUri::try_from(without_share),
        Err(PathUriParseError::InvalidFileUriPath)
    );
}

#[test]
fn parsed_environment_uris_are_spelled_out_anew() {
    for (input, text) in [
        ("CODEX-ENV:///%62ox/a/../b%20c", "codex-env:///box/b%20c"),
        ("codex-env:///box/C:/x\u{e9}", "codex-env:///box/c:/x%C3%A9"),
        (" codex-env:///a%2Fb/x//y", "codex-env:///a%2Fb/x/y"),
    ] {
        let uri = PathUri::parse(input).expect("valid environment URI");
        assert_eq!(uri.as_str(), text);
        assert_eq!(PathUri::parse(text), Ok(uri));
    }
}

#[test]
fn file_uri_spelling_stays_lexical() {
    let uri = PathUri::parse("file:///C:/Users/Alice%20Smith/src/main.rs")
        .expect("Windows file URI should parse on every host");
    assert_eq!(uri.scheme(), "file");
    assert_eq!(file_path(&uri), "/C:/Users/Alice Smith/src/main.rs");
    assert_eq!(uri.as_str(), "file:///C:/Users/Alice%20Smith/src/main.rs");
}

#[test]
fn file_uri_parses_a_posix_path_on_any_host() {
    let uri = PathUri::parse("file:///home/alice/src/main.rs")
        .expect("POSIX file URI should parse on every host");
    assert_eq!(file_path(&uri), "/home/alice/src/main.rs");
    assert_eq!(uri.as_str(), "file:///home/alice/src/main.rs");
}

#[test]
fn file_uri_spelling_aliases_have_one_canonical_form() {
    for input in [
        "FILE:///workspace/src",
        "file:/workspace/src",
        "file://localhost/workspace/src",
    ] {
        let uri = PathUri::parse(input).expect("file URI alias should parse");
        assert_eq!(uri.as_str(), "file:///workspace/src", "parsing {input}");
    }
}

#[test]
fn a_localhost_authority_is_dropped() {
    let parts = file_parts(
        "/workspace/src",
        Some("localhost"),
        "file://localhost/workspace/src",
    );
    let uri = PathUri::try_from(parts).expect("localhost is the current host");
    assert_eq!(uri.as_str(), "file:///workspace/src");
    assert_eq!(uri.to_url().host, None);
    assert_eq!(PathUri::parse("file:///workspace/src"), Ok(uri.clone()));
    assert_eq!(PathUri::parse("file://localhost/workspace/src"), Ok(uri));

    let unrelated = file_parts("/workspace/src", Some("localhost"), "foo://host?x");
    let uri = PathUri::try_from(unrelated).expect("the parts count");
    assert_eq!(uri.as_str(), "file:///workspace/src");
}

#[test]
fn posix_paths_survive_as_file_uris() {
    for (path, text) in [
        ("/", "file:///"),
        ("/home/alice", "file:///home/alice"),
        ("/a b/c%2Fd?e#f", "file:///a%20b/c%252Fd%3Fe%23f"),
        ("/back\\slash/tab\there", "file:///back%5Cslash/tab%09here"),
        ("/データ/c:/x", "file:///%E3%83%87%E3%83%BC%E3%82%BF/c:/x"),
        ("/c:/x", "file:///c:/x"),
        ("/...", "file:///..."),
    ] {
        let uri = PathUri::from_file_path(path, PathFlavor::Posix).expect("absolute path");
        assert_eq!(uri.as_str(), text);
        assert_eq!(file_path(&uri), path);
        assert_eq!(PathUri::parse(text), Ok(uri.clone()));
        assert_eq!(file_view(&uri).to_native_path(), Ok(path.as_bytes().to_vec()));
    }
    let uri = PathUri::from_file_path("//a/./b//", PathFlavor::Posix).expect("absolute path");
    assert_eq!(uri.as_str(), "file:///a/b");
}

#[test]
fn native_paths_need_not_be_text() {
    assert_eq!(native_path("file:///tmp/%FF"), Ok(b"/tmp/\xff".to_vec()));
    assert_eq!(native_path("file:///tmp/a%20b"), Ok(b"/tmp/a b".to_vec()));
    assert_eq!(native_path("file://localhost/tmp"), Ok(b"/tmp".to_vec()));
}

#[test]
fn names_like_drives_get_a_slash() {
    assert_eq!(native_path("file:///c:"), Ok(b"/c:/".to_vec()));
    assert_eq!(native_path("file:///c%3A"), Ok(b"/c:/".to_vec()));
    assert_eq!(native_path("file:///tmp/c:"), Ok(b"/tmp/c:/".to_vec()));
    assert_eq!(native_path("file:///c:/x"), Ok(b"/c:/x".to_vec()));
}

#[test]
fn a_view_without_a_url_has_no_native_path() {
    let parts = file_parts("/tmp/x", None, "not a url");
    let uri = PathUri::try_from(parts).expect("the parts count");
    assert_eq!(
        file_view(&uri).to_native_path(),
        Err(PathUriParseError::InvalidFileUriPath)
    );
}

#[test]
fn environment_uri_round_trips_a_unix_path() {
    let environment_id = EnvironmentId::new("dev_box-1").expect("valid environment id");
    let path = EnvironmentPath::posix("/workspace/a path/file.rs").expect("valid POSIX path");

    let uri = PathUri::from_environment_path(&environment_id, &path)
        .expect("path should convert to an environment URI");

    assert_eq!(
        uri.as_str(),
        "codex-env:///dev_box-1/workspace/a%20path/file.rs"
    );
    assert_eq!(
        environment(&uri),
        ("dev_box-1".to_string(), "/workspace/a path/file.rs".to_string())
    );
}

#[test]
fn environment_uri_round_trips_a_windows_path_on_any_host() {
    let environment_id = EnvironmentId::new("windows-dev").expect("valid environment id");
    let path = EnvironmentPath::windows(r"C:\Users\Alice Smith\src\..\main.rs")
        .expect("valid Windows path");

    let uri = PathUri::from_environment_path(&environment_id, &path)
        .expect("path should convert to an environment URI");
    let reparsed = PathUri::parse(uri.as_str()).expect("URI should parse");

    assert_eq!(
        uri.as_str(),
        "codex-env:///windows-dev/c:/Users/Alice%20Smith/main.rs"
    );
    assert_eq!(path.as_str(), "/c:/Users/Alice Smith/main.rs");
    assert_eq!(reparsed, uri);
    assert_eq!(
        environment(&uri),
        ("windows-dev".to_string(), path.as_str().to_string())
    );
}

#[test]
fn environment_uri_round_trips_a_windows_unc_path_on_any_host() {
    let environment_id = EnvironmentId::new("windows-dev").expect("valid environment id");
    let path =
        EnvironmentPath::windows(r"\\server\share\src\main.rs").expect("valid Windows UNC path");

    let uri = PathUri::from_environment_path(&environment_id, &path)
        .expect("path should convert to an environment URI");
    let reparsed = PathUri::parse(uri.as_str()).expect("URI should parse");

    assert_eq!(
        uri.as_str(),
        "codex-env:///windows-dev//server/share/src/main.rs"
    );
    assert_eq!(path.as_str(), "//server/share/src/main.rs");
    assert_eq!(reparsed, uri);
}

#[test]
fn environment_id_validates_the_current_exec_server_shape() {
    let valid = EnvironmentId::new("dev_box-1").expect("valid environment id");

    assert_eq!(valid.as_str(), "dev_box-1");
    assert_eq!(
        EnvironmentId::new("local"),
        Err(EnvironmentIdError::Reserved("local".to_string()))
    );
    assert_eq!(
        EnvironmentId::new("dev.box"),
        Err(EnvironmentIdError::InvalidCharacter("dev.box".to_string()))
    );
}

#[test]
fn uri_ids_are_opaque_but_for_dots_and_the_local_host() {
    assert_eq!(EnvironmentId::new(""), Err(EnvironmentIdError::Empty));
    assert_eq!(
        EnvironmentId::new(".."),
        Err(EnvironmentIdError::DotSegment("..".to_string()))
    );
    assert_eq!(
        EnvironmentId::new(&"x".repeat(MAX_ENVIRONMENT_ID_LEN + 1)),
        Err(EnvironmentIdError::TooLong { length: 65, max_length: 64 })
    );
    assert!(EnvironmentId::new(&"x".repeat(MAX_ENVIRONMENT_ID_LEN)).is_ok());
    assert!(EnvironmentId::new("locals").is_ok());
    for id in [".a", "a.", "...", "日.本"] {
        assert_eq!(
            EnvironmentId::new(id),
            Err(EnvironmentIdError::InvalidCharacter(id.to_string()))
        );
    }
    for id in ["none", "Local", "a b", "日本語/environment", "a?b#c%d", "a\nb"] {
        assert_eq!(
            EnvironmentId::new(id).map(|id| id.as_str().to_string()),
            Ok(id.to_string())
        );
    }
    for (error, message) in [
        (EnvironmentIdError::Empty, "environment id cannot be empty"),
        (
            EnvironmentIdError::DotSegment(".".to_string()),
            "environment id `.` cannot be a URI path dot segment",
        ),
        (
            EnvironmentIdError::TooLong { length: 65, max_length: 64 },
            "environment id is 65 bytes; maximum length is 64",
        ),
        (
            EnvironmentIdError::Reserved("local".to_string()),
            "environment id `local` is reserved",
        ),
        (
            EnvironmentIdError::InvalidCharacter("a.b".to_string()),
            "environment id `a.b` cannot contain a dot",
        ),
    ] {
        assert_eq!(error.message(), message);
    }
}

#[test]
fn ids_and_names_round_trip() {
    for (id, path) in [
        ("日本語/environment", "/データ/ファイル.rs"),
        ("a?b#c%d", "/tmp/a?b#c%2Fd{e}\"f"),
        ("x", "/"),
        ("x", "/c:/"),
        ("x", "/with space/tilde~/back\\slash/`tick`/<angle>"),
    ] {
        let environment_id = EnvironmentId::new(id).expect("valid environment id");
        let path = EnvironmentPath::new(path).expect("valid path");
        let uri = PathUri::from_environment_path(&environment_id, &path).expect("representable");
        assert_eq!(environment(&uri), (id.to_string(), path.as_str().to_string()));
        assert_eq!(PathUri::parse(uri.as_str()), Ok(uri));
    }
}

#[test]
fn every_ascii_character_of_a_name_round_trips() {
    let environment_id = EnvironmentId::new("box").expect("valid environment id");
    for code in 1u8..128 {
        let c = code as char;
        if c == '/' || c == '\t' || c == '\n' || c == '\r' {
            continue;
        }
        let spelled = format!("/dir/a{c}b");
        let path = EnvironmentPath::new(&spelled).expect("valid path");
        let uri = PathUri::from_environment_path(&environment_id, &path).expect("representable");
        let escaped = match c {
            ' ' | '"' | '#' | '%' | '<' | '>' | '?' | '`' | '{' | '}' => true,
            _ => code < 32 || code == 127,
        };
        let expected = if escaped {
            format!("codex-env:///box/dir/a%{code:02X}b")
        } else {
            format!("codex-env:///box/dir/a{c}b")
        };
        assert_eq!(uri.as_str(), expected);
        assert_eq!(environment(&uri), ("box".to_string(), spelled));
    }
}

#[test]
fn unknown_scheme_is_rejected_at_construction() {
    let error = PathUri::parse("artifact://store/object-1")
        .expect_err("unknown schemes should be rejected");

    assert!(matches!(
        &error,
        PathUriParseError::UnsupportedScheme(scheme) if scheme == "artifact"
    ));
    assert!(error
        .message()
        .contains("unsupported path URI scheme `artifact`"));
}

#[test]
fn parsed_uri_serializes_from_typed_components() {
    let uri = PathUri::parse("codex-env:///devbox/C:/workspace/./src/../lib.rs")
        .expect("valid environment URI");

    assert_eq!(uri.as_str(), "codex-env:///devbox/c:/workspace/lib.rs");
}

#[test]
fn file_uri_rejects_a_different_host() {
    for input in [
        "file://other-host/tmp/file.rs",
        "file://127.0.0.1/tmp/file.rs",
        "file://[::1]/tmp/file.rs",
        "file://localhost./tmp/file.rs",
    ] {
        let error = PathUri::parse(input).expect_err("non-localhost authority should be rejected");

        assert!(matches!(
            error,
            PathUriParseError::FileUriMustReferenceCurrentHost
        ));
    }

    assert_eq!(
        PathUri::parse("file://LOCALHOST/tmp/file.rs")
            .expect("localhost authority should parse")
            .as_str(),
        "file:///tmp/file.rs"
    );
}

#[test]
fn environment_uri_rejects_authority_syntax() {
    let error = PathUri::parse("codex-env://devbox/workspace/file.rs")
        .expect_err("environment id must be a path segment");

    assert!(matches!(
        error,
        PathUriParseError::EnvironmentUriMustNotHaveAuthority
    ));
}

#[test]
fn environment_uri_rejects_missing_path() {
    let error =
        PathUri::parse("codex-env:///devbox").expect_err("environment URI should include a path");

    assert!(matches!(
        error,
        PathUriParseError::InvalidEnvironmentUriPath
    ));
}

#[test]
fn environment_uri_accepts_the_root_path() {
    let uri = PathUri::parse("codex-env:///devbox/").expect("root path should be valid");

    assert_eq!(environment(&uri), ("devbox".to_string(), "/".to_string()));
}

#[test]
fn known_path_uris_reject_queries_and_fragments() {
    let query_error =
        PathUri::parse("file:///tmp/file.rs?version=1").expect_err("query should be rejected");
    let fragment_error = PathUri::parse("codex-env:///devbox/tmp/file.rs#L1")
        .expect_err("fragment should be rejected");

    assert!(matches!(query_error, PathUriParseError::QueryNotAllowed));
    assert!(matches!(
        fragment_error,
        PathUriParseError::FragmentNotAllowed
    ));
}

#[test]
fn path_uris_reject_percent_encoded_path_separators() {
    for input in [
        "file:///tmp/a%2Fb",
        "file:///tmp/a%2fb",
        "codex-env:///devbox/tmp/a%2Fb",
        "codex-env:///devbox/tmp/a%2fb",
    ] {
        assert!(PathUri::parse(input).is_err(), "accepting {input}");
    }
}

#[test]
fn bad_percent_encoding_is_rejected() {
    for input in [
        "file:///tmp/%00",
        "file:///tmp/%ZZ",
        "codex-env:///devbox/tmp/%F0%28%8C%28",
        "codex-env:///devbox/tmp/%00",
        "codex-env:///devbox/tmp/%",
    ] {
        assert!(PathUri::parse(input).is_err(), "accepting {input}");
    }
}

#[test]
fn file_uris_keep_bytes_that_are_no_text() {
    let uri = PathUri::parse("file:///tmp/%FF").expect("any bytes make a local path");
    assert_eq!(uri.as_str(), "file:///tmp/%FF");
    assert_eq!(file_path(&uri), "/tmp/%FF");
}

#[test]
fn encoded_filename_characters_round_trip_without_becoming_uri_metadata() {
    let uri = PathUri::parse("codex-env:///devbox/tmp/a%3Fb%23c%25d")
        .expect("encoded filename characters should parse");

    assert_eq!(uri.as_str(), "codex-env:///devbox/tmp/a%3Fb%23c%25d");
    assert_eq!(environment(&uri).1, "/tmp/a?b#c%d");
}

#[test]
fn double_encoded_separator_remains_filename_text() {
    let uri = PathUri::parse("codex-env:///devbox/tmp/a%252Fb")
        .expect("double-encoded separator should parse as filename text");

    assert_eq!(uri.as_str(), "codex-env:///devbox/tmp/a%252Fb");
    assert_eq!(environment(&uri).1, "/tmp/a%2Fb");
}

#[test]
fn other_uri_errors_have_their_inputs() {
    let cases = [
        ("not a uri", "invalid URI: relative URL without a base"),
        (" codex-env://user@host/box/x", "credentials and ports are not allowed in path URIs"),
        ("codex-env:///../tmp", "environment id `..` cannot be a URI path dot segment"),
        ("codex-env:////tmp", "environment id cannot be empty"),
        ("codex-env:///local/tmp", "environment id `local` is reserved"),
        ("codex-env:///dev.box/tmp", "environment id `dev.box` cannot contain a dot"),
        (
            "codex-env:///box//server",
            "Windows UNC path `//server` must contain a server and share",
        ),
        (
            "codex-env:tmp",
            "environment URI must contain an environment id and absolute path",
        ),
        ("codex-env:///box/tmp?x", "query parameters are not allowed in path URIs"),
        ("file:///tmp#x", "fragments are not allowed in path URIs"),
        ("file:///a%2fb", "file URI contains an invalid absolute path"),
        ("file://host/tmp", "file URI must reference the current host"),
    ];
    for (input, expected) in cases {
        let error = PathUri::parse(input).expect_err("should be refused");
        assert_eq!(error.message(), expected, "parsing {input}");
    }
}

#[test]
fn a_url_with_surrounding_space_is_an_environment_uri_too() {
    let uri = PathUri::parse(" codex-env:///box/C:/x ").expect("trimmed by URL syntax");
    assert_eq!(uri.as_str(), "codex-env:///box/c:/x");
    let error = PathUri::parse(" codex-env://host/box/x").expect_err("authority");
    assert_eq!(error, PathUriParseError::EnvironmentUriMustNotHaveAuthority);
}

#[test]
fn schemes_are_told_from_drives() {
    assert_eq!(uri_scheme("file:///tmp"), Some("file".to_string()));
    assert_eq!(uri_scheme("codex-env:x"), Some("codex-env".to_string()));
    assert_eq!(uri_scheme("1file:x"), None);
    assert_eq!(uri_scheme(":x"), None);
    assert_eq!(uri_scheme("no colon"), None);
    assert!(looks_like_uri("file:///tmp"));
    assert!(looks_like_uri("x:y"));
    assert!(!looks_like_uri(r"C:\src"));
    assert!(!looks_like_uri("c:/src"));
    assert!(!looks_like_uri("/tmp/file"));
}

#[test]
fn only_file_uris_have_a_legacy_form() {
    let file = PathUri::parse("file:///tmp/x").expect("valid file URI");
    let view = legacy_file_view(&file).expect("file URIs have one");
    assert_eq!(view.path().as_str(), "/tmp/x");
    assert_eq!(view.url().text, "file:///tmp/x");
    let environment = PathUri::parse("codex-env:///box/tmp/x").expect("valid environment URI");
    assert_eq!(
        legacy_file_view(&environment),
        Err("codex-env URI cannot use legacy file-path serialization".to_string())
    );
}
