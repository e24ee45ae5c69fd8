use codex_kernel::path_normalization::{canonical_path_key, is_acl_unsupported_path};

#[test]
fn canonical_path_key_normalizes_case_and_separators() {
    let windows_style = r"C:\Users\Dev\Repo";
    let slash_style = "c:/users/dev/repo";

    assert_eq!(
        canonical_path_key(windows_style),
        canonical_path_key(slash_style)
    );
    assert_eq!(canonical_path_key(windows_style), "c:/users/dev/repo");
    assert_eq!(canonical_path_key("É\\X"), "É/x");
}

#[test]
fn acl_unsupported_paths_match_wsl_unc_variants() {
    assert!(is_acl_unsupported_path(
        r"\\wsl.localhost\Ubuntu\home\dev\repo"
    ));
    assert!(is_acl_unsupported_path(r"\\wsl$\Ubuntu\home\dev\repo"));
    assert!(is_acl_unsupported_path(
        r"\\?\UNC\wsl.localhost\Ubuntu\home\dev\repo"
    ));
    assert!(is_acl_unsupported_path(
        r"\\?\UNC\wsl$\Ubuntu\home\dev\repo"
    ));
    assert!(!is_acl_unsupported_path(r"C:\Users\dev\repo"));
    assert!(!is_acl_unsupported_path(r"\\server\share\repo"));
}
