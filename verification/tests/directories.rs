use codex_kernel::directories::{parent_directories, root_marker_layers, ConfigLayerSource};
use codex_kernel::environment_path::PathFlavor;

#[test]
fn posix_directories_lead_to_the_root() {
    for (path, expected) in [
        ("/r/a/b", vec!["/r/a", "/r", "/"]),
        ("/r", vec!["/"]),
        ("/", vec![]),
        ("/r//a/", vec!["/r", "/"]),
        ("/c:/x", vec!["/c:", "/"]),
    ] {
        assert_eq!(parent_directories(path, PathFlavor::Posix), expected, "{path}");
        if expected.len() > 0 && !path.contains("//") {
            let ancestors: Vec<&str> = std::path::Path::new(path)
                .ancestors()
                .skip(1)
                .filter_map(|directory| directory.to_str())
                .collect();
            assert_eq!(ancestors, expected, "{path}");
        }
    }
}

#[test]
fn windows_directories_lead_to_the_drive_or_share() {
    for (path, expected) in [
        (r"C:\Users\Alice", vec![r"C:\Users", r"C:\"]),
        (r"C:\", vec![]),
        (r"\\server\share\a\b", vec![r"\\server\share\a", r"\\server\share\"]),
        (r"\\server\share\", vec![]),
        (r"\\server\share", vec![]),
    ] {
        assert_eq!(parent_directories(path, PathFlavor::Windows), expected, "{path}");
    }
}

#[test]
fn projects_do_not_say_where_they_begin() {
    let (other, project) = (ConfigLayerSource::Other, ConfigLayerSource::Project);
    assert_eq!(
        root_marker_layers(&vec![other, project, other, project]),
        vec![0, 2]
    );
    assert!(root_marker_layers(&vec![project]).is_empty());
    assert!(root_marker_layers(&vec![]).is_empty());
}
