use codex_kernel::environment_id::{EnvironmentId, EnvironmentIdError, MAX_ENVIRONMENT_ID_LEN};

#[test]
fn accepts_opaque_values_up_to_the_shared_limit() {
    for id in [
        "dev_box-1",
        "local",
        "none",
        "dev.box",
        "日本語/environment",
        "a?b#c%d",
    ] {
        assert_eq!(
            EnvironmentId::new(id).map(|v| v.as_str().to_string()),
            Ok(id.to_string())
        );
    }
    let longest = "x".repeat(MAX_ENVIRONMENT_ID_LEN);
    assert_eq!(
        EnvironmentId::new(&longest).map(|v| v.as_str().to_string()),
        Ok(longest)
    );
}

#[test]
fn rejects_values_that_cannot_cross_codex_boundaries() {
    assert_eq!(EnvironmentId::new(""), Err(EnvironmentIdError::Empty));
    for id in [".", ".."] {
        assert_eq!(
            EnvironmentId::new(id),
            Err(EnvironmentIdError::DotSegment(id.to_string()))
        );
    }
    assert_eq!(
        EnvironmentId::new(&"x".repeat(MAX_ENVIRONMENT_ID_LEN + 1)),
        Err(EnvironmentIdError::TooLong {
            length: MAX_ENVIRONMENT_ID_LEN + 1,
            max_length: MAX_ENVIRONMENT_ID_LEN,
        })
    );
}

#[test]
fn the_limit_counts_bytes() {
    let id = "語".repeat(22);
    assert_eq!(
        EnvironmentId::new(&id),
        Err(EnvironmentIdError::TooLong { length: 66, max_length: 64 })
    );
    assert!(EnvironmentId::new(&"語".repeat(21)).is_ok());
}

#[test]
fn id_errors_say_what_went_wrong() {
    assert_eq!(EnvironmentIdError::Empty.message(), "environment id cannot be empty");
    assert_eq!(
        EnvironmentIdError::DotSegment("..".to_string()).message(),
        "environment id `..` cannot be a URI path dot segment"
    );
    assert_eq!(
        EnvironmentIdError::TooLong { length: 66, max_length: 64 }.message(),
        "environment id is 66 bytes; maximum length is 64"
    );
}
