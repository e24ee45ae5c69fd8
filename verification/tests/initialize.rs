use codex_kernel::initialize::{
    desktop_wsl_windows_codex_home_warning, initialize, ClientInfo, ConnectionSessionState,
    InitializeCapabilities, InitializeParams,
};
use codex_kernel::request_error::RequestError;

fn params(name: &str) -> InitializeParams {
    InitializeParams {
        client_info: ClientInfo {
            name: name.to_string(),
            title: None,
            version: "1.2.3".to_string(),
        },
        capabilities: None,
    }
}

#[test]
fn desktop_wsl_windows_codex_home_warning_describes_state_tradeoff() {
    let warning = desktop_wsl_windows_codex_home_warning(
        "codex_chatgpt_desktop",
        "/mnt/c/Users/alice/.codex",
        /*is_wsl*/ true,
    )
    .expect("warning");

    assert!(
        warning.summary.contains("Windows-backed CODEX_HOME"),
        "unexpected summary: {}",
        warning.summary
    );
    let details = warning.details.expect("details");
    assert!(
        details.contains("CODEX_DESKTOP_WSL_NATIVE_CODEX_HOME=1"),
        "unexpected details: {details}"
    );
    assert!(
        details.contains("plugin and bundled skill caches"),
        "unexpected details: {details}"
    );
    assert!(
        details.contains("signing in again"),
        "unexpected details: {details}"
    );
}

#[test]
fn desktop_wsl_windows_codex_home_warning_ignores_non_desktop_clients() {
    assert!(desktop_wsl_windows_codex_home_warning(
        "codex_cli",
        "/mnt/c/Users/alice/.codex",
        /*is_wsl*/ true,
    )
    .is_none());
}

#[test]
fn desktop_wsl_windows_codex_home_warning_ignores_native_wsl_home() {
    assert!(desktop_wsl_windows_codex_home_warning(
        "codex_chatgpt_desktop",
        "/home/alice/.codex",
        /*is_wsl*/ true,
    )
    .is_none());
}

#[test]
fn the_warning_is_for_wsl_only() {
    assert!(
        desktop_wsl_windows_codex_home_warning("codex-desktop", r"C:\Users\alice\.codex", false)
            .is_none()
    );
    let warning =
        desktop_wsl_windows_codex_home_warning("codex-desktop", r"C:\Users\alice\.codex", true)
            .expect("warning");
    assert_eq!(
        warning.summary,
        "Codex Desktop is running in WSL with Windows-backed CODEX_HOME."
    );
    assert!(warning
        .details
        .expect("details")
        .starts_with(r"Codex persistent state is currently loaded from C:\Users\alice\.codex. "));
    assert_eq!(warning.path, None);
    assert_eq!(warning.range, None);
}

#[test]
fn a_connection_is_initialized_once() {
    let mut session = ConnectionSessionState::new();
    let outcome = initialize(&mut session, &params("codex_cli"), "/home/a/.codex", true, true)
        .expect("first request");
    let identity = outcome.identity.expect("an originating client");
    assert_eq!(identity.originator, "codex_cli");
    assert_eq!(identity.user_agent_suffix, "codex_cli; 1.2.3");
    assert_eq!(outcome.warning, None);
    assert!(outcome.outbound_initialized);
    assert!(session.initialized());

    let before = session.clone();
    assert_eq!(
        initialize(&mut session, &params("other"), "/home/a/.codex", true, true),
        Err(RequestError::InvalidRequest("Already initialized".to_string()))
    );
    assert_eq!(session, before);
}

#[test]
fn capabilities_default_to_nothing() {
    let mut session = ConnectionSessionState::new();
    initialize(&mut session, &params("codex_cli"), "/h", false, false).expect("first request");
    let state = session.state.expect("initialized");
    assert!(!state.experimental_api_enabled);
    assert!(!state.request_attestation);
    assert!(state.opted_out_notification_methods.is_empty());
    assert_eq!(state.app_server_client_name, "codex_cli");
    assert_eq!(state.client_version, "1.2.3");
}

#[test]
fn capabilities_are_remembered() {
    let mut session = ConnectionSessionState::new();
    let mut request = params("codex_cli");
    request.capabilities = Some(InitializeCapabilities {
        experimental_api: true,
        request_attestation: true,
        opt_out_notification_methods: Some(vec!["thread/deleted".to_string()]),
    });
    let outcome = initialize(&mut session, &request, "/h", false, false).expect("first request");
    assert!(!outcome.outbound_initialized);
    let state = session.state.expect("initialized");
    assert!(state.experimental_api_enabled);
    assert!(state.request_attestation);
    assert_eq!(state.opted_out_notification_methods, vec!["thread/deleted".to_string()]);
}

#[test]
fn relays_do_not_become_the_identity_of_the_process() {
    for name in ["codex_app_server_daemon", "codex-backend"] {
        let mut session = ConnectionSessionState::new();
        let outcome =
            initialize(&mut session, &params(name), "/h", false, false).expect("first request");
        assert_eq!(outcome.identity, None);
        assert_eq!(
            session.state.expect("initialized").app_server_client_name,
            name
        );
    }
}

#[test]
fn client_names_must_be_header_values() {
    for name in ["a\nb", "a\u{7f}b", "a\0b"] {
        let mut session = ConnectionSessionState::new();
        assert_eq!(
            initialize(&mut session, &params(name), "/h", false, false),
            Err(RequestError::InvalidRequest(format!(
                "Invalid clientInfo.name: '{name}'. Must be a valid HTTP header value."
            )))
        );
        assert!(!session.initialized());
    }
    for name in ["a\tb", "a b", "", "日本語"] {
        let mut session = ConnectionSessionState::new();
        assert!(initialize(&mut session, &params(name), "/h", false, false).is_ok());
    }
}
