//! Handling of the request that initializes a connection.

use vstd::prelude::*;

use crate::codex_home;
use crate::request_error::{RequestError, RequestFault};
use crate::text;

verus! {

/// Who is calling.
#[derive(Clone, Debug, PartialEq, Eq)]
pub struct ClientInfo {
    pub name: String,
    pub title: Option<String>,
    pub version: String,
}

/// What a client asks for.
#[derive(Clone, Debug, PartialEq, Eq)]
pub struct InitializeCapabilities {
    pub experimental_api: bool,
    pub request_attestation: bool,
    pub opt_out_notification_methods: Option<Vec<String>>,
}

/// The request.
#[derive(Clone, Debug, PartialEq, Eq)]
pub struct InitializeParams {
    pub client_info: ClientInfo,
    pub capabilities: Option<InitializeCapabilities>,
}

/// What a connection remembers of its initialization.
#[derive(Clone, Debug, PartialEq, Eq)]
pub struct InitializedConnectionSessionState {
    pub experimental_api_enabled: bool,
    pub opted_out_notification_methods: Vec<String>,
    pub app_server_client_name: String,
    pub client_version: String,
    pub request_attestation: bool,
}

/// A connection, which is initialized at most once.
#[derive(Clone, Debug, PartialEq, Eq)]
pub struct ConnectionSessionState {
    pub state: Option<InitializedConnectionSessionState>,
}

/// A place in a file, counted from one.
#[derive(Clone, Copy, Debug, PartialEq, Eq)]
pub struct TextPosition {
    pub line: usize,
    pub column: usize,
}

/// A stretch of a file.
#[derive(Clone, Copy, Debug, PartialEq, Eq)]
pub struct TextRange {
    pub start: TextPosition,
    pub end: TextPosition,
}

/// A warning about the configuration.
#[derive(Clone, Debug, PartialEq, Eq)]
pub struct ConfigWarningNotification {
    pub summary: String,
    pub details: Option<String>,
    pub path: Option<String>,
    pub range: Option<TextRange>,
}

/// The identity that the process takes on for its own requests.
#[derive(Clone, Debug, PartialEq, Eq)]
pub struct GlobalIdentity {
    pub originator: String,
    pub user_agent_suffix: String,
}

/// What follows from an initialization.
#[derive(Clone, Debug, PartialEq, Eq)]
pub struct InitializeOutcome {
    /// Set for clients that the process works for.
    pub identity: Option<GlobalIdentity>,
    /// Goes to the connection behind the response.
    pub warning: Option<ConfigWarningNotification>,
    /// Whether the connection is marked as ready for outbound messages now.
    pub outbound_initialized: bool,
}

// ---------------------------------------------------------------------------
// Clients
// ---------------------------------------------------------------------------
/// Whether the client is a Codex desktop application.
pub open spec fn is_desktop(name: Seq<char>) -> bool {
    name == "Codex Desktop"@ || name == "codex_desktop"@ || name == "codex-desktop"@ || name
        == "codex_chatgpt_desktop"@
}

/// Whether the client only passes on the requests of others.
pub open spec fn is_non_originating(name: Seq<char>) -> bool {
    name == "codex_app_server_daemon"@ || name == "codex-backend"@
}

/// Whether the client is a Codex desktop application.
pub fn is_codex_desktop_client(client_name: &str) -> (r: bool)
    ensures
        r == is_desktop(client_name@),
{
    let chars = text::chars_of(client_name);
    text::is_text(&chars, "Codex Desktop") || text::is_text(&chars, "codex_desktop")
        || text::is_text(&chars, "codex-desktop") || text::is_text(&chars, "codex_chatgpt_desktop")
}

/// Whether a client's name becomes the identity of the process.
pub fn mutates_global_identity(client_name: &str) -> (r: bool)
    ensures
        r == !is_non_originating(client_name@),
{
    let chars = text::chars_of(client_name);
    !(text::is_text(&chars, "codex_app_server_daemon") || text::is_text(&chars, "codex-backend"))
}

/// What a header value cannot have: controls other than the tab, and the
/// delete character.
pub open spec fn is_header_text(s: Seq<char>) -> bool {
    forall|i: int|
        0 <= i < s.len() ==> (#[trigger] s[i]) == '\t' || (s[i] as u32 >= 32 && s[i] as u32 != 127)
}

/// Wraps `axum::http::HeaderValue::from_str` and tells whether it accepts the
/// text.
///
/// Trusted: it accepts exactly the texts without control characters, where a
/// tab does not count as one and the delete character does.
#[verifier::external_body]
fn is_header_value(s: &str) -> (r: bool)
    ensures
        r == is_header_text(s@),
{
    axum::http::HeaderValue::from_str(s).is_ok()
}

// ---------------------------------------------------------------------------
// Warning
// ---------------------------------------------------------------------------
/// The summary of the warning about a Windows-backed home.
pub open spec fn home_warning_summary() -> Seq<char> {
    "Codex Desktop is running in WSL with Windows-backed CODEX_HOME."@
}

/// The details of the warning about a Windows-backed home.
pub open spec fn home_warning_details(codex_home: Seq<char>) -> Seq<char> {
    "Codex persistent state is currently loaded from "@ + codex_home
        + ". This preserves existing Windows Desktop auth and threads while plugin and bundled skill caches can use native WSL storage. To move all Codex state to native WSL, start the WSL app-server with CODEX_DESKTOP_WSL_NATIVE_CODEX_HOME=1 after warning that native WSL state may require signing in again unless auth is migrated."@
}

/// Whether a desktop client under WSL has its home on a Windows drive.
pub open spec fn needs_home_warning(
    client_name: Seq<char>,
    codex_home: Seq<char>,
    is_wsl: bool,
) -> bool {
    is_wsl && is_desktop(client_name) && codex_home::is_windows_backed(codex_home)
}

/// The warning that `w` is for the home `codex_home`.
pub open spec fn is_home_warning(w: ConfigWarningNotification, codex_home: Seq<char>) -> bool {
    &&& w.summary@ == home_warning_summary()
    &&& w.details is Some
    &&& w.details->0@ == home_warning_details(codex_home)
    &&& w.path is None
    &&& w.range is None
}

/// Warns a desktop client under WSL whose home is on a Windows drive.
pub fn desktop_wsl_windows_codex_home_warning(
    client_name: &str,
    codex_home: &str,
    is_wsl: bool,
) -> (r: Option<ConfigWarningNotification>)
    ensures
        r is Some <==> needs_home_warning(client_name@, codex_home@, is_wsl),
        r matches Some(w) ==> is_home_warning(w, codex_home@),
{
    if !is_wsl || !is_codex_desktop_client(client_name)
        || !codex_home::looks_like_windows_path_in_wsl(codex_home) {
        return None;
    }
    let mut details: String = "Codex persistent state is currently loaded from ".to_owned();
    details.append(codex_home);
    details.append(
        ". This preserves existing Windows Desktop auth and threads while plugin and bundled skill caches can use native WSL storage. To move all Codex state to native WSL, start the WSL app-server with CODEX_DESKTOP_WSL_NATIVE_CODEX_HOME=1 after warning that native WSL state may require signing in again unless auth is migrated.",
    );
    Some(
        ConfigWarningNotification {
            summary: "Codex Desktop is running in WSL with Windows-backed CODEX_HOME.".to_owned(),
            details: Some(details),
            path: None,
            range: None,
        },
    )
}

// ---------------------------------------------------------------------------
// Initialization
// ---------------------------------------------------------------------------
/// What a connection that was initialized with `params` remembers.
pub open spec fn remembers(
    state: InitializedConnectionSessionState,
    params: InitializeParams,
) -> bool {
    &&& state.app_server_client_name@ == params.client_info.name@
    &&& state.client_version@ == params.client_info.version@
    &&& match params.capabilities {
        Some(c) => {
            &&& state.experimental_api_enabled == c.experimental_api
            &&& state.request_attestation == c.request_attestation
            &&& text::views(state.opted_out_notification_methods@) == (match c.opt_out_notification_methods {
                Some(methods) => text::views(methods@),
                None => Seq::empty(),
            })
        },
        None => {
            &&& !state.experimental_api_enabled
            &&& !state.request_attestation
            &&& state.opted_out_notification_methods@.len() == 0
        },
    }
}

/// Why a request to initialize is refused.
pub open spec fn initialize_fault(initialized: bool, name: Seq<char>) -> Option<RequestFault> {
    if initialized {
        Some(RequestFault::InvalidRequest("Already initialized"@))
    } else if !is_header_text(name) {
        Some(
            RequestFault::InvalidRequest(
                "Invalid clientInfo.name: '"@ + name + "'. Must be a valid HTTP header value."@,
            ),
        )
    } else {
        None
    }
}

/// What follows from an initialization with `params`.
pub open spec fn follows(
    o: InitializeOutcome,
    params: InitializeParams,
    codex_home: Seq<char>,
    is_wsl: bool,
    mark_outbound: bool,
) -> bool {
    let name = params.client_info.name@;
    &&& o.identity is Some <==> !is_non_originating(name)
    &&& o.identity matches Some(identity) ==> {
        &&& identity.originator@ == name
        &&& identity.user_agent_suffix@ == name + "; "@ + params.client_info.version@
    }
    &&& o.warning is Some <==> needs_home_warning(name, codex_home, is_wsl)
    &&& o.warning matches Some(w) ==> is_home_warning(w, codex_home)
    &&& o.outbound_initialized == mark_outbound
}

impl ConnectionSessionState {
    /// A connection that is not initialized yet.
    pub fn new() -> (r: Self)
        ensures
            r.state is None,
    {
        ConnectionSessionState { state: None }
    }

    pub fn initialized(&self) -> (r: bool)
        ensures
            r == (self.state is Some),
    {
        self.state.is_some()
    }

    /// Remembers `state`, unless the connection is initialized already.
    pub fn initialize(&mut self, state: InitializedConnectionSessionState) -> (r: Result<(), ()>)
        ensures
            r is Ok <==> old(self).state is None,
            r is Ok ==> final(self).state == Some(state),
            r is Err ==> *final(self) == *old(self),
    {
        if self.state.is_some() {
            return Err(());
        }
        self.state = Some(state);
        Ok(())
    }
}

/// Initializes a connection. A refused request leaves it as it is.
pub fn initialize(
    session: &mut ConnectionSessionState,
    params: &InitializeParams,
    codex_home: &str,
    is_wsl: bool,
    mark_outbound: bool,
) -> (r: Result<InitializeOutcome, RequestError>)
    ensures
        match initialize_fault(old(session).state is Some, params.client_info.name@) {
            Some(fault) => {
                &&& r is Err
                &&& r->Err_0@ == fault
                &&& *final(session) == *old(session)
            },
            None => {
                &&& r is Ok
                &&& follows(r->Ok_0, *params, codex_home@, is_wsl, mark_outbound)
                &&& final(session).state is Some
                &&& remembers(final(session).state->0, *params)
            },
        },
{
    if session.initialized() {
        return Err(RequestError::InvalidRequest("Already initialized".to_owned()));
    }
    let name: &String = &params.client_info.name;
    let version: &String = &params.client_info.version;
    if !is_header_value(name.as_str()) {
        let mut message: String = "Invalid clientInfo.name: '".to_owned();
        message.append(name.as_str());
        message.append("'. Must be a valid HTTP header value.");
        return Err(RequestError::InvalidRequest(message));
    }
    let (experimental_api_enabled, request_attestation, opted_out_notification_methods) =
        match &params.capabilities {
        Some(capabilities) => (
            capabilities.experimental_api,
            capabilities.request_attestation,
            match &capabilities.opt_out_notification_methods {
                Some(methods) => text::copies(methods),
                None => Vec::new(),
            },
        ),
        None => (false, false, Vec::new()),
    };
    let state = InitializedConnectionSessionState {
        experimental_api_enabled,
        opted_out_notification_methods,
        app_server_client_name: name.clone(),
        client_version: version.clone(),
        request_attestation,
    };
    proof {
        assert(params.capabilities matches Some(c) && c.opt_out_notification_methods is None
            ==> text::views(state.opted_out_notification_methods@) =~= Seq::<Seq<char>>::empty());
    }
    match session.initialize(state) {
        Ok(()) => {},
        Err(()) => {
            return Err(RequestError::InvalidRequest("Already initialized".to_owned()));
        },
    }
    let identity = if mutates_global_identity(name.as_str()) {
        let mut user_agent_suffix: String = name.clone();
        user_agent_suffix.append("; ");
        user_agent_suffix.append(version.as_str());
        Some(GlobalIdentity { originator: name.clone(), user_agent_suffix })
    } else {
        None
    };
    let warning = desktop_wsl_windows_codex_home_warning(name.as_str(), codex_home, is_wsl);
    Ok(InitializeOutcome { identity, warning, outbound_initialized: mark_outbound })
}

// ---------------------------------------------------------------------------
// Laws
// ---------------------------------------------------------------------------
/// A connection is initialized at most once: once it is, every further request
/// is refused, whoever makes it.
pub proof fn law_initialized_once(name: Seq<char>)
    ensures
        initialize_fault(true, name) == Some(
            RequestFault::InvalidRequest("Already initialized"@),
        ),
        initialize_fault(false, name) is None <==> is_header_text(name),
{
}

/// An initialized connection remembers the name and the version of its client, and
/// of its capabilities whether it takes the experimental interface and attests its
/// requests, and every notification that it opts out of, in order. A client without
/// capabilities has none of them.
pub proof fn law_connections_remember_their_client(
    state: InitializedConnectionSessionState,
    params: InitializeParams,
)
    requires
        remembers(state, params),
    ensures
        state.app_server_client_name@ == params.client_info.name@,
        state.client_version@ == params.client_info.version@,
        state.experimental_api_enabled <==> (params.capabilities matches Some(c)
            && c.experimental_api),
        state.request_attestation <==> (params.capabilities matches Some(c)
            && c.request_attestation),
        match params.capabilities {
            Some(c) => match c.opt_out_notification_methods {
                Some(methods) => {
                    &&& state.opted_out_notification_methods@.len() == methods@.len()
                    &&& forall|i: int|
                        0 <= i < methods@.len() ==> (
                        #[trigger] state.opted_out_notification_methods@[i])@ == methods@[i]@
                },
                None => state.opted_out_notification_methods@.len() == 0,
            },
            None => state.opted_out_notification_methods@.len() == 0,
        },
{
    let kept = text::views(state.opted_out_notification_methods@);
    assert(kept.len() == state.opted_out_notification_methods@.len());
    if let Some(c) = params.capabilities {
        if let Some(methods) = c.opt_out_notification_methods {
            let given = text::views(methods@);
            assert(given.len() == methods@.len());
            assert forall|i: int| 0 <= i < methods@.len() implies (
            #[trigger] state.opted_out_notification_methods@[i])@ == methods@[i]@ by {
                assert(kept[i] == given[i]);
            }
        }
    }
}

/// Every client becomes the identity of the process, with its version behind its
/// name, but for the two that pass on the requests of others. A desktop client under
/// WSL is warned exactly if its home is on a Windows drive, and the warning names
/// that home.
pub proof fn law_what_follows_from_initialization(
    o: InitializeOutcome,
    params: InitializeParams,
    codex_home: Seq<char>,
    is_wsl: bool,
    mark_outbound: bool,
)
    requires
        follows(o, params, codex_home, is_wsl, mark_outbound),
    ensures
        ({
            let name = params.client_info.name@;
            &&& o.identity is None <==> name == "codex_app_server_daemon"@ || name
                == "codex-backend"@
            &&& o.identity matches Some(identity) ==> identity.originator@ == name
                && identity.user_agent_suffix@ == name + "; "@ + params.client_info.version@
            &&& o.outbound_initialized == mark_outbound
            &&& o.warning is Some <==> is_wsl && codex_home::is_windows_backed(codex_home) && (name
                == "Codex Desktop"@ || name == "codex_desktop"@ || name == "codex-desktop"@ || name
                == "codex_chatgpt_desktop"@)
            &&& o.warning matches Some(w) ==> (w.details matches Some(d) && text::occurs_in(
                d@,
                codex_home,
            )) && w.path is None && w.range is None
        }),
{
    if let Some(w) = o.warning {
        let details = home_warning_details(codex_home);
        let head = "Codex persistent state is currently loaded from "@;
        assert(details.subrange(head.len() as int, head.len() as int + codex_home.len()) =~= codex_home);
        assert(text::occurs_at(details, codex_home, head.len() as int));
    }
}

} // verus!
