//! Verified core of the Codex runtime.
pub mod agents_md;
pub mod agents_md_config_laws;
pub mod agents_md_laws;
pub mod codex_home;
pub mod decoding;
pub mod directories;
pub mod environment_id;
pub mod environment_path;
pub mod environment_path_laws;
pub mod global_instructions;
pub mod initialize;
pub mod instructions;
pub mod instructions_laws;
pub mod local_delete;
pub mod path_normalization;
pub mod path_uri;
pub mod path_uri_laws;
pub mod path_uri_refusal_laws;
pub mod percent;
pub mod recovery;
pub mod request_error;
pub mod responses;
pub mod rollout;
pub mod rollout_laws;
pub mod rollout_turn_laws;
pub mod text;
pub mod thread_delete;
pub mod uri_environment_id;
pub mod url_parts;
