# codex_kernel

The parts of Codex that decide and compute, as a verified library: executable
Rust whose behaviour is stated in contracts and proved by Verus.

- `environment_path`, `environment_id`, `path_uri`: paths in execution
  environments and the URIs that name them. `uri_environment_id` holds the
  identifiers that URIs carry, `percent` and `url_parts` the spelling of URIs.
- `instructions`, `agents_md`, `global_instructions`: discovery, reading and
  bounding of `AGENTS.md` instructions. `directories` walks up from the working
  directory.
- `rollout`: reconstruction of a session from its rollout.
- `initialize`, `thread_delete`, `local_delete`: handling of requests.
- `codex_home`, `path_normalization`, `recovery`, `responses`: the home
  directory, Windows path keys, damaged databases and item identifiers.
- `text`, `decoding`: text as the library sees it.

Modules whose names end in `_laws`, and the sections named Laws, state what holds
of several operations together.

Work that only the machine can do is asked for: a search, a reading or a deletion
says what it needs next and takes the answer. `app/` asks the file system, the
environment and the server around it, and holds the wire formats.
