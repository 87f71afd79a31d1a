# davbox

Davbox turns a local folder into a WebDAV server for the local network
(`davbox serve ~/Movies`), with Basic authentication, a read-only mode, byte
ranges for media players and a live terminal dashboard.

The library under `src/` holds the logic, with contracts checked by Verus:

- `cli`: command-line parsing (`serve` options, `config` subcommands).
- `config`: the config file reader, profiles, and how defaults, the config
  file, the selected profile, the environment and the command line merge.
- `auth`: Basic credentials, base64, runtime passwords.
- `http`: the header table, request lines and header lines, percent-decoding,
  XML escaping, and framing responses as bytes.
- `dav`: `OPTIONS`, `PROPFIND` documents, ranges and `GET`/`HEAD` answers.
- `fs_backend`: the shared-root sandbox (how a request path maps under the
  root, what is refused, the canonical-parent and symlink checks) and folder
  listings.
- `server`: routing (authentication, the read-only rule, method dispatch),
  the answers to finished or failed operations, and each turn of the accept
  loop.
- `events`: the event bus and the metrics the dashboard shows.
- `tui`: the dashboard text: header, logo, panels, and the activity list of
  the newest requests.
- `network`: the address shown to clients.
- `text`: character-level helpers shared by the rest.

Laws that span several functions are public proof functions, for example
`dav::lemma_path_segment_round_trip`, `auth::lemma_basic_auth_accepts_configured_credentials`,
`fs_backend::lemma_served_path_is_confined`, `config::lemma_settings_priority`,
`events::lemma_recent_holds_latest_requests`, `tui::lemma_empty_activity_list`
and `tui::lemma_compact_frame_fits`.

`app/main.rs` is the program around the library: files, sockets, threads, the
terminal, and the byte and rate formatting that goes through floating point.
`tests/` exercises the library on concrete values.
