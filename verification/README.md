# muet

Tools for a Nix-built music and film library: album and film manifests,
source fetching and pinning, format builds, library links, and CUETools
disc identifiers. The library in `src/` holds the decisions and text
handling of these tools, each function with a contract that Verus proves;
`app/` is the command-line program around it (argument parsing, `nix`
processes, files, links, torrent and FLAC reading).

Modules of the library:

- `text`: character-sequence helpers (splitting, joining, trimming, paths).
- `hash`, `names`, `paths`, `source`, `fetch`, `nix`, `config`: hash checks,
  sanitized names and link names, path grounding and expansion, source
  resolution, fetch commands, `nix` expressions, configuration queries.
- `glob`, `order`: track filters (through `globset`) and natural path order
  (through `alphanumeric_sort`).
- `ctdb`: track selection and the CUETools TOC id (through `sha1`, `base64`).
- `manifest`, `library`, `film`: manifest text, library links (and the
  library folder named by a TOML metadata file), film videos.
- `json`, `manifest_data`: a JSON value model with `serde_json`'s indexing
  rules (and the JSON form of a TOML metadata file, through `toml`), and the
  data of new album and film manifests.
