# ignite_server

A self-hosted server for note vaults. It keeps the tree of every vault in memory, follows
changes on disk, serves files and the app shell over HTTP, streams changes over a WebSocket,
proxies requests to the outside, and drives vault synchronisation through a command-line program.

- `src/` is the library: the rules of the server, with contracts that Verus proves.
- `app/` is the program around it: sockets, disk, processes, timers.
- `tests/` runs the library on concrete values.

| module | what it decides |
| --- | --- |
| `index` | how a walk becomes a tree, how changes are applied, which events they make |
| `registry`, `vault_routes` | which vaults there are; creating, renaming, removing them |
| `fs_routes` | which path a request means, what it may do there, what it is answered |
| `proxy_routes`, `net` | which requests go out, which addresses they may reach, how replies come back |
| `settings_routes` | defaults, environment, settings file, and changes by clients |
| `static_routes` | the app shell and the cache policy |
| `ws`, `plugins` | what a connected client is sent |
| `headless_sync` | signing in, pairing vaults, sync states |
| `json`, `base64_text`, `text`, `strmap`, `paths`, `reply` | the values that the rules work on |

JSON, base64, URLs, header maps, regular expressions and media types come from the crates
`serde_json`, `base64`, `reqwest`, `regex` and `mime_guess`. Each call into them stands in a small
function whose doc comment says what is taken from the crate without proof.
