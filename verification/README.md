# jellyswarrm_proxy

The rules of a proxy that shows several Jellyfin servers as one, verified with Verus.

- `src/` is the library. Its functions take and give plain values; their contracts are proved.
  Work that goes back and forth between the proxy and its surroundings (a watch sync, a grouped
  playback, a grouped item, the items of a show, a request for a mapping, the search for
  libraries) is a state that says what it waits for and goes on once it is told.
- `tests/` runs the library on concrete values.
- `app/` is the proxy around the library: the database, the caches, requests to servers and
  answers to clients. What it needs from its surroundings is the `Backend` trait.

| Module | What it holds |
| --- | --- |
| `text`, `order`, `ids`, `query` | texts, stable sorting, identifiers, query strings and forms |
| `models`, `sessions` | servers, sessions, items, playback data |
| `library_management_service`, `libraries` | library groups and their administration |
| `library_group_rows` | what is read back of a library group that was added, changed or deleted |
| `media_storage_service` | media that several servers have, and the caches of mappings |
| `media_mappings` | one mapping for each medium of a server, over the rows and the caches |
| `federated`, `items`, `show_items` | browsing over several servers |
| `grouped_item`, `grouped_playback` | items and playback on every server that has a medium |
| `watch_sync_service` | watch data that follows the server of the highest priority |
| `branding` | the login page |

Outside code that the proofs rest on is named, with what is taken for granted of it, at
`String::push` (in `text`), `ids::parse_uuid`, `ids::write_simple_uuid`, `query::read_form`,
`query::write_form` and `query::matches_either_word`.
