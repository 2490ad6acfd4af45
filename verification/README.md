# OpenRelay

A personal gateway for language model APIs: one address for callers, with keys, limits, usage
records and an administration panel, in front of any number of providers.

- `src/` is the library. It holds the rules of the gateway, each with its contract, proved by Verus.
- `app/` is the program around it: the HTTP server and client, the SQLite database, files, the
  clock-side icon on Windows, and the few computations on floating point numbers (costs, budgets).
- `tests/` runs the library.

## The library

| Area | Modules |
| --- | --- |
| Letting requests in and sending them on | `gateway`, `keys`, `limits`, `routing`, `proxy`, `connections` |
| Counting what they use | `tokens`, `usage` |
| Configuration | `config`, `configjson`, `validation`, `presets`, `admin`, `backups`, `secrets`, `session` |
| Providers and releases | `health`, `release` |
| Conversations and files | `conversations`, `statics`, `paths`, `migration` |
| The icon beside the clock | `tray` |
| Ground floor | `text`, `decimal`, `hexcode`, `json`, `clock`, `ids`, `password`, `weburl` |

A module states what it computes over mathematical models: texts are sequences of characters, JSON
is a tree, a configuration is its view. Properties that span several functions stand beside them as
public proof functions whose names begin with `law_`.

What the library leaves to other crates (`bcrypt`, `chrono`, `jsonwebtoken`, `mime_guess`, `url`, `uuid` and a few
functions of the standard library) is behind small functions whose contracts say what is taken on
trust.
