# Pouch

Pouch is a desktop browser for macOS and Windows that keeps the responses of a
site on disk, serves them from there, and runs the user's own scripts on its
pages.

- `src/` is the library: everything that the program decides. It is written in
  Verus, and every function states in its contract what it returns. Functions
  named `law_...` state what holds of several of them together.
- `tests/` runs the library on concrete values.
- `app/` is the program around it: windows, files, the proxy's sockets and
  certificates, and the database. It performs what the library decides and hands
  back what came of it.

## The library

| Module | What it decides |
|---|---|
| `cache_store` | cache keys, what may be stored, the files of an entry |
| `hook` | which requests are intercepted, ignored or passed by, and how they are answered |
| `http_fetcher` | the headers of a request that goes upstream |
| `mitm` | the proxy: requests, responses, learned hosts, trust in its certificate |
| `inject` | the headers of scripts, their order, and the dispatcher |
| `config` | which configuration is taken, and what it sets |
| `startup`, `window`, `dialog` | the order of the launch, windows, titles, the menu |
| `bootstrap`, `migrate` | files that are put in place at a launch |
| `storage`, `recent_urls` | what is kept from one session to the next |
| `updater` | whether a version is newer, and what the user is told |
| `util`, `text`, `json`, `headers`, `urls` | paths, texts, and the values of other crates |

Calls into other crates stand behind wrappers whose contracts are believed: a
header map holds what it is described to hold in `headers`, a URL has the parts
that the name `url_parse` gives it, and so on. Each wrapper says in its comment
which function it calls and what it claims of it.
