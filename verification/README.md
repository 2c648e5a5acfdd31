# agentero

The verified core of the Agentero research-vault assistant, written in Verus.

`src/` is the library; every function in it carries a contract that Verus
proves:

- `text` — character-sequence helpers (search, trim, split, replace, decimal
  and byte-length arithmetic) with `Seq<char>` specifications.
- `venues` — per-publisher landing-page to PDF-URL derivations, each keyed
  to its publisher's host, and their dispatcher.
- `scholar` — canonical arXiv / DOI URLs and the alphaXiv record mapper.
- `citation` — agent citation links: parsing the link and fragment, section
  numbers (arabic and roman), heading similarity, and choosing the layout
  region or sidebar entry a fragment points at, and the vault-relative path
  guard.
- `prompt` — the per-turn prompt envelope and the recovery of the user's
  request from a stored turn.
- `session` — reasoning-effort resolution, the steps that apply a preferred
  model and collaboration mode to a new session, the warm connection pool's
  slot map, and how idle connections answer permission requests.
- `doctor` — what host probes (`--version`, login status, installs) mean.
- `web` — the proxy's host allowlist, request routing and refusals, the
  answer to an upstream reply, and document rewriting.

`app/` holds what Verus does not see: reading vault files, running child
processes, the process-wide allowlist and the JSON payload types. `tests/`
exercises the library on concrete values.
