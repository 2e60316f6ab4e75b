# nx_k8s_cache

A self-hosted remote cache server for Nx workspaces, written as a Verus
library (`src/`) and a thin server around it (`app/`).

The library holds what the server decides, each function with a contract
that Verus proves:

- `config` — security levels and the configuration read from environment
  values (token rules, backend choice, limits, eviction, namespace lists);
- `auth`, `k8s` — bearer tokens, the static token check (plain or constant
  time, with the same answer), and the reading of Kubernetes TokenReview
  answers;
- `tracker` — per-address counting of authentication failures, in one
  `HashMap` for IPv4 and one for IPv6 addresses;
- `cache` — where entries and their SHA-256 sidecars live, what each step of
  a read or write does next, and which entries an eviction pass removes;
- `digest` — SHA-256 digests as lowercase hexadecimal text;
- `gate` — the checks a `PUT`/`GET /v1/cache/{hash}` request passes before
  it reaches the store, in order, and the replies;
- `laws` — properties that span several operations.

The server in `app/` reads the environment, performs the file, object store,
Kubernetes and HTTP work that the library's steps name, and exports metrics.
