# bastion

The core of an API gateway, written in Verus: routing, load balancing,
response caching, rate limiting, circuit breaking, health tracking, retry
back-off, the request checks of the middleware chain, metrics and their
Prometheus exposition, and the alert rules of the operators' chat bot.
Verus proves every function in `src/` against its contract; the public
ones state what they return and how they change their arguments.

Layout:

- `src/` — the library.  Each module states its data as a mathematical
  model (spec functions and views) and proves its operations against it;
  the properties that span several operations are public proof functions
  named `law_*`.  Calls into outside crates (hashing, randomness, the clock,
  hash maps, histograms, network parsing, token signatures) go through small trusted items
  whose contracts say what the outside code does.
- `tests/` — ordinary tests that run the library.
- `app/` — the program around the library: the HTTP servers, the
  middleware plumbing over `hyper`, configuration files,
  dashboards and the chat bot.  It hands the library plain values and acts
  on its decisions.
