# charm

Git-push-to-deploy for a single Linux VPS: a push builds a container and
Caddy serves it over HTTPS.

- `src/` is the verified library (Verus): the domain allowlist, the SSH key
  file, the deploy sequence and its planning from `Charm.toml`, address assignment, app listing and
  status, the Caddy routes and the requests that publish them, what an SSH
  session may do, the console's keys and detail panel, and every command line Charm runs, each with its
  contract; the laws that relate these functions are proof functions beside
  them (`law_*`).
- `app/` is the `charm` program around it: argument parsing, files,
  processes, Caddy's HTTP admin API and the terminal console.
- `tests/` runs the library on concrete values.
