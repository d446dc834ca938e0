# rustboard

The verified core of a microservices dashboard: service records, Docker
discovery, SSH command construction, health decisions, job bookkeeping,
plugin naming, the command-line client's requests, and the reading of
the JSON answers the dashboard receives (parsed by `serde_json`, read by
verified code).

- `src/` is the library, written in Verus; every public function carries a
  contract that Verus proves.
- `tests/` exercises the library on concrete values.
- `app/` is the server, the command-line client and the key-tester plugin:
  the HTTP routes, file and network access, and the JSON and YAML encodings
  around the library.
