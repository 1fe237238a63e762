# pgshard

Sharded PostgreSQL: the logic of a query router and of a per-instance agent, written in
Verus. Every function of the library states what it returns, and is proved to.

## Layout

- `src/` is the verified library.
  - `keyspace`, `shardfn`, `vschema`, `lsn`, `catalog`: keys, ranges, hashing, the sharding
    schema and who owns which key.
  - `ast`, `extract`, `plan`, `sequence`: from a parsed statement to the shards it touches.
  - `topology`, `router`, `wire`, `backend`, `merge`, `results`, `reserve`, `gate`: the router:
    routes, scatter and merge, results on the wire, sequence ids, and gates.
  - `pgoutput`, `stream`, `client`, `filter`, `copy`, `apply`: logical replication: decoding,
    the client's protocol, filtering by key range, the snapshot copy, and exactly-once apply.
  - `epoch`, `schema`, `instance`, `pg`, `status`, `service`, `workflow`, `preflight`,
    `seeding`: the agent and its seeding workflow.
  - `text`, `bytes`, `quote`, `slots`, `proto`: what these share.
- `tests/` runs the library on concrete values.
- `app/` is the programs around the library: sockets, databases, the SQL parser and the
  command line.

Steps that wait for a database or a socket are state machines: the library says what to do
next, the program does it and reports what came of it. Public proof functions named `law_...`
state what holds of the library as a whole.

What the library takes on trust from other crates stands in small functions marked
`external_body`, each with a comment that names the outside function and says what is claimed
of it.
