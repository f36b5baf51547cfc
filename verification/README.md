# dogpaddle_sink

Sinks of an incremental SQL engine: they keep a relation in a SQL database equal to the stream of
changes that flows into them. The library in `src/` holds the decisions of the sinks, in Rust with
contracts that Verus proves. `app/` connects it to Arrow, to a transactional store and to the
databases.

A change is a batch of rows, each with a difference: how many instances of the row enter or leave.
A sink gives every instance a technical ID of its own, so that a batch may be written twice and
takes effect once.

| Module | What it holds |
| --- | --- |
| `change` | schemas, values, record batches and changes |
| `relation` | row identity, ID allocation, planning, recovery, and the laws of exact multisets |
| `buffered` | the durable buffer between changes and a target, its codec, audit and delivery |
| `sqlite`, `postgres`, `clickhouse`, `doris` | definitions, layouts, statements, row codecs and replies of each database |
| `discard` | a sink that drops what it gets |
| `bytes`, `text`, `json`, `encoding`, `address`, `notation` | big-endian numbers, texts, JSON, base64 and numeric addresses |

The laws are the public proof functions whose names begin with `law_`. What is taken from outside
crates without proof stands behind functions marked `external_body`, each with a comment that says
what is claimed of it: BLAKE3 digests, JSON texts, base64, URLs with query pairs, and three
functions of the standard library.
