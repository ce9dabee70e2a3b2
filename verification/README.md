# zudb_js

The JavaScript client of zu, an embedded graph database. A statement runs in the process
that called it, so what the client is about is values: an INT64 arrives as a `bigint`, a
node arrives as a node, a `Temporal` value binds as the zu value it is, and a failure
arrives with its GQLSTATUS, its position and whether it is worth retrying.

What the client decides is in `src/`, where Verus proves it. Every function there says in
its contract what it answers and which sentence it refuses a call with.

| module | what it decides |
| --- | --- |
| `js`, `text`, `number` | JavaScript values, words and numbers, as the rest reads them |
| `calendar`, `temporal` | dates and times, and `Temporal` both ways |
| `value` | which value of one side a value of the other is |
| `conn`, `cancel`, `error` | connections, statements, signals and exceptions |
| `txn`, `prepared`, `stream` | transactions, prepared statements and cursors |
| `buffer`, `append`, `load` | columns, rows written in bulk, and databases written whole |
| `frame`, `register` | tables read where they lie in a caller's arrays |
| `columns`, `arrow`, `plan` | results by column, as Arrow, and plans and profiles |

The functions named `law_...` state what holds of several of them together: that a value
comes back as it was bound, that a day and its date name each other, that a transaction
ends once, that a stop is heard by the statement it was meant for and by no other.

`app/` is the addon a runtime loads. It asks the runtime what a value is and the engine to
run a statement, and hands both to the library. `tests/` runs the library on values.
