# agentd

A local-first coordination engine for agents. Tasks are directed acyclic graphs of nodes; workers
lease nodes, report on them in a journal and complete or fail them. Beside that, agents take
exclusive, expiring locks on shared resources such as files.

The library under `src/` holds all of the rules and is verified with Verus:

- `ids`, `json`, `text`, `clock`: identifiers, JSON values, texts and durations
- `error`: failures of the store
- `rows`, `state`: the rows of the store, what they say, and what each change makes of them
- `graph`: which nodes make a task
- `db`, `registration`, `queries`, `opening`, `order`, `reports`: the store
- `schema`: how a database is brought up to the latest schema
- `coordinator`: handing out nodes, and counting
- `wire`, `interface`, `reader`, `ipc`: the protocol
- `env`: settings
- `laws`: what holds of the store whatever is asked of it
- `readable`: when every row of the store can be read, and that requests keep it so

The store is a set of tables in memory. The daemon under `app/` keeps them in SQLite: for each
request it opens a transaction, reads the rows, lets the library answer, writes the rows that
differ and commits. Time and random identifiers come in from outside as well; a function that draws
an identifier has a twin, ending in `_as`, that is given it.

A lease whose end does not fit a 64-bit column is refused. So is JSON nested more than 1000 levels
deep, which the tables do not take. A row that refers to a task that is gone is read as it stands,
and stands in the way of nothing but entries and locks for that task.
