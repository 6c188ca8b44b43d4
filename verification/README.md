# slatedb_objects

Versioned objects in an object store, the boundary that guards their ids, and the garbage
collection of what they leave behind. The library in `src/` is verified with Verus; it does no
input or output. Every operation is a sequence of steps: a step hands out a request to the store,
or gives the result, and the reply to the request is the argument of the next step. `app/` runs the
steps against an object store.

| Module | What it holds |
| --- | --- |
| `protocol`, `latest` | the versions of one object: writing, reading, listing, deleting, and finding the latest version without a listing |
| `boundary` | the boundary that ids of new versions must lie above |
| `compactions_gc`, `wal_gc`, `gc` | which files the garbage collectors delete |
| `read_laws`, `boundary_laws`, `boundary_history`, `gc_laws` | what holds of whole operations, proved from the contracts of their steps |
| `naming`, `path`, `listing` | names of versions, paths of objects, and listings of directories |
| `store`, `error`, `id`, `time`, `decimal`, `text` | requests and replies, failures, ids, points in time, numbers and text |
