# Object store

A distributed object store whose rules are verified with Verus. Objects are cut
into chunks; chunks lie on storage nodes; metadata servers, arranged on a
consistent hash ring, know which chunks make an object and where they are.

- `src/` is the verified library: the hash ring, the metadata store and its
  service, the layout of the chunk file, the steps of every upload, download,
  listing and deletion, replication, retries and configuration.
- `app/` is the program around it: one binary that runs as a gateway, a metadata
  server, a storage node or the replication service. It does the input and
  output, and asks the library what to do next.
- `tests/` runs the library from outside.

What takes several requests is a state machine in the library: `stage()` says
what is to be done next, and the outcome is handed back by one of the `on_`
methods. Each step is specified by a function on the machine's view, and the
properties of whole runs are proved of those functions.
