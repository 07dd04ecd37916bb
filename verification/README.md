# etcd_store

A store of objects on an etcd server, with its logic proved in Verus.

The library (`src/`) does no I/O. It says what to ask the server and what the
answers mean; a caller sends the requests and hands the answers back.

- `store`: the keys under which objects are kept, and requests for single
  objects. `Create`, `Update` and `Delete` give a transaction and a call; the
  call's `Finish` reads the server's answer.
- `list`: the objects under a prefix, page by page. `List` gives a `ListCall`,
  whose phase says what it waits for: a token to be read, a page, a token to be
  written, or nothing.
- `range`: the order of keys, and the range of keys that share a prefix.
- `options`, `txn`: request options and transactions of the `etcd_client` crate.
- `types`, `text`: plain values, and text as UTF-8 bytes.
- `server`: laws on single objects and on clears: creates are exclusive, updates
  and deletes guarded, and a get gives back what was written.
- `changes`: laws that span what others write in between: of several updates that
  expect one revision at most one succeeds, and revisions grow.
- `paging`, `listing`: laws on lists: however many requests it takes, a list ends
  and holds the first matching objects of its range in the order of their keys,
  and lists that go on from each other's tokens hold every matching object once,
  as of one revision.
- `contents`: laws on what lists tell of the server's contents.

`app/` is the store on a live connection. It leaves the form of the objects, the
selectors and the tokens to a `Schema` of its caller.
