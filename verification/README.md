# terminus_rooms

Branchable rooms on a replicated log, verified with Verus.

A room is a log of signed entries by many writers, brought into one order. The
order is all that replicas share: each folds it into the same state. The log
knows nothing of branches; the envelope that every op rides in carries a branch
pointer, and one op forks a branch from it.

```
src/            the library
  op, envelope, json        what a payload means, byte for byte
  fold, tree, path, state   what it does to a room
  projection                the fold as a replica keeps it
  engine, bus, room_sync    what a serving node decides
  materialise               the documents of a room, and the writes for a change
  presence, http            announcements, requests and answers
  session, signal, client   websocket clients and the replica in a browser
  keys, text, text_map, table   what the rest is written with
  *_laws                    what holds of all this together
tests/          the library at work on concrete values
app/            the node around it: sockets, clocks, the database
```

The library does no input or output. A function that needs an answer from
outside either takes it as an argument or hands out the next step and is told how
it went.

What is believed without proof stands in functions marked
`#[verifier::external_body]`, each around one call: `hex::encode` and
`hex::decode`; `serde_json` for the strings, numbers and values inside a payload,
for the members of a frame and for a list of strings; `blake3::hash` and
`blake3::derive_key`; `iroh::EndpointId::from_bytes`; and the `Debug` form of a
`char`. `String::push` and `String::push_str` have specifications of their own.

Some of what the node promises:

- Every log leads to a room with `main`, with branches that were each forked from
  another branch and have what it had said before, messages in the order of the
  log, and files that form a tree (`fold_laws`).
- Going on from a checkpoint is replaying the whole log (`fold_laws`).
- What is encoded is decoded again (`envelope`).
- A move carries a whole subtree, and moving it back restores the tree
  (`tree_laws`).
- A parent branch is made in the database before its forks, and each branch once
  (`materialise_laws`).
- After its writes a branch of the database holds a document for every message,
  item and file of the branch of the room, also where entries of the log came in
  between those that were written before; and none of other items and files. The
  first writes of a fork save everything, whatever is there, and delete what only
  its parent has. As long as chats only grow, as in a finalized log, there are no
  other messages either (`materialise_laws`).
- This holds through every step of a sync that is carried out as asked for, and a
  step that failed is not noted (`room_sync`). Of a branch that was there before
  this node first saw it, nothing is known.
