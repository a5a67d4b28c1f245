# maelstrom

A toolkit for writing [Maelstrom](https://github.com/jepsen-io/maelstrom) nodes, with three
nodes built on it: `echo`, `unique-ids` and `broadcast`.

The library under `src/` is written in Verus and holds the node's logic with its contracts:

- `json`: a structural model of JSON values (`Json`), with member lookup and update.
- `message`: node ids, message ids, headers and the reply route of a message.
- `node`: routing an incoming message by its type, taking batch envelopes apart and
  collecting their replies, and the table of handlers.
- `node::rpc`: the outbox — message id allocation, RPCs pending until their reply, what a
  shipping wake-up sends to a destination, reply batching, and the wire envelopes.
- `node::init`, `node::error`, `node::signal`, `node::state`: the `init` exchange, error
  replies, resend signals and handler state.
- `unique_ids`, `broadcast`, `echo`: the services.

`app/` is the asynchronous runtime around it (tokio tasks, stdin/stdout, serde_json text
conversion, handler plumbing) and the `main` that runs one of the three nodes:

```
maelstrom echo | maelstrom unique-ids | maelstrom broadcast
```

## Collections

Three maps are held as vectors of pairs, each with an invariant that no key occurs twice
(a type invariant, restated in the contracts):

- The pending RPCs of the outbox (`node::rpc::Outbox`), keyed by message id. A `HashMap`
  keyed by `u64` can be specified, but the order in which it is walked cannot be named,
  and the iterators over it are specified only as sets. The batch that a shipping
  wake-up sends could then be stated only up to order. As a vector, the outbox ships the
  oldest RPC first and every contract states the exact batch; inserting and removing
  behave as on a map (`field_insert`, `without`, `lemma_reply_undoes_send`). A `BTreeMap`
  would order RPCs by id, which differs from the order they were sent in once ids wrap.
- The broadcast topology (`broadcast::State`), keyed by node id, and the handler table
  (`node::Routes`), keyed by message type. Both keys are strings, and for a `HashMap`
  with string keys the specifications prove nothing of its contents. A topology that
  names a node twice keeps the neighbours given last, as building a map from the entries
  would (`keyed`, `lemma_keyed_lookup`).

The broadcast node's values are a `BTreeSet<u64>`: a value taken in twice is held once,
and a read returns the values in ascending order.
