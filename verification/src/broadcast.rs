//! The broadcast service: values sent to any node are gossiped to every node, and `read`
//! returns all values a node has seen.

use std::collections::BTreeSet;
use vstd::prelude::*;
use vstd::std_specs::btree::{increasing_seq, spec_btree_keys_iter};
use vstd::laws_cmp::obeys_cmp;
use vstd::std_specs::cmp::OrdSpec;
use vstd::std_specs::iter::IteratorSpec;

use crate::json::{field_insert, field_lookup, first_index, lemma_first_index_bounds};
use crate::message::NodeId;
use crate::node::init::Ids;

verus! {

broadcast use vstd::std_specs::btree::group_btree_axioms, vstd::laws_cmp::group_laws_cmp;

/// What a broadcast node keeps: the set of values it has seen, and the last topology it
/// was told, each node of which appears once.
pub struct State {
    messages: BTreeSet<u64>,
    topology: Vec<(NodeId, Vec<NodeId>)>,
}

/// A topology by ids: each node's id with the ids of its neighbours.
pub open spec fn topology_view(t: Seq<(NodeId, Vec<NodeId>)>) -> Seq<(Seq<char>, Seq<Seq<char>>)> {
    t.map_values(|p: (NodeId, Vec<NodeId>)| (p.0@, node_views(p.1@)))
}

/// No key occurs twice.
pub open spec fn distinct_keys<K, V>(s: Seq<(K, V)>) -> bool {
    forall|i: int, j: int| 0 <= i < j < s.len() ==> #[trigger] s[i].0 != #[trigger] s[j].0
}

/// The map that a list of entries builds when each is inserted in turn, a later entry for a
/// key taking the place of an earlier one.
pub open spec fn keyed<K, V>(s: Seq<(K, V)>) -> Seq<(K, V)>
    decreases s.len(),
{
    if s.len() == 0 {
        Seq::empty()
    } else {
        field_insert(keyed(s.drop_last()), s.last().0, s.last().1)
    }
}

/// Each value at most once, in ascending order.
pub open spec fn ascending(s: Seq<u64>) -> bool {
    forall|i: int, j: int| 0 <= i < j < s.len() ==> s[i] < s[j]
}

impl State {
    #[verifier::type_invariant]
    spec fn nodes_appear_once(self) -> bool {
        distinct_keys(topology_view(self.topology@))
    }

    /// A node that has seen nothing and knows no topology.
    pub fn new() -> (res: State)
        ensures
            res.messages() == Set::<u64>::empty(),
            res.topology() == Seq::<(Seq<char>, Seq<Seq<char>>)>::empty(),
    {
        let res = State { messages: BTreeSet::new(), topology: Vec::new() };
        proof {
            assert(topology_view(res.topology@) =~= Seq::empty());
        }
        res
    }

    /// The values seen.
    pub closed spec fn messages(&self) -> Set<u64> {
        self.messages@
    }

    /// The last topology told: each node, once, with its neighbours.
    pub closed spec fn topology(&self) -> Seq<(Seq<char>, Seq<Seq<char>>)> {
        topology_view(self.topology@)
    }

    /// Adds `message` to the values seen.
    fn take_in(&mut self, message: u64)
        ensures
            final(self).messages() == old(self).messages().insert(message),
            final(self).topology() == old(self).topology(),
    {
        proof {
            use_type_invariant(&*self);
        }
        let mut seen = BTreeSet::new();
        std::mem::swap(&mut seen, &mut self.messages);
        seen.insert(message);
        self.messages = seen;
    }
}

/// Setting a key keeps the keys distinct.
pub proof fn lemma_field_insert_distinct<K, V>(s: Seq<(K, V)>, key: K, value: V)
    requires
        distinct_keys(s),
    ensures
        distinct_keys(field_insert(s, key, value)),
{
    lemma_first_index_bounds(s, key);
    let t = field_insert(s, key, value);
    assert forall|i: int, j: int| 0 <= i < j < t.len() implies #[trigger] t[i].0 != #[trigger] t[j].0 by {
        match first_index(s, key) {
            Some(k) => {
                if i == k {
                    assert(s[j].0 != s[k].0);
                } else if j == k {
                    assert(s[i].0 != s[k].0);
                } else {
                    assert(s[i].0 != s[j].0);
                }
            },
            None => {
                if j == s.len() {
                    assert(s[i].0 != key);
                } else {
                    assert(s[i].0 != s[j].0);
                }
            },
        }
    }
}

/// A map built entry by entry has every key once.
pub proof fn lemma_keyed_distinct<K, V>(s: Seq<(K, V)>)
    ensures
        distinct_keys(keyed(s)),
    decreases s.len(),
{
    if s.len() > 0 {
        lemma_keyed_distinct(s.drop_last());
        lemma_field_insert_distinct(keyed(s.drop_last()), s.last().0, s.last().1);
    }
}

/// In a map built entry by entry, a key is found with the value of the last entry that
/// names it, and a key that no entry names is not found.
pub proof fn lemma_keyed_lookup<K, V>(s: Seq<(K, V)>, key: K, i: int)
    ensures
        0 <= i < s.len() && s[i].0 == key && (forall|j: int| i < j < s.len() ==> #[trigger] s[j].0
            != key) ==> field_lookup(keyed(s), key) == Some(s[i].1),
        (forall|j: int| 0 <= j < s.len() ==> #[trigger] s[j].0 != key) ==> field_lookup(
            keyed(s),
            key,
        ) is None,
    decreases s.len(),
{
    if s.len() > 0 {
        let prev = s.drop_last();
        let n = s.len() - 1;
        lemma_keyed_lookup(prev, key, i);
        if s[n].0 == key {
            crate::json::lemma_field_insert_lookup(keyed(prev), key, s[n].1);
        } else {
            crate::json::lemma_field_insert_other(keyed(prev), s[n].0, s[n].1, key);
            if 0 <= i < s.len() && s[i].0 == key && (forall|j: int| i < j < s.len() ==> #[trigger] s[j].0 != key) {
                assert forall|j: int| i < j < prev.len() implies #[trigger] prev[j].0 != key by {
                    assert(s[j].0 != key);
                }
            }
            if forall|j: int| 0 <= j < s.len() ==> #[trigger] s[j].0 != key {
                assert forall|j: int| 0 <= j < prev.len() implies #[trigger] prev[j].0 != key by {
                    assert(s[j].0 != key);
                }
            }
        }
    }
}

/// Tells a node the cluster's topology: each node with its neighbours.
#[derive(Debug, Default)]
pub struct Topology {
    pub topology: Vec<(NodeId, Vec<NodeId>)>,
}

/// The reply to [`Topology`].
#[derive(Debug, Default)]
pub struct TopologyOk {}

/// Sets `key` to `value` in a list of distinct keys: in place where the key is present,
/// as a new last entry where it is not.
fn set_neighbours(list: &mut Vec<(NodeId, Vec<NodeId>)>, key: NodeId, value: Vec<NodeId>)
    ensures
        topology_view(final(list)@) == field_insert(topology_view(old(list)@), key@, node_views(value@)),
{
    let ghost before = topology_view(list@);
    let ghost kv = key@;
    let mut i: usize = 0;
    while i < list.len()
        invariant
            i <= list.len(),
            before == topology_view(list@),
            before == topology_view(old(list)@),
            kv == key@,
            forall|j: int| 0 <= j < i ==> (#[trigger] before[j]).0 != kv,
        decreases list.len() - i,
    {
        assert(before[i as int] == (list@[i as int].0@, node_views(list@[i as int].1@)));
        if list[i].0 == key {
            proof {
                assert(before[i as int].0 == kv);
                crate::json::lemma_first_index_unique(before, kv, i as int);
            }
            let ghost vv = node_views(value@);
            list.set(i, (key, value));
            proof {
                assert(topology_view(list@) =~= before.update(i as int, (kv, vv)));
            }
            return;
        }
        i = i + 1;
    }
    proof {
        crate::json::lemma_first_index_none(before, kv);
    }
    let ghost vv = node_views(value@);
    list.push((key, value));
    proof {
        assert(topology_view(list@) =~= before.push((kv, vv)));
    }
}

/// Keeps the topology a node is told, in place of the one it knew. A node named twice
/// keeps the neighbours given last, as a map built from the entries would.
pub fn topology(state: &mut State, req: Topology) -> (res: TopologyOk)
    ensures
        final(state).topology() == keyed(topology_view(req.topology@)),
        distinct_keys(final(state).topology()),
        final(state).messages() == old(state).messages(),
{
    let ghost all = topology_view(req.topology@);
    let mut rest = req.topology;
    let mut built: Vec<(NodeId, Vec<NodeId>)> = Vec::new();
    let ghost n = rest.len() as int;
    proof {
        assert(topology_view(built@) =~= keyed(all.take(0)));
    }
    while rest.len() > 0
        invariant
            n == all.len(),
            rest.len() <= n,
            topology_view(rest@) == all.skip(n - rest.len()),
            topology_view(built@) == keyed(all.take(n - rest.len())),
        decreases rest.len(),
    {
        let ghost done = n - rest.len();
        let ghost old_rest = rest@;
        let (key, value) = rest.remove(0);
        proof {
            assert(topology_view(rest@) =~= topology_view(old_rest).skip(1));
            assert(all.skip(done).skip(1) =~= all.skip(done + 1));
            assert(all[done] == (key@, node_views(value@))) by {
                assert(all.skip(done)[0] == all[done]);
            }
            assert(all.take(done + 1).drop_last() =~= all.take(done));
        }
        set_neighbours(&mut built, key, value);
    }
    proof {
        assert(all.take(n) =~= all);
        lemma_keyed_distinct(all);
    }
    state.topology = built;
    TopologyOk {}
}

/// Asks a node for every value it has seen.
#[derive(Debug, Default)]
pub struct Read {}

/// The reply to [`Read`].
#[derive(Debug, Default)]
pub struct ReadOk {
    pub messages: Vec<u64>,
}

impl Read {
    pub fn ok(self, messages: Vec<u64>) -> (res: ReadOk)
        ensures
            res.messages == messages,
    {
        ReadOk { messages }
    }
}

/// Answers a read with every value the node has seen, each once, in ascending order.
pub fn read(state: &State, req: Read) -> (res: ReadOk)
    ensures
        res.messages@.to_set() == state.messages(),
        ascending(res.messages@),
{
    let ghost items = spec_btree_keys_iter(&state.messages).remaining();
    let mut out: Vec<u64> = Vec::new();
    for x in it: state.messages.iter()
        invariant
            it.seq() == items,
            out.len() == it.index(),
            forall|k: int| 0 <= k < it.index() ==> out@[k] == *items[k],
    {
        out.push(*x);
    }
    proof {
        assert(out@ =~= items.unref());
        lemma_increasing_is_ascending(items);
    }
    req.ok(out)
}

/// The keys of a set, walked in increasing order, ascend.
proof fn lemma_increasing_is_ascending(items: Seq<&u64>)
    requires
        increasing_seq(items),
    ensures
        ascending(items.unref()),
{
    assert(obeys_cmp::<u64>());
    assert(obeys_cmp::<&u64>());
    assert forall|i: int, j: int| 0 <= i < j < items.len() implies items.unref()[i] < items.unref()[j] by {
        assert(OrdSpec::cmp_spec(&items[i], &items[j]) is Less);
    }
}

/// A value sent to the cluster through one node.
#[derive(Debug, Default)]
pub struct Broadcast {
    pub message: u64,
}

/// The reply to [`Broadcast`].
#[derive(Debug, Default)]
pub struct BroadcastOk {}

/// The internal RPC that carries a value to another node.
#[derive(Clone, Copy, Debug)]
pub struct Replicate {
    pub message: u64,
}

/// The reply to [`Replicate`].
#[derive(Debug)]
pub struct ReplicateOk {}

impl Replicate {
    pub fn ok(self) -> (res: ReplicateOk) {
        ReplicateOk {}
    }
}

/// An RPC to send: from `src` to `dest`, carrying `body`.
#[derive(Debug)]
pub struct Outgoing {
    pub src: NodeId,
    pub dest: NodeId,
    pub body: Replicate,
}

/// The nodes of `ids` other than `me`, in order.
pub open spec fn peers(ids: Seq<Seq<char>>, me: Seq<char>) -> Seq<Seq<char>>
    decreases ids.len(),
{
    if ids.len() == 0 {
        Seq::empty()
    } else {
        let prev = peers(ids.drop_last(), me);
        if ids.last() == me {
            prev
        } else {
            prev.push(ids.last())
        }
    }
}

/// The ids of a sequence of nodes.
pub open spec fn node_views(ids: Seq<NodeId>) -> Seq<Seq<char>> {
    ids.map_values(|n: NodeId| n@)
}

/// The RPCs that carry `message` from this node to every other node of the cluster, one
/// each, in the order of the cluster's ids.
pub fn replicate_message(ids: &Ids, message: u64) -> (res: Vec<Outgoing>)
    ensures
        res@.map_values(|o: Outgoing| o.dest@) == peers(node_views(ids.ids@), ids.id@),
        forall|k: int|
            0 <= k < res@.len() ==> (#[trigger] res@[k]).src@ == ids.id@ && res@[k].body.message
                == message,
{
    let ghost all = node_views(ids.ids@);
    let mut out: Vec<Outgoing> = Vec::new();
    let mut i: usize = 0;
    while i < ids.ids.len()
        invariant
            i <= ids.ids.len(),
            all == node_views(ids.ids@),
            out@.map_values(|o: Outgoing| o.dest@) == peers(all.take(i as int), ids.id@),
            forall|k: int|
                0 <= k < out@.len() ==> (#[trigger] out@[k]).src@ == ids.id@
                    && out@[k].body.message == message,
        decreases ids.ids.len() - i,
    {
        proof {
            assert(all.take(i + 1).drop_last() =~= all.take(i as int));
        }
        if ids.ids[i] != ids.id {
            let o = Outgoing { src: ids.id.clone(), dest: ids.ids[i].clone(), body: Replicate { message } };
            let ghost before = out@;
            out.push(o);
            proof {
                assert(out@.map_values(|o: Outgoing| o.dest@) =~= before.map_values(
                    |o: Outgoing| o.dest@,
                ).push(all[i as int]));
            }
        }
        i = i + 1;
    }
    proof {
        assert(all.take(ids.ids.len() as int) =~= all);
    }
    out
}

/// Takes in a value sent to the cluster through this node: the node keeps it, and it goes
/// on to every other node.
pub fn broadcast(state: &mut State, ids: &Ids, req: Broadcast) -> (res: (BroadcastOk, Vec<Outgoing>))
    ensures
        final(state).messages() == old(state).messages().insert(req.message),
        final(state).topology() == old(state).topology(),
        res.1@.map_values(|o: Outgoing| o.dest@) == peers(node_views(ids.ids@), ids.id@),
        forall|k: int|
            0 <= k < res.1@.len() ==> (#[trigger] res.1@[k]).src@ == ids.id@ && res.1@[k].body.message
                == req.message,
{
    state.take_in(req.message);
    (BroadcastOk {}, replicate_message(ids, req.message))
}

/// Takes in a value that another node passed on.
pub fn replicate(state: &mut State, req: Replicate) -> (res: ReplicateOk)
    ensures
        final(state).messages() == old(state).messages().insert(req.message),
        final(state).topology() == old(state).topology(),
{
    state.take_in(req.message);
    req.ok()
}

/// No value is lost: once a node takes a value in, by broadcast or replication, every later
/// read returns it, along with every value the node held before.
pub proof fn lemma_taken_in_is_read(before: Set<u64>, message: u64)
    ensures
        before.insert(message).contains(message),
        before.subset_of(before.insert(message)),
{
}

/// Values are idempotent: taking in a value the node already holds, such as a resent
/// replicate, leaves what it holds unchanged, so a second copy of a value is absorbed.
pub proof fn lemma_take_in_idempotent(before: Set<u64>, message: u64)
    ensures
        before.insert(message).insert(message) == before.insert(message),
        before.contains(message) ==> before.insert(message) == before,
{
    assert(before.insert(message).insert(message) =~= before.insert(message));
    if before.contains(message) {
        assert(before.insert(message) =~= before);
    }
}

/// A read's answer is determined by the set of values seen: two ascending lists of the
/// same values are the same list.
pub proof fn lemma_ascending_unique(a: Seq<u64>, b: Seq<u64>)
    requires
        ascending(a),
        ascending(b),
        a.to_set() == b.to_set(),
    ensures
        a == b,
    decreases a.len(),
{
    if a.len() == 0 {
        if b.len() > 0 {
            assert(b.to_set().contains(b[0]));
        }
    } else if b.len() == 0 {
        assert(a.to_set().contains(a[0]));
    } else {
        assert(a.to_set().contains(a[0]));
        assert(b.to_set().contains(b[0]));
        let i = choose|i: int| 0 <= i < b.len() && b[i] == a[0];
        let j = choose|j: int| 0 <= j < a.len() && a[j] == b[0];
        if i > 0 {
            assert(b[0] < b[i]);
        }
        if j > 0 {
            assert(a[0] < a[j]);
        }
        assert(a[0] == b[0]);
        let ta = a.drop_first();
        let tb = b.drop_first();
        assert forall|x: u64| ta.to_set().contains(x) implies tb.to_set().contains(x) by {
            let k = choose|k: int| 0 <= k < ta.len() && ta[k] == x;
            assert(a[k + 1] == x);
            assert(a.to_set().contains(x));
            let m = choose|m: int| 0 <= m < b.len() && b[m] == x;
            assert(a[0] < a[k + 1]);
            assert(m != 0);
            assert(tb[m - 1] == x);
        }
        assert forall|x: u64| tb.to_set().contains(x) implies ta.to_set().contains(x) by {
            let k = choose|k: int| 0 <= k < tb.len() && tb[k] == x;
            assert(b[k + 1] == x);
            assert(b.to_set().contains(x));
            let m = choose|m: int| 0 <= m < a.len() && a[m] == x;
            assert(b[0] < b[k + 1]);
            assert(m != 0);
            assert(ta[m - 1] == x);
        }
        assert(ta.to_set() =~= tb.to_set());
        lemma_ascending_unique(ta, tb);
        assert(a =~= b) by {
            assert forall|k: int| 0 <= k < a.len() implies a[k] == b[k] by {
                if k > 0 {
                    assert(ta[k - 1] == tb[k - 1]);
                }
            }
        }
    }
}

/// A value broadcast through a node goes to every other node of the cluster, and never back
/// to the node itself.
pub proof fn lemma_peers(ids: Seq<Seq<char>>, me: Seq<char>)
    ensures
        !peers(ids, me).contains(me),
        forall|i: int| 0 <= i < ids.len() && ids[i] != me ==> peers(ids, me).contains(#[trigger] ids[i]),
        forall|x: Seq<char>| peers(ids, me).contains(x) ==> ids.contains(x),
    decreases ids.len(),
{
    if ids.len() > 0 {
        let prev = ids.drop_last();
        lemma_peers(prev, me);
        let p = peers(prev, me);
        assert forall|i: int| 0 <= i < ids.len() && ids[i] != me implies peers(ids, me).contains(
            #[trigger] ids[i],
        ) by {
            if i < ids.len() - 1 {
                assert(prev[i] == ids[i]);
                let k = choose|k: int| 0 <= k < p.len() && p[k] == prev[i];
                if ids.last() != me {
                    assert(peers(ids, me)[k] == ids[i]);
                }
            } else {
                assert(peers(ids, me)[p.len() as int] == ids[i]);
            }
        }
        assert forall|x: Seq<char>| peers(ids, me).contains(x) implies ids.contains(x) by {
            let k = choose|k: int| 0 <= k < peers(ids, me).len() && peers(ids, me)[k] == x;
            if k < p.len() {
                assert(peers(ids, me)[k] == p[k]);
                assert(p.contains(x));
                assert(prev.contains(x));
                let j = choose|j: int| 0 <= j < prev.len() && prev[j] == x;
                assert(prev[j] == ids[j]);
                assert(ids.contains(x));
            } else {
                assert(ids[ids.len() - 1] == x);
            }
        }
        if peers(ids, me).contains(me) {
            let k = choose|k: int| 0 <= k < peers(ids, me).len() && peers(ids, me)[k] == me;
            if k < p.len() {
                assert(p[k] == me);
            }
        }
    }
}

} // verus!
