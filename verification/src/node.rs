//! A node's machinery: the outgoing RPC outbox, request routing and batching, and the
//! small protocol messages every node understands.

pub mod error;
pub mod init;
pub mod signal;
pub mod rpc;
pub mod state;

use vstd::prelude::*;

use crate::json::{member, parse_json, parsed_json, Json, JsonView};
use crate::message::{opt_id, view_as_u64, Message, MsgId, NodeId, Type};
use crate::node::rpc::{envelope_single, single_view, views};

verus! {

/// What a node does with an incoming message, decided from its headers alone.
#[derive(Debug, PartialEq, Eq, Structural)]
pub enum Route {
    /// A `batch` envelope: each body inside it is dispatched on its own.
    Batch,
    /// The `init` request that names the node and its peers.
    Init,
    /// An `error` reply to one of the node's RPCs (or to nothing).
    Error,
    /// Anything else goes to the handler registered for its type. When the message answers
    /// an RPC of the node, its id is reported to the outbox first.
    Handler { notify: Option<MsgId> },
}

/// The route of a message with body type `type_`, answering `in_reply_to`.
pub open spec fn route_of(type_: Seq<char>, in_reply_to: Option<MsgId>) -> Route {
    if type_ == "batch"@ {
        Route::Batch
    } else if type_ == "init"@ {
        Route::Init
    } else if type_ == "error"@ {
        Route::Error
    } else {
        Route::Handler { notify: in_reply_to }
    }
}

/// Every message other than a batch, an `init` or an `error` goes to its handler, and the
/// outbox is told of the RPC it answers whenever it names one in `in_reply_to`, whatever its
/// type; a batch, an `init` and an `error` each have a path of their own.
pub proof fn lemma_route_reports_every_reply(type_: Seq<char>, in_reply_to: Option<MsgId>)
    ensures
        type_ != "batch"@ && type_ != "init"@ && type_ != "error"@ ==> route_of(type_, in_reply_to)
            == (Route::Handler { notify: in_reply_to }),
        type_ == "batch"@ ==> route_of(type_, in_reply_to) == Route::Batch,
        type_ == "init"@ ==> route_of(type_, in_reply_to) == Route::Init,
        type_ == "error"@ ==> route_of(type_, in_reply_to) == Route::Error,
{
    reveal_strlit("batch");
    reveal_strlit("init");
    reveal_strlit("error");
    assert("init"@.len() != "batch"@.len());
    assert("error"@[0] != "batch"@[0]);
    assert("error"@.len() != "init"@.len());
}

/// Decides what a node does with a message, from its headers.
pub fn route(headers: &Message<Type>) -> (res: Route)
    ensures
        res == route_of(headers.headers.body.type_@, headers.headers.in_reply_to),
{
    let t = &headers.headers.body.type_;
    if *t == "batch".to_owned() {
        Route::Batch
    } else if *t == "init".to_owned() {
        Route::Init
    } else if *t == "error".to_owned() {
        Route::Error
    } else {
        Route::Handler { notify: headers.headers.in_reply_to }
    }
}

/// Whether a handler's reply is empty: `null` means that there is nothing to send back.
pub fn null_body(raw_out: &Json) -> (res: bool)
    ensures
        res == (raw_out@ == JsonView::Null),
{
    raw_out.is_null()
}

/// The text of the member `key`, when it is a JSON string.
pub open spec fn str_member(j: JsonView, key: Seq<char>) -> Option<Seq<char>> {
    match member(j, key) {
        Some(JsonView::Str(s)) => Some(s),
        _ => None,
    }
}

/// The non-negative integer of the member `key`, when it is one.
pub open spec fn id_member(j: JsonView, key: Seq<char>) -> Option<u64> {
    match member(j, key) {
        Some(v) => view_as_u64(v),
        None => None,
    }
}

/// The bodies a batch envelope carries: `body.bodies` when it is an array, none otherwise.
pub open spec fn batch_bodies(full: JsonView) -> Seq<JsonView> {
    match member(full, "body"@) {
        Some(b) => match member(b, "bodies"@) {
            Some(JsonView::Array(items)) => items,
            _ => Seq::empty(),
        },
        None => Seq::empty(),
    }
}

/// A batch envelope taken apart.
#[derive(Debug)]
pub struct Batch {
    pub src: NodeId,
    pub dest: NodeId,
    pub bodies: Vec<Json>,
}

/// Why a batch envelope could not be taken apart.
#[derive(Debug, PartialEq, Eq, Structural)]
pub enum BatchError {
    /// `src` is missing or is not a string.
    MissingSrc,
    /// `dest` is missing or is not a string.
    MissingDest,
    /// The text is not a JSON value.
    NotJson,
}

/// Takes a batch envelope apart: its sender, its destination and the bodies it carries.
pub fn open_batch(full: &Json) -> (res: Result<Batch, BatchError>)
    ensures
        match (str_member(full@, "src"@), str_member(full@, "dest"@)) {
            (None, _) => res == Err::<Batch, BatchError>(BatchError::MissingSrc),
            (Some(_), None) => res == Err::<Batch, BatchError>(BatchError::MissingDest),
            (Some(s), Some(d)) => res matches Ok(b) && b.src@ == s && b.dest@ == d
                && crate::node::rpc::views(b.bodies@) == batch_bodies(full@),
        },
{
    let src = match full.get("src") {
        Some(Json::Str(s)) => NodeId(s.clone()),
        _ => {
            return Err(BatchError::MissingSrc);
        },
    };
    let dest = match full.get("dest") {
        Some(Json::Str(s)) => NodeId(s.clone()),
        _ => {
            return Err(BatchError::MissingDest);
        },
    };
    let mut bodies: Vec<Json> = Vec::new();
    match full.get("body") {
        Some(body) => match body.get("bodies") {
            Some(Json::Array(items)) => {
                let ghost iv = crate::node::rpc::views(items@);
                let mut i: usize = 0;
                while i < items.len()
                    invariant
                        i <= items.len(),
                        iv == crate::node::rpc::views(items@),
                        crate::node::rpc::views(bodies@) == iv.take(i as int),
                    decreases items.len() - i,
                {
                    let c = items[i].deep_copy();
                    let ghost before = bodies@;
                    bodies.push(c);
                    proof {
                        assert(crate::node::rpc::views(bodies@) =~= crate::node::rpc::views(
                            before,
                        ).push(c@));
                        assert(iv.take(i + 1) =~= iv.take(i as int).push(iv[i as int]));
                    }
                    i = i + 1;
                }
                proof {
                    assert(iv.take(items.len() as int) =~= iv);
                    crate::json::lemma_items_view_map(items@);
                }
            },
            _ => {},
        },
        None => {},
    }
    proof {
        assert(crate::node::rpc::views(bodies@) =~= batch_bodies(full@));
    }
    Ok(Batch { src, dest, bodies })
}

/// What to do with one body of a batch.
#[derive(Debug)]
pub struct InnerPlan {
    /// The RPC this body answers, to report to the outbox, when the body is a well-formed
    /// reply.
    pub notify: Option<MsgId>,
    /// The type of the body, which names its handler; a body without one is not handled.
    pub handler: Option<String>,
    /// The body as a message of its own, the form handlers take.
    pub request: Json,
    /// The id of the body, which its reply answers; a body without one gets no reply.
    pub reply_to: Option<MsgId>,
}

/// The RPC a batched body answers: its `in_reply_to`, provided the body also has an id of
/// its own and so reads as a message.
pub open spec fn notify_of(inner: JsonView) -> Option<u64> {
    if id_member(inner, "in_reply_to"@) is Some && id_member(inner, "msg_id"@) is Some {
        id_member(inner, "in_reply_to"@)
    } else {
        None
    }
}

/// A batched body that reads as a message (it has a `msg_id`) and answers an RPC (it has
/// an `in_reply_to`) is reported to the outbox as answering that RPC, however its two ids
/// compare; a body without an id of its own reports nothing.
pub proof fn lemma_every_batched_reply_is_reported(inner: JsonView)
    ensures
        id_member(inner, "msg_id"@) is Some ==> notify_of(inner) == id_member(inner, "in_reply_to"@),
        id_member(inner, "msg_id"@) is None ==> notify_of(inner) is None,
{
}

/// Plans the dispatch of one body of a batch sent from `src` to `dest`.
pub fn plan_inner(src: &NodeId, dest: &NodeId, inner: Json) -> (res: InnerPlan)
    ensures
        opt_id(res.notify) == notify_of(inner@),
        id_member(inner@, "msg_id"@) is Some ==> opt_id(res.notify) == id_member(
            inner@,
            "in_reply_to"@,
        ),
        id_member(inner@, "msg_id"@) is None ==> res.notify is None,
        match res.handler {
            Some(t) => str_member(inner@, "type"@) == Some(t@),
            None => str_member(inner@, "type"@) is None,
        },
        res.request@ == single_view(src@, dest@, inner@),
        opt_id(res.reply_to) == id_member(inner@, "msg_id"@),
{
    let in_reply_to = match inner.get("in_reply_to") {
        Some(v) => MsgId::from_json(v),
        None => None,
    };
    let reply_to = match inner.get("msg_id") {
        Some(v) => MsgId::from_json(v),
        None => None,
    };
    let notify = match (in_reply_to, reply_to) {
        (Some(r), Some(_)) => Some(r),
        _ => None,
    };
    let handler = match inner.get("type") {
        Some(Json::Str(t)) => Some(t.clone()),
        _ => None,
    };
    let request = envelope_single(src, dest, inner);
    InnerPlan { notify, handler, request, reply_to }
}

/// Keeps the reply to a batched body, paired with the id of the body it answers. Empty
/// (`null`) replies, and replies to bodies without an id, are dropped.
pub fn collect_reply(replies: &mut Vec<(MsgId, Json)>, reply_to: Option<MsgId>, reply: Json)
    ensures
        match reply_to {
            Some(id) => if reply@ == JsonView::Null {
                final(replies)@ == old(replies)@
            } else {
                final(replies)@ == old(replies)@.push((id, reply))
            },
            None => final(replies)@ == old(replies)@,
        },
{
    match reply_to {
        Some(id) => {
            if !null_body(&reply) {
                replies.push((id, reply));
            }
        },
        None => {},
    }
}

/// The dispatch of a batch under way: the bodies it carries, how many have been taken up,
/// and the replies collected so far.
pub struct BatchRun {
    src: NodeId,
    dest: NodeId,
    bodies: Vec<Json>,
    next: usize,
    reply_to: Option<MsgId>,
    replies: Vec<(MsgId, Json)>,
}

/// A batch dispatch under way, seen mathematically.
pub struct BatchRunView {
    pub src: Seq<char>,
    pub dest: Seq<char>,
    pub bodies: Seq<JsonView>,
    pub next: nat,
    pub reply_to: Option<MsgId>,
    pub replies: Seq<(MsgId, Json)>,
}

impl View for BatchRun {
    type V = BatchRunView;

    closed spec fn view(&self) -> BatchRunView {
        BatchRunView {
            src: self.src@,
            dest: self.dest@,
            bodies: views(self.bodies@),
            next: self.next as nat,
            reply_to: self.reply_to,
            replies: self.replies@,
        }
    }
}

impl BatchRun {
    #[verifier::type_invariant]
    closed spec fn wf(self) -> bool {
        self.next <= self.bodies.len()
    }

    /// Starts the dispatch of a batch envelope: no body taken up yet, no reply collected.
    pub fn open(full: &Json) -> (res: Result<BatchRun, BatchError>)
        ensures
            match (str_member(full@, "src"@), str_member(full@, "dest"@)) {
                (None, _) => res == Err::<BatchRun, BatchError>(BatchError::MissingSrc),
                (Some(_), None) => res == Err::<BatchRun, BatchError>(BatchError::MissingDest),
                (Some(s), Some(d)) => res matches Ok(r) && r@ == (BatchRunView {
                    src: s,
                    dest: d,
                    bodies: batch_bodies(full@),
                    next: 0,
                    reply_to: None,
                    replies: Seq::empty(),
                }),
            },
    {
        let b = open_batch(full)?;
        let res = BatchRun {
            src: b.src,
            dest: b.dest,
            bodies: b.bodies,
            next: 0,
            reply_to: None,
            replies: Vec::new(),
        };
        proof {
            assert(res@.replies =~= Seq::<(MsgId, Json)>::empty());
        }
        Ok(res)
    }

    /// Takes up the next body, in the order of the batch: the plan of its dispatch. Once
    /// every body has been taken up, nothing is left.
    pub fn next_body(&mut self) -> (res: Option<InnerPlan>)
        ensures
            final(self)@.src == old(self)@.src,
            final(self)@.dest == old(self)@.dest,
            final(self)@.bodies == old(self)@.bodies,
            final(self)@.replies == old(self)@.replies,
            old(self)@.next >= old(self)@.bodies.len() ==> res is None && final(self)@ == old(
                self,
            )@,
            old(self)@.next < old(self)@.bodies.len() ==> {
                let inner = old(self)@.bodies[old(self)@.next as int];
                &&& final(self)@.next == old(self)@.next + 1
                &&& opt_id(final(self)@.reply_to) == id_member(inner, "msg_id"@)
                &&& res matches Some(p) && opt_id(p.notify) == notify_of(inner)
                    && p.request@ == single_view(old(self)@.src, old(self)@.dest, inner)
                    && opt_id(p.reply_to) == id_member(inner, "msg_id"@) && match p.handler {
                    Some(t) => str_member(inner, "type"@) == Some(t@),
                    None => str_member(inner, "type"@) is None,
                }
            },
    {
        proof {
            use_type_invariant(&*self);
        }
        if self.next >= self.bodies.len() {
            return None;
        }
        let inner = self.bodies[self.next].deep_copy();
        let plan = plan_inner(&self.src, &self.dest, inner);
        self.reply_to = plan.reply_to;
        self.next = self.next + 1;
        Some(plan)
    }

    /// Records the reply of the handler of the body last taken up. It is kept unless it is
    /// `null` or that body has no id to answer.
    pub fn answer(&mut self, reply: Json)
        ensures
            final(self)@.src == old(self)@.src,
            final(self)@.dest == old(self)@.dest,
            final(self)@.bodies == old(self)@.bodies,
            final(self)@.next == old(self)@.next,
            final(self)@.reply_to == old(self)@.reply_to,
            match old(self)@.reply_to {
                Some(id) => if reply@ == JsonView::Null {
                    final(self)@.replies == old(self)@.replies
                } else {
                    final(self)@.replies == old(self)@.replies.push((id, reply))
                },
                None => final(self)@.replies == old(self)@.replies,
            },
    {
        proof {
            use_type_invariant(&*self);
        }
        let mut replies: Vec<(MsgId, Json)> = Vec::new();
        std::mem::swap(&mut replies, &mut self.replies);
        collect_reply(&mut replies, self.reply_to, reply);
        self.replies = replies;
    }

    /// Ends the dispatch: the replies collected, in the order of the bodies they answer,
    /// and where they go, from the batch's destination back to its source.
    pub fn finish(self) -> (res: (NodeId, NodeId, Vec<(MsgId, Json)>))
        ensures
            res.0@ == self@.dest,
            res.1@ == self@.src,
            res.2@ == self@.replies,
    {
        (self.dest, self.src, self.replies)
    }
}

/// Starts the dispatch of a batch envelope as it came in on the wire: the text is read
/// as JSON, then taken apart as [`BatchRun::open`] does.
pub fn open_batch_text(raw: &str) -> (res: Result<BatchRun, BatchError>)
    ensures
        match parsed_json(raw@) {
            None => res == Err::<BatchRun, BatchError>(BatchError::NotJson),
            Some(full) => match (str_member(full, "src"@), str_member(full, "dest"@)) {
                (None, _) => res == Err::<BatchRun, BatchError>(BatchError::MissingSrc),
                (Some(_), None) => res == Err::<BatchRun, BatchError>(BatchError::MissingDest),
                (Some(s), Some(d)) => res matches Ok(r) && r@ == (BatchRunView {
                    src: s,
                    dest: d,
                    bodies: batch_bodies(full),
                    next: 0,
                    reply_to: None,
                    replies: Seq::empty(),
                }),
            },
        },
{
    match parse_json(raw) {
        Some(full) => BatchRun::open(&full),
        None => Err(BatchError::NotJson),
    }
}

/// The position of the handler registered for `type_`.
pub open spec fn route_index(names: Seq<Seq<char>>, type_: Seq<char>) -> Option<int> {
    crate::json::first_index(names.map_values(|n: Seq<char>| (n, ())), type_)
}

/// The slot a registration of `type_` answers, and the table after it: the slot already
/// given to `type_`, or a new slot at the end.
pub open spec fn registered(names: Seq<Seq<char>>, type_: Seq<char>) -> (int, Seq<Seq<char>>) {
    match route_index(names, type_) {
        Some(i) => (i, names),
        None => (names.len() as int, names.push(type_)),
    }
}

/// After a handler is registered for a type, looking the type up finds the slot the
/// registration answered, and every other type is found where it was before.
pub proof fn lemma_register_then_lookup(names: Seq<Seq<char>>, type_: Seq<char>, other: Seq<char>)
    ensures
        route_index(registered(names, type_).1, type_) == Some(registered(names, type_).0),
        other != type_ ==> route_index(registered(names, type_).1, other) == route_index(
            names,
            other,
        ),
{
    let keyed = names.map_values(|n: Seq<char>| (n, ()));
    crate::json::lemma_first_index_bounds(keyed, type_);
    crate::json::lemma_first_index_bounds(keyed, other);
    match route_index(names, type_) {
        Some(i) => {},
        None => {
            let after = names.push(type_);
            let ka = after.map_values(|n: Seq<char>| (n, ()));
            assert forall|j: int| 0 <= j < names.len() implies #[trigger] ka[j].0 != type_ by {
                assert(ka[j] == keyed[j]);
            }
            crate::json::lemma_first_index_unique(ka, type_, names.len() as int);
            if other != type_ {
                match route_index(names, other) {
                    Some(k) => {
                        assert forall|j: int| 0 <= j < k implies #[trigger] ka[j].0 != other by {
                            assert(ka[j] == keyed[j]);
                        }
                        assert(ka[k] == keyed[k]);
                        crate::json::lemma_first_index_unique(ka, other, k);
                    },
                    None => {
                        assert forall|j: int| 0 <= j < ka.len() implies #[trigger] ka[j].0
                            != other by {
                            if j < names.len() {
                                assert(ka[j] == keyed[j]);
                            }
                        }
                        crate::json::lemma_first_index_none(ka, other);
                    },
                }
            }
        },
    }
}

/// Registering a type keeps the registered types distinct: no type has two slots.
pub proof fn lemma_registered_distinct(names: Seq<Seq<char>>, type_: Seq<char>)
    requires
        names.no_duplicates(),
    ensures
        registered(names, type_).1.no_duplicates(),
{
    let keyed = names.map_values(|n: Seq<char>| (n, ()));
    crate::json::lemma_first_index_bounds(keyed, type_);
    if route_index(names, type_) is None {
        let after = names.push(type_);
        assert forall|i: int, j: int| 0 <= i < after.len() && 0 <= j < after.len() && i != j implies after[i]
            != after[j] by {
            if i < names.len() && j < names.len() {
            } else if i < names.len() {
                assert(keyed[i].0 == names[i]);
            } else {
                assert(keyed[j].0 == names[j]);
            }
        }
    }
}

/// The table that maps each message type to the slot of its handler. Each type has one
/// slot.
pub struct Routes {
    names: Vec<String>,
}

impl View for Routes {
    type V = Seq<Seq<char>>;

    closed spec fn view(&self) -> Seq<Seq<char>> {
        self.names@.map_values(|n: String| n@)
    }
}

impl Routes {
    #[verifier::type_invariant]
    spec fn types_distinct(self) -> bool {
        self@.no_duplicates()
    }

    /// A table with no handlers.
    pub fn new() -> (res: Routes)
        ensures
            res@ == Seq::<Seq<char>>::empty(),
    {
        let res = Routes { names: Vec::new() };
        proof {
            assert(res@ =~= Seq::<Seq<char>>::empty());
        }
        res
    }

    /// Finds the slot of the handler registered for `type_`.
    pub fn lookup(&self, type_: &str) -> (res: Option<usize>)
        ensures
            match res {
                Some(i) => route_index(self@, type_@) == Some(i as int),
                None => route_index(self@, type_@) is None,
            },
    {
        let t: String = type_.to_owned();
        let ghost keyed = self@.map_values(|n: Seq<char>| (n, ()));
        let mut i: usize = 0;
        while i < self.names.len()
            invariant
                i <= self.names.len(),
                t@ == type_@,
                keyed == self@.map_values(|n: Seq<char>| (n, ())),
                self@ == self.names@.map_values(|n: String| n@),
                forall|j: int| 0 <= j < i ==> (#[trigger] keyed[j]).0 != type_@,
            decreases self.names.len() - i,
        {
            if self.names[i] == t {
                proof {
                    crate::json::lemma_first_index_unique(keyed, type_@, i as int);
                }
                return Some(i);
            }
            i = i + 1;
        }
        proof {
            crate::json::lemma_first_index_none(keyed, type_@);
        }
        None
    }

    /// Registers a handler for `type_` and answers its slot: the slot already given to
    /// `type_`, whose handler the new one replaces, or a new slot at the end.
    pub fn register(&mut self, type_: String) -> (res: usize)
        ensures
            (res as int, final(self)@) == registered(old(self)@, type_@),
            final(self)@.no_duplicates(),
    {
        proof {
            use_type_invariant(&*self);
            lemma_registered_distinct(self@, type_@);
        }
        match self.lookup(type_.as_str()) {
            Some(i) => i,
            None => {
                let n = self.names.len();
                let ghost tv = type_@;
                let ghost before = self@;
                let mut names: Vec<String> = Vec::new();
                std::mem::swap(&mut names, &mut self.names);
                names.push(type_);
                proof {
                    assert(names@.map_values(|n: String| n@) =~= before.push(tv));
                }
                self.names = names;
                n
            },
        }
    }
}

} // verus!
