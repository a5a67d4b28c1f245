//! The outgoing side of a node: message id allocation, the per-destination outbox of
//! RPCs that await a reply, and the envelopes that carry bodies over the wire.

use vstd::prelude::*;

use crate::json::{
    field_insert, first_index, items_view, json_view, lemma_first_index_bounds,
    lemma_first_index_none, lemma_first_index_unique, lemma_items_view_map, Json, JsonNumber,
    JsonView, NumberView,
};
use crate::message::{lemma_msg_id_view_injective, opt_id, MsgId, NodeId};

verus! {

/// The JSON form of a message id.
pub open spec fn id_json(id: u64) -> JsonView {
    JsonView::Number(NumberView::PosInt(id))
}

/// A message carrying `body` from `src` to `dest`.
pub open spec fn single_view(src: Seq<char>, dest: Seq<char>, body: JsonView) -> JsonView {
    JsonView::Object(
        seq![("src"@, JsonView::Str(src)), ("dest"@, JsonView::Str(dest)), ("body"@, body)],
    )
}

/// The body of a batch envelope: its own id and the bodies it carries, in order.
pub open spec fn batch_body_view(msg_id: u64, bodies: Seq<JsonView>) -> JsonView {
    JsonView::Object(
        seq![
            ("type"@, JsonView::Str("batch"@)),
            ("msg_id"@, id_json(msg_id)),
            ("bodies"@, JsonView::Array(bodies)),
        ],
    )
}

/// One message from `src` to `dest` carrying several bodies at once.
pub open spec fn batch_view(
    src: Seq<char>,
    dest: Seq<char>,
    msg_id: u64,
    bodies: Seq<JsonView>,
) -> JsonView {
    single_view(src, dest, batch_body_view(msg_id, bodies))
}

/// The views of a sequence of JSON values.
pub open spec fn views(s: Seq<Json>) -> Seq<JsonView> {
    s.map_values(|j: Json| j@)
}

/// Wraps a body in a message from `src` to `dest`.
pub fn envelope_single(src: &NodeId, dest: &NodeId, body: Json) -> (res: Json)
    ensures
        res@ == single_view(src@, dest@, body@),
{
    let mut fields: Vec<(String, Json)> = Vec::new();
    fields.push(("src".to_owned(), src.to_json()));
    fields.push(("dest".to_owned(), dest.to_json()));
    let ghost bv = body@;
    fields.push(("body".to_owned(), body));
    let res = Json::Object(fields);
    proof {
        crate::json::lemma_fields_view(fields@);
        assert(crate::json::fields_view(fields@) =~= seq![
            ("src"@, JsonView::Str(src@)),
            ("dest"@, JsonView::Str(dest@)),
            ("body"@, bv),
        ]);
    }
    res
}

/// Wraps several bodies in one `batch` message with its own id.
pub fn envelope_batch(src: &NodeId, dest: &NodeId, msg_id: MsgId, bodies: Vec<Json>) -> (res: Json)
    ensures
        res@ == batch_view(src@, dest@, msg_id@, views(bodies@)),
{
    let ghost bv = views(bodies@);
    proof {
        lemma_items_view_map(bodies@);
    }
    let mut fields: Vec<(String, Json)> = Vec::new();
    fields.push(("type".to_owned(), Json::Str("batch".to_owned())));
    fields.push(("msg_id".to_owned(), msg_id.to_json()));
    fields.push(("bodies".to_owned(), Json::Array(bodies)));
    proof {
        crate::json::lemma_fields_view(fields@);
        assert(crate::json::fields_view(fields@) =~= seq![
            ("type"@, JsonView::Str("batch"@)),
            ("msg_id"@, id_json(msg_id@)),
            ("bodies"@, JsonView::Array(bv)),
        ]);
    }
    envelope_single(src, dest, Json::Object(fields))
}

/// The id fields that head a body: `msg_id`, then `in_reply_to` when the body answers
/// another message.
pub open spec fn header_fields(msg_id: u64, in_reply_to: Option<u64>) -> Seq<
    (Seq<char>, JsonView),
> {
    match in_reply_to {
        Some(r) => seq![("msg_id"@, id_json(msg_id)), ("in_reply_to"@, id_json(r))],
        None => seq![("msg_id"@, id_json(msg_id))],
    }
}

/// `acc` with each of `fields` set in turn, a later field overriding an earlier one of the
/// same name.
pub open spec fn insert_all(
    acc: Seq<(Seq<char>, JsonView)>,
    fields: Seq<(Seq<char>, JsonView)>,
) -> Seq<(Seq<char>, JsonView)>
    decreases fields.len(),
{
    if fields.len() == 0 {
        acc
    } else {
        let prev = insert_all(acc, fields.drop_last());
        field_insert(prev, fields.last().0, fields.last().1)
    }
}

/// The body of a message as sent: the id fields followed by the fields of `body`. Only an
/// object or `null` (a body with no fields) can be laid out so; anything else is refused.
pub open spec fn headed_body(msg_id: u64, in_reply_to: Option<u64>, body: JsonView) -> Option<
    JsonView,
> {
    match body {
        JsonView::Null => Some(JsonView::Object(header_fields(msg_id, in_reply_to))),
        JsonView::Object(fields) => Some(
            JsonView::Object(insert_all(header_fields(msg_id, in_reply_to), fields)),
        ),
        _ => None,
    }
}

/// A body that cannot be laid out beside the id fields: it is neither an object nor `null`.
#[derive(Debug, PartialEq, Eq, Structural)]
pub enum BodyError {
    NotAnObject,
}

/// Lays out a body behind its id fields, as the wire format wants it.
pub fn headed(msg_id: MsgId, in_reply_to: Option<MsgId>, body: Json) -> (res: Result<Json, BodyError>)
    ensures
        match headed_body(msg_id@, opt_id(in_reply_to), body@) {
            Some(h) => res matches Ok(j) && j@ == h,
            None => res == Err::<Json, BodyError>(BodyError::NotAnObject),
        },
{
    let mut head: Vec<(String, Json)> = Vec::new();
    head.push(("msg_id".to_owned(), msg_id.to_json()));
    match in_reply_to {
        Some(r) => {
            head.push(("in_reply_to".to_owned(), r.to_json()));
        },
        None => {},
    }
    proof {
        crate::json::lemma_fields_view(head@);
        assert(crate::json::fields_view(head@) =~= header_fields(msg_id@, opt_id(in_reply_to)));
    }
    let mut out = Json::Object(head);
    match body {
        Json::Null => Ok(out),
        Json::Object(fields) => {
            let ghost fv = crate::json::fields_view(fields@);
            proof {
                crate::json::lemma_fields_view(fields@);
            }
            let mut i: usize = 0;
            while i < fields.len()
                invariant
                    i <= fields.len(),
                    fv == crate::json::fields_view(fields@),
                    fv.len() == fields@.len(),
                    forall|j: int|
                        0 <= j < fields.len() ==> #[trigger] fv[j] == (
                            fields@[j].0@,
                            json_view(fields@[j].1),
                        ),
                    out@ == JsonView::Object(
                        insert_all(header_fields(msg_id@, opt_id(in_reply_to)), fv.take(i as int)),
                    ),
                decreases fields.len() - i,
            {
                let k = fields[i].0.clone();
                let v = fields[i].1.deep_copy();
                out.insert(k, v);
                proof {
                    assert(fv.take(i + 1).drop_last() =~= fv.take(i as int));
                }
                i = i + 1;
            }
            proof {
                assert(fv.take(fields.len() as int) =~= fv);
            }
            Ok(out)
        },
        _ => Err(BodyError::NotAnObject),
    }
}

/// The id that follows `id`; the counter wraps around past the largest `u64`.
pub open spec fn next_after(id: u64) -> u64 {
    if id == u64::MAX {
        0
    } else {
        (id + 1) as u64
    }
}

/// The id `k` places after `id`, counting around past the largest `u64`.
pub open spec fn id_after(id: u64, k: nat) -> u64 {
    ((id + k) % 0x1_0000_0000_0000_0000) as u64
}

/// Counting one place further from `id` gives the id that follows.
pub proof fn lemma_id_after_step(id: u64, k: nat)
    ensures
        next_after(id_after(id, k)) == id_after(id, k + 1),
        id_after(id, 0) == id,
{
    assert(id_after(id, 0) == id);
}

/// An RPC that awaits its reply, seen mathematically.
pub struct PendingView {
    pub src: Seq<char>,
    pub dest: Seq<char>,
    pub body: JsonView,
}

/// An RPC that awaits its reply: who sent it, to whom, and the body to send again.
#[derive(Debug)]
pub struct PendingEntry {
    pub src: NodeId,
    pub dest: NodeId,
    pub body: Json,
}

impl PendingEntry {
    pub open spec fn view(&self) -> PendingView {
        PendingView { src: self.src@, dest: self.dest@, body: self.body@ }
    }
}

/// The state of an outbox: the next message id to hand out, and the RPCs that await a
/// reply, keyed by their message ids, in the order they were first sent.
pub struct OutboxView {
    pub next_id: u64,
    pub pending: Seq<(u64, PendingView)>,
}

/// No two pending RPCs share a message id.
pub open spec fn distinct_ids(pending: Seq<(u64, PendingView)>) -> bool {
    forall|i: int, j: int|
        0 <= i < pending.len() && 0 <= j < pending.len() && i != j ==> #[trigger] pending[i].0
            != #[trigger] pending[j].0
}

/// Whether an RPC with this message id awaits its reply.
pub open spec fn is_pending(pending: Seq<(u64, PendingView)>, id: u64) -> bool {
    first_index(pending, id) is Some
}

/// The outbox after the RPC with this id is forgotten.
pub open spec fn without(pending: Seq<(u64, PendingView)>, id: u64) -> Seq<(u64, PendingView)> {
    match first_index(pending, id) {
        Some(i) => pending.remove(i),
        None => pending,
    }
}

/// The pending RPCs bound for `dest`, oldest first.
pub open spec fn entries_for(pending: Seq<(u64, PendingView)>, dest: Seq<char>) -> Seq<PendingView>
    decreases pending.len(),
{
    if pending.len() == 0 {
        Seq::empty()
    } else {
        let prev = entries_for(pending.drop_last(), dest);
        if pending.last().1.dest == dest {
            prev.push(pending.last().1)
        } else {
            prev
        }
    }
}

/// The bodies still to be shipped to `dest`, oldest first.
pub open spec fn bodies_for(pending: Seq<(u64, PendingView)>, dest: Seq<char>) -> Seq<JsonView> {
    entries_for(pending, dest).map_values(|e: PendingView| e.body)
}

/// The sender named by the oldest RPC bound for `dest`.
pub open spec fn src_for(pending: Seq<(u64, PendingView)>, dest: Seq<char>) -> Option<Seq<char>> {
    if entries_for(pending, dest).len() > 0 {
        Some(entries_for(pending, dest)[0].src)
    } else {
        None
    }
}

/// A reply body given its own id and the id of the request it answers. Bodies that are not
/// objects have no fields to take them and go out as they are.
pub open spec fn stamp(body: JsonView, msg_id: u64, in_reply_to: u64) -> JsonView {
    match body {
        JsonView::Object(fields) => JsonView::Object(
            field_insert(
                field_insert(fields, "msg_id"@, id_json(msg_id)),
                "in_reply_to"@,
                id_json(in_reply_to),
            ),
        ),
        _ => body,
    }
}

/// The reply bodies of a batch of replies, the `k`-th under the id `k` places after `start`.
pub open spec fn stamped(replies: Seq<(MsgId, Json)>, start: u64) -> Seq<JsonView> {
    Seq::new(
        replies.len(),
        |k: int| stamp(replies[k].1@, id_after(start, k as nat), replies[k].0@),
    )
}

/// One call on an outbox, as far as its state goes.
pub enum OutboxStep {
    /// An RPC was queued under the next message id (`send_rpc` on a body it accepts).
    Send { src: Seq<char>, dest: Seq<char>, body: JsonView },
    /// The reply to this message id was seen (`notify_ok`).
    Ack(u64),
    /// Only message ids were handed out, the next one being this (every other call,
    /// `peer_flush` among them).
    Advance(u64),
}

/// The outbox after one call.
pub open spec fn outbox_step(o: OutboxView, s: OutboxStep) -> OutboxView {
    match s {
        OutboxStep::Send { src, dest, body } => OutboxView {
            next_id: next_after(o.next_id),
            pending: field_insert(o.pending, o.next_id, PendingView { src, dest, body }),
        },
        OutboxStep::Ack(id) => OutboxView { next_id: o.next_id, pending: without(o.pending, id) },
        OutboxStep::Advance(next) => OutboxView { next_id: next, pending: o.pending },
    }
}

/// The outbox after a run of calls, in order.
pub open spec fn outbox_run(o: OutboxView, steps: Seq<OutboxStep>) -> OutboxView
    decreases steps.len(),
{
    if steps.len() == 0 {
        o
    } else {
        outbox_step(outbox_run(o, steps.drop_last()), steps.last())
    }
}

/// The outbox of a node: it hands out message ids and keeps each RPC that awaits its reply
/// until the reply is seen, so that the RPC can be shipped again.
/// No two pending RPCs share a message id; every method states so of the outbox it
/// returns or leaves behind, so callers can use the laws below that assume it.
///
/// The pending RPCs form a map from message id to RPC, held as a vector of pairs in the
/// order the RPCs were sent: setting and forgetting an id are [`field_insert`] and
/// [`without`]. A hash map keyed by id would leave the order of a walk over it unnamed, so
/// the batch a wake-up ships ([`Outbox::peer_flush`], [`bodies_for`]) could be stated only
/// up to order; a map ordered by id would ship by id, which is not the order of sending
/// once ids wrap past the largest `u64`.
pub struct Outbox {
    next_id: u64,
    pending: Vec<(MsgId, PendingEntry)>,
}

/// The pending RPCs of an outbox, seen mathematically.
pub open spec fn pending_view(pending: Seq<(MsgId, PendingEntry)>) -> Seq<(u64, PendingView)> {
    pending.map_values(|e: (MsgId, PendingEntry)| (e.0@, e.1.view()))
}

impl View for Outbox {
    type V = OutboxView;

    closed spec fn view(&self) -> OutboxView {
        OutboxView { next_id: self.next_id, pending: pending_view(self.pending@) }
    }
}

impl Outbox {
    #[verifier::type_invariant]
    closed spec fn wf(self) -> bool {
        distinct_ids(pending_view(self.pending@))
    }

    /// An empty outbox whose first message id is 0.
    pub fn new() -> (res: Outbox)
        ensures
            res@.next_id == 0,
            res@.pending == Seq::<(u64, PendingView)>::empty(),
            distinct_ids(res@.pending),
    {
        let res = Outbox { next_id: 0, pending: Vec::new() };
        proof {
            assert(pending_view(res.pending@) =~= Seq::<(u64, PendingView)>::empty());
        }
        res
    }

    /// Hands out the next message id.
    pub fn next_msg_id(&mut self) -> (res: MsgId)
        ensures
            res@ == old(self)@.next_id,
            final(self)@.next_id == next_after(old(self)@.next_id),
            final(self)@.pending == old(self)@.pending,
            final(self)@ == outbox_step(old(self)@, OutboxStep::Advance(final(self)@.next_id)),
            distinct_ids(final(self)@.pending),
    {
        proof {
            use_type_invariant(&*self);
        }
        let id = self.next_id;
        if self.next_id == u64::MAX {
            self.next_id = 0;
        } else {
            self.next_id = self.next_id + 1;
        }
        MsgId::from(id)
    }

    /// Takes the next message id and lays out `body` behind it (and behind `in_reply_to`).
    /// The id is used up even when the body is refused.
    pub fn serialize_body(&mut self, in_reply_to: Option<MsgId>, body: Json) -> (res: Result<
        (MsgId, Json),
        BodyError,
    >)
        ensures
            final(self)@.next_id == next_after(old(self)@.next_id),
            final(self)@.pending == old(self)@.pending,
            match headed_body(old(self)@.next_id, opt_id(in_reply_to), body@) {
                Some(h) => res matches Ok((id, j)) && id@ == old(self)@.next_id && j@ == h,
                None => res == Err::<(MsgId, Json), BodyError>(BodyError::NotAnObject),
            },
            distinct_ids(final(self)@.pending),
    {
        proof {
            use_type_invariant(&*self);
        }
        let msg_id = self.next_msg_id();
        let body_json = headed(msg_id, in_reply_to, body)?;
        Ok((msg_id, body_json))
    }

    /// The message that answers `in_reply_to` with `body`, under the next message id.
    pub fn send_reply(&mut self, src: NodeId, dest: NodeId, in_reply_to: MsgId, body: Json) -> (res:
        Result<Json, BodyError>)
        ensures
            final(self)@.next_id == next_after(old(self)@.next_id),
            final(self)@.pending == old(self)@.pending,
            match headed_body(old(self)@.next_id, Some(in_reply_to@), body@) {
                Some(h) => res matches Ok(j) && j@ == single_view(src@, dest@, h),
                None => res == Err::<Json, BodyError>(BodyError::NotAnObject),
            },
            distinct_ids(final(self)@.pending),
    {
        proof {
            use_type_invariant(&*self);
        }
        let (_, body_json) = self.serialize_body(Some(in_reply_to), body)?;
        Ok(envelope_single(&src, &dest, body_json))
    }

    /// The position of the pending RPC with this message id.
    fn find_pending(&self, id: MsgId) -> (res: Option<usize>)
        ensures
            match res {
                Some(i) => first_index(self@.pending, id@) == Some(i as int),
                None => first_index(self@.pending, id@) is None,
            },
    {
        let ghost pv = self@.pending;
        let mut i: usize = 0;
        while i < self.pending.len()
            invariant
                i <= self.pending.len(),
                pv == pending_view(self.pending@),
                forall|j: int| 0 <= j < i ==> (#[trigger] pv[j]).0 != id@,
            decreases self.pending.len() - i,
        {
            if self.pending[i].0 == id {
                proof {
                    lemma_first_index_unique(pv, id@, i as int);
                }
                return Some(i);
            }
            proof {
                lemma_msg_id_view_injective(self.pending@[i as int].0, id);
            }
            i = i + 1;
        }
        proof {
            lemma_first_index_none(pv, id@);
        }
        None
    }

    /// Whether an RPC with this message id awaits its reply.
    pub fn is_pending(&self, id: MsgId) -> (res: bool)
        ensures
            res == is_pending(self@.pending, id@),
            distinct_ids(self@.pending),
    {
        proof {
            use_type_invariant(&*self);
        }
        self.find_pending(id).is_some()
    }

    /// Queues `body` as an RPC from `src` to `dest` under the next message id. It stays in
    /// the outbox, to be shipped again, until a reply to it is seen.
    pub fn send_rpc(&mut self, src: NodeId, dest: NodeId, body: Json) -> (res: Result<(), BodyError>)
        ensures
            final(self)@.next_id == next_after(old(self)@.next_id),
            match headed_body(old(self)@.next_id, None, body@) {
                Some(h) => res is Ok && final(self)@.pending == field_insert(
                    old(self)@.pending,
                    old(self)@.next_id,
                    PendingView { src: src@, dest: dest@, body: h },
                ),
                None => res == Err::<(), BodyError>(BodyError::NotAnObject) && final(self)@.pending
                    == old(self)@.pending,
            },
            final(self)@ == outbox_step(
                old(self)@,
                match headed_body(old(self)@.next_id, None, body@) {
                    Some(h) => (OutboxStep::Send { src: src@, dest: dest@, body: h }),
                    None => OutboxStep::Advance(next_after(old(self)@.next_id)),
                },
            ),
            distinct_ids(final(self)@.pending),
    {
        proof {
            use_type_invariant(&*self);
        }
        let (msg_id, body_json) = self.serialize_body(None, body)?;
        let ghost pv = self@.pending;
        let entry = PendingEntry { src, dest, body: body_json };
        let ghost ev = (msg_id@, entry.view());
        let found = self.find_pending(msg_id);
        let mut pending: Vec<(MsgId, PendingEntry)> = Vec::new();
        std::mem::swap(&mut pending, &mut self.pending);
        proof {
            lemma_first_index_bounds(pv, msg_id@);
        }
        match found {
            Some(i) => {
                pending.set(i, (msg_id, entry));
                proof {
                    assert(pending_view(pending@) =~= pv.update(i as int, ev));
                }
            },
            None => {
                pending.push((msg_id, entry));
                proof {
                    assert(pending_view(pending@) =~= pv.push(ev));
                }
            },
        }
        self.pending = pending;
        Ok(())
    }

    /// Records that a successful reply to `source_id` was seen: that RPC leaves the outbox
    /// and is never shipped again. Answers with `source_id` when such an RPC was pending.
    pub fn notify_ok(&mut self, source_id: MsgId) -> (res: Option<MsgId>)
        ensures
            res == (if is_pending(old(self)@.pending, source_id@) {
                Some(source_id)
            } else {
                None
            }),
            final(self)@.next_id == old(self)@.next_id,
            final(self)@.pending == without(old(self)@.pending, source_id@),
            !is_pending(final(self)@.pending, source_id@),
            final(self)@ == outbox_step(old(self)@, OutboxStep::Ack(source_id@)),
            distinct_ids(final(self)@.pending),
    {
        proof {
            use_type_invariant(&*self);
        }
        let ghost pv = self@.pending;
        match self.find_pending(source_id) {
            Some(i) => {
                proof {
                    lemma_first_index_bounds(pv, source_id@);
                }
                let mut pending: Vec<(MsgId, PendingEntry)> = Vec::new();
                std::mem::swap(&mut pending, &mut self.pending);
                let _ = pending.remove(i);
                proof {
                    let after = pending_view(pending@);
                    assert(after =~= pv.remove(i as int));
                    assert forall|j: int| 0 <= j < after.len() implies #[trigger] after[j].0
                        != source_id@ by {
                        if j < i {
                            assert(after[j] == pv[j]);
                        } else {
                            assert(after[j] == pv[j + 1]);
                        }
                    }
                    lemma_first_index_none(after, source_id@);
                    assert(distinct_ids(after)) by {
                        assert forall|a: int, b: int|
                            0 <= a < after.len() && 0 <= b < after.len() && a != b implies #[trigger] after[a].0
                            != #[trigger] after[b].0 by {
                            let a2 = if a < i { a } else { a + 1 };
                            let b2 = if b < i { b } else { b + 1 };
                            assert(after[a] == pv[a2]);
                            assert(after[b] == pv[b2]);
                        }
                    }
                }
                self.pending = pending;
                Some(source_id)
            },
            None => None,
        }
    }

    /// Records that an error reply to `source_id` was seen. The RPC stays in the outbox;
    /// answers with `source_id` when such an RPC was pending.
    pub fn notify_error(&self, source_id: MsgId) -> (res: Option<MsgId>)
        ensures
            res == (if is_pending(self@.pending, source_id@) {
                Some(source_id)
            } else {
                None
            }),
            distinct_ids(self@.pending),
    {
        proof {
            use_type_invariant(&*self);
        }
        match self.find_pending(source_id) {
            Some(_) => Some(source_id),
            None => None,
        }
    }

    /// The sender and the bodies of every RPC bound for `dest` that still awaits its reply,
    /// oldest first. The sender is that of the oldest such RPC.
    pub fn snapshot_for(&self, dest: &NodeId) -> (res: (Option<NodeId>, Vec<Json>))
        ensures
            views(res.1@) == bodies_for(self@.pending, dest@),
            match res.0 {
                Some(s) => src_for(self@.pending, dest@) == Some(s@),
                None => src_for(self@.pending, dest@) is None,
            },
            distinct_ids(self@.pending),
    {
        proof {
            use_type_invariant(&*self);
        }
        let ghost pv = self@.pending;
        let mut bodies: Vec<Json> = Vec::new();
        let mut src: Option<NodeId> = None;
        let mut i: usize = 0;
        while i < self.pending.len()
            invariant
                i <= self.pending.len(),
                pv == pending_view(self.pending@),
                views(bodies@) == bodies_for(pv.take(i as int), dest@),
                match src {
                    Some(s) => src_for(pv.take(i as int), dest@) == Some(s@),
                    None => src_for(pv.take(i as int), dest@) is None,
                },
            decreases self.pending.len() - i,
        {
            proof {
                assert(pv.take(i + 1).drop_last() =~= pv.take(i as int));
            }
            if self.pending[i].1.dest == *dest {
                if src.is_none() {
                    src = Some(self.pending[i].1.src.clone());
                }
                let b = self.pending[i].1.body.deep_copy();
                let ghost before = bodies@;
                bodies.push(b);
                proof {
                    let t = pv.take(i + 1);
                    assert(t.last() == pv[i as int]);
                    let e = entries_for(pv.take(i as int), dest@);
                    assert(entries_for(t, dest@) == e.push(pv[i as int].1));
                    assert(e.push(pv[i as int].1).map_values(|e: PendingView| e.body) =~= e.map_values(
                        |e: PendingView| e.body,
                    ).push(pv[i as int].1.body));
                    assert(views(bodies@) =~= views(before).push(b@));
                }
            }
            i = i + 1;
        }
        proof {
            assert(pv.take(self.pending.len() as int) =~= pv);
        }
        (src, bodies)
    }

    /// What one wake-up of the shipping loop for `dest` sends: every body still bound for
    /// `dest`, in one `batch` message under a fresh id when `dest` is a node, or one message
    /// per body when `dest` is a client. Nothing is sent when nothing is pending for `dest`.
    pub fn peer_flush(&mut self, dest: &NodeId) -> (res: Vec<Json>)
        ensures
            final(self)@.pending == old(self)@.pending,
            final(self)@ == outbox_step(old(self)@, OutboxStep::Advance(final(self)@.next_id)),
            match src_for(old(self)@.pending, dest@) {
                None => res@.len() == 0 && final(self)@.next_id == old(self)@.next_id,
                Some(src) => if dest@.len() > 0 && dest@[0] == 'n' {
                    &&& final(self)@.next_id == next_after(old(self)@.next_id)
                    &&& views(res@) == seq![
                        batch_view(
                            src,
                            dest@,
                            old(self)@.next_id,
                            bodies_for(old(self)@.pending, dest@),
                        ),
                    ]
                } else {
                    &&& final(self)@.next_id == old(self)@.next_id
                    &&& views(res@) == bodies_for(old(self)@.pending, dest@).map_values(
                        |b: JsonView| single_view(src, dest@, b),
                    )
                },
            },
            distinct_ids(final(self)@.pending),
    {
        proof {
            use_type_invariant(&*self);
        }
        let (src, bodies) = self.snapshot_for(dest);
        let mut out: Vec<Json> = Vec::new();
        let src = match src {
            Some(s) => s,
            None => {
                proof {
                    assert(out@ =~= Seq::<Json>::empty());
                }
                return out;
            },
        };
        if bodies.len() == 0 {
            proof {
                assert(bodies_for(old(self)@.pending, dest@).len() == 0);
                assert(entries_for(old(self)@.pending, dest@).len() > 0);
            }
            return out;
        }
        if dest.is_node() {
            let envelope_id = self.next_msg_id();
            let msg = envelope_batch(&src, dest, envelope_id, bodies);
            out.push(msg);
            proof {
                assert(views(out@) =~= seq![msg@]);
            }
        } else {
            let ghost bv = views(bodies@);
            let mut i: usize = 0;
            while i < bodies.len()
                invariant
                    i <= bodies.len(),
                    bv == views(bodies@),
                    views(out@) == bv.take(i as int).map_values(
                        |b: JsonView| single_view(src@, dest@, b),
                    ),
                decreases bodies.len() - i,
            {
                let b = bodies[i].deep_copy();
                let msg = envelope_single(&src, dest, b);
                let ghost before = out@;
                out.push(msg);
                proof {
                    assert(views(out@) =~= views(before).push(msg@));
                    assert(bv.take(i + 1) =~= bv.take(i as int).push(bv[i as int]));
                    assert(views(out@) =~= bv.take(i + 1).map_values(
                        |b: JsonView| single_view(src@, dest@, b),
                    ));
                }
                i = i + 1;
            }
            proof {
                assert(bv.take(bodies.len() as int) =~= bv);
            }
        }
        out
    }

    /// The message that carries a set of replies from `src` to `dest`, each reply paired
    /// with the id of the request it answers. Each reply body gets the next message id and
    /// its `in_reply_to`; one reply goes out as a plain message, two or more in one `batch`
    /// message under an id of its own. No replies, no message.
    pub fn send_replies(&mut self, src: NodeId, dest: NodeId, replies: Vec<(MsgId, Json)>) -> (res:
        Option<Json>)
        ensures
            final(self)@.pending == old(self)@.pending,
            final(self)@ == outbox_step(old(self)@, OutboxStep::Advance(final(self)@.next_id)),
            replies.len() == 0 ==> res is None && final(self)@.next_id == old(self)@.next_id,
            replies.len() == 1 ==> (res matches Some(m) && m@ == single_view(
                src@,
                dest@,
                stamped(replies@, old(self)@.next_id)[0],
            ) && final(self)@.next_id == id_after(old(self)@.next_id, 1)),
            replies.len() >= 2 ==> (res matches Some(m) && m@ == batch_view(
                src@,
                dest@,
                id_after(old(self)@.next_id, replies.len() as nat),
                stamped(replies@, old(self)@.next_id),
            ) && final(self)@.next_id == id_after(old(self)@.next_id, replies.len() as nat + 1)),
            distinct_ids(final(self)@.pending),
    {
        proof {
            use_type_invariant(&*self);
        }
        if replies.len() == 0 {
            return None;
        }
        let ghost start = self@.next_id;
        let ghost want = stamped(replies@, start);
        let mut bodies: Vec<Json> = Vec::new();
        let mut i: usize = 0;
        proof {
            lemma_id_after_step(start, 0);
        }
        while i < replies.len()
            invariant
                i <= replies.len(),
                self@.pending == old(self)@.pending,
                self@.next_id == id_after(start, i as nat),
                want == stamped(replies@, start),
                views(bodies@) == want.take(i as int),
            decreases replies.len() - i,
        {
            let msg_id = self.next_msg_id();
            proof {
                lemma_id_after_step(start, i as nat);
            }
            let mut body = replies[i].1.deep_copy();
            body.insert("msg_id".to_owned(), msg_id.to_json());
            body.insert("in_reply_to".to_owned(), replies[i].0.to_json());
            let ghost before = bodies@;
            bodies.push(body);
            proof {
                assert(views(bodies@) =~= views(before).push(body@));
                assert(want.take(i + 1) =~= want.take(i as int).push(want[i as int]));
            }
            i = i + 1;
        }
        proof {
            assert(want.take(replies.len() as int) =~= want);
        }
        if bodies.len() == 1 {
            let body = bodies.pop().unwrap();
            Some(envelope_single(&src, &dest, body))
        } else {
            let envelope_id = self.next_msg_id();
            proof {
                lemma_id_after_step(start, replies.len() as nat);
            }
            Some(envelope_batch(&src, &dest, envelope_id, bodies))
        }
    }
}

/// The time between two shipments of the RPCs that still await their replies.
pub const RESEND_MILLIS: u64 = 500;

/// Seeing the reply to an RPC takes the outbox back to where it stood before the RPC was
/// sent, provided its id was not already in use by a pending RPC.
pub proof fn lemma_reply_undoes_send(o: OutboxView, src: Seq<char>, dest: Seq<char>, body: JsonView)
    requires
        !is_pending(o.pending, o.next_id),
    ensures
        without(
            field_insert(o.pending, o.next_id, PendingView { src, dest, body }),
            o.next_id,
        ) == o.pending,
{
    let e = PendingView { src, dest, body };
    let after = field_insert(o.pending, o.next_id, e);
    assert(after == o.pending.push((o.next_id, e)));
    lemma_first_index_bounds(o.pending, o.next_id);
    assert forall|j: int| 0 <= j < o.pending.len() implies #[trigger] after[j].0 != o.next_id by {
        assert(after[j] == o.pending[j]);
    }
    lemma_first_index_unique(after, o.next_id, o.pending.len() as int);
    assert(after.remove(o.pending.len() as int) =~= o.pending);
}

/// A newly sent RPC is shipped to its destination from then on, behind the RPCs sent
/// there before it.
pub proof fn lemma_sent_is_shipped(pending: Seq<(u64, PendingView)>, id: u64, e: PendingView)
    requires
        !is_pending(pending, id),
    ensures
        bodies_for(field_insert(pending, id, e), e.dest) == bodies_for(pending, e.dest).push(
            e.body,
        ),
{
    let after = field_insert(pending, id, e);
    assert(after == pending.push((id, e)));
    assert(after.drop_last() =~= pending);
    let prev = entries_for(pending, e.dest);
    assert(entries_for(after, e.dest) == prev.push(e));
    assert(prev.push(e).map_values(|x: PendingView| x.body) =~= prev.map_values(
        |x: PendingView| x.body,
    ).push(e.body));
}

/// Every RPC that awaits its reply is among what is shipped to its destination.
pub proof fn lemma_pending_is_shipped(pending: Seq<(u64, PendingView)>, i: int)
    requires
        0 <= i < pending.len(),
    ensures
        bodies_for(pending, pending[i].1.dest).contains(pending[i].1.body),
    decreases pending.len(),
{
    let d = pending[i].1.dest;
    let prev = pending.drop_last();
    if i == pending.len() - 1 {
        let e = entries_for(prev, d);
        assert(entries_for(pending, d) == e.push(pending[i].1));
        let b = bodies_for(pending, d);
        assert(b[e.len() as int] == pending[i].1.body);
    } else {
        assert(prev[i] == pending[i]);
        lemma_pending_is_shipped(prev, i);
        let e = entries_for(prev, d);
        let k = choose|k: int| 0 <= k < bodies_for(prev, d).len() && bodies_for(prev, d)[k]
            == pending[i].1.body;
        if pending.last().1.dest == d {
            assert(entries_for(pending, d) == e.push(pending.last().1));
            assert(bodies_for(pending, d)[k] == pending[i].1.body);
        } else {
            assert(entries_for(pending, d) == e);
        }
    }
}

/// What is shipped to `dest` is exactly the pending RPCs whose destination is `dest`, in
/// the order they were sent: no RPC bound elsewhere is among them, and none bound there is
/// left out.
pub proof fn lemma_entries_for_dest(pending: Seq<(u64, PendingView)>, dest: Seq<char>)
    ensures
        entries_for(pending, dest) == pending.filter(|e: (u64, PendingView)| e.1.dest == dest).map_values(
            |e: (u64, PendingView)| e.1,
        ),
        forall|k: int|
            0 <= k < entries_for(pending, dest).len() ==> (#[trigger] entries_for(pending, dest)[k]).dest
                == dest,
    decreases pending.len(),
{
    reveal(Seq::filter);
    let pred = |e: (u64, PendingView)| e.1.dest == dest;
    let second = |e: (u64, PendingView)| e.1;
    if pending.len() > 0 {
        let prev = pending.drop_last();
        lemma_entries_for_dest(prev, dest);
        let fp = prev.filter(pred);
        assert(pending.filter(pred) == (if pred(pending.last()) {
            fp.push(pending.last())
        } else {
            fp
        }));
        if pred(pending.last()) {
            assert(fp.push(pending.last()).map_values(second) =~= fp.map_values(second).push(
                pending.last().1,
            ));
        }
    } else {
        assert(pending.filter(pred) =~= Seq::<(u64, PendingView)>::empty());
        assert(pending.filter(pred).map_values(second) =~= Seq::<PendingView>::empty());
    }
}

/// Whether a step acknowledges the RPC with this id.
pub open spec fn acks(s: OutboxStep, id: u64) -> bool {
    s matches OutboxStep::Ack(a) && a == id
}

/// Whether a step queues an RPC under this id.
pub open spec fn sends_as(o: OutboxView, steps: Seq<OutboxStep>, k: int, id: u64) -> bool {
    steps[k] is Send && outbox_run(o, steps.take(k)).next_id == id
}

/// A pending RPC that is found under its id is among what is shipped to its destination.
proof fn lemma_lookup_is_shipped(pending: Seq<(u64, PendingView)>, id: u64, e: PendingView)
    requires
        crate::json::field_lookup(pending, id) == Some(e),
    ensures
        bodies_for(pending, e.dest).contains(e.body),
{
    lemma_first_index_bounds(pending, id);
    let i = first_index(pending, id).unwrap();
    lemma_pending_is_shipped(pending, i);
}

/// Forgetting one RPC keeps the ids distinct, and every other RPC where it was found.
proof fn lemma_without_keeps_others(pending: Seq<(u64, PendingView)>, gone: u64, id: u64)
    requires
        distinct_ids(pending),
    ensures
        distinct_ids(without(pending, gone)),
        !is_pending(without(pending, gone), gone),
        id != gone ==> crate::json::field_lookup(without(pending, gone), id)
            == crate::json::field_lookup(pending, id),
{
    lemma_first_index_bounds(pending, gone);
    lemma_first_index_bounds(pending, id);
    let after = without(pending, gone);
    match first_index(pending, gone) {
        Some(i) => {
            assert forall|j: int| 0 <= j < after.len() implies after[j] == (if j < i {
                pending[j]
            } else {
                pending[j + 1]
            }) by {}
            assert forall|a: int, b: int|
                0 <= a < after.len() && 0 <= b < after.len() && a != b implies #[trigger] after[a].0
                != #[trigger] after[b].0 by {
                let a2 = if a < i { a } else { a + 1 };
                let b2 = if b < i { b } else { b + 1 };
                assert(after[a] == pending[a2]);
                assert(after[b] == pending[b2]);
            }
            assert forall|j: int| 0 <= j < after.len() implies #[trigger] after[j].0 != gone by {
                let j2 = if j < i { j } else { j + 1 };
                assert(after[j] == pending[j2]);
            }
            lemma_first_index_none(after, gone);
            if id != gone {
                match first_index(pending, id) {
                    Some(k) => {
                        let k2 = if k < i { k } else { k - 1 };
                        assert(k != i);
                        assert(after[k2] == pending[k]);
                        assert forall|j: int| 0 <= j < k2 implies #[trigger] after[j].0 != id by {
                            let j2 = if j < i { j } else { j + 1 };
                            assert(after[j] == pending[j2]);
                        }
                        lemma_first_index_unique(after, id, k2);
                    },
                    None => {
                        assert forall|j: int| 0 <= j < after.len() implies #[trigger] after[j].0
                            != id by {
                            let j2 = if j < i { j } else { j + 1 };
                            assert(after[j] == pending[j2]);
                        }
                        lemma_first_index_none(after, id);
                    },
                }
            }
        },
        None => {},
    }
}

/// Queuing an RPC keeps the ids distinct.
proof fn lemma_insert_keeps_distinct(pending: Seq<(u64, PendingView)>, id: u64, e: PendingView)
    requires
        distinct_ids(pending),
    ensures
        distinct_ids(field_insert(pending, id, e)),
{
    lemma_first_index_bounds(pending, id);
    let after = field_insert(pending, id, e);
    assert forall|a: int, b: int|
        0 <= a < after.len() && 0 <= b < after.len() && a != b implies #[trigger] after[a].0
        != #[trigger] after[b].0 by {
        match first_index(pending, id) {
            Some(i) => {
                if a != i && b != i {
                    assert(after[a] == pending[a] && after[b] == pending[b]);
                } else if a == i {
                    assert(after[b] == pending[b]);
                    assert(pending[b].0 != pending[i].0);
                } else {
                    assert(after[a] == pending[a]);
                    assert(pending[a].0 != pending[i].0);
                }
            },
            None => {
                if a < pending.len() && b < pending.len() {
                    assert(after[a] == pending[a] && after[b] == pending[b]);
                } else if a < pending.len() {
                    assert(after[a] == pending[a]);
                } else {
                    assert(after[b] == pending[b]);
                }
            },
        }
    }
}

/// Over a run of calls from a valid outbox, the RPC pending under `id` stays pending, as
/// it was, unless its reply is seen or a later RPC is queued under the same id.
proof fn lemma_pending_kept(o: OutboxView, steps: Seq<OutboxStep>, id: u64)
    requires
        distinct_ids(o.pending),
        is_pending(o.pending, id),
        forall|k: int| 0 <= k < steps.len() ==> !acks(#[trigger] steps[k], id),
        forall|k: int| 0 <= k < steps.len() ==> !sends_as(o, steps, k, id),
    ensures
        distinct_ids(outbox_run(o, steps).pending),
        crate::json::field_lookup(outbox_run(o, steps).pending, id) == crate::json::field_lookup(
            o.pending,
            id,
        ),
    decreases steps.len(),
{
    if steps.len() > 0 {
        let prev = steps.drop_last();
        let n = steps.len() - 1;
        assert forall|k: int| 0 <= k < prev.len() implies !sends_as(o, prev, k, id) by {
            assert(prev[k] == steps[k]);
            assert(prev.take(k) =~= steps.take(k));
            assert(!sends_as(o, steps, k, id));
        }
        assert forall|k: int| 0 <= k < prev.len() implies !acks(#[trigger] prev[k], id) by {
            assert(prev[k] == steps[k]);
        }
        lemma_pending_kept(o, prev, id);
        let before = outbox_run(o, prev);
        assert(steps.take(n) =~= prev);
        assert(!sends_as(o, steps, n, id));
        assert(!acks(steps[n], id));
        match steps.last() {
            OutboxStep::Send { src, dest, body } => {
                let e = PendingView { src, dest, body };
                lemma_insert_keeps_distinct(before.pending, before.next_id, e);
                crate::json::lemma_field_insert_other(before.pending, before.next_id, e, id);
            },
            OutboxStep::Ack(gone) => {
                lemma_without_keeps_others(before.pending, gone, id);
            },
            OutboxStep::Advance(_) => {},
        }
    }
}

/// No value is lost: an RPC that awaits its reply is shipped at every wake-up until the
/// reply is seen. Over any run of calls that neither sees its reply nor queues another RPC
/// under its id, it stays pending with the same sender, destination and body after each
/// call, so every `peer_flush` for its destination along the way ships its body.
pub proof fn lemma_pending_until_acked(o: OutboxView, steps: Seq<OutboxStep>, id: u64)
    requires
        distinct_ids(o.pending),
        is_pending(o.pending, id),
        forall|k: int| 0 <= k < steps.len() ==> !acks(#[trigger] steps[k], id),
        forall|k: int| 0 <= k < steps.len() ==> !sends_as(o, steps, k, id),
    ensures
        forall|k: int|
            0 <= k <= steps.len() ==> {
                let e = crate::json::field_lookup(o.pending, id).unwrap();
                &&& crate::json::field_lookup(#[trigger] outbox_run(o, steps.take(k)).pending, id)
                    == Some(e)
                &&& bodies_for(outbox_run(o, steps.take(k)).pending, e.dest).contains(e.body)
            },
{
    lemma_first_index_bounds(o.pending, id);
    let e = crate::json::field_lookup(o.pending, id).unwrap();
    assert forall|k: int| 0 <= k <= steps.len() implies {
        &&& crate::json::field_lookup(#[trigger] outbox_run(o, steps.take(k)).pending, id) == Some(e)
        &&& bodies_for(outbox_run(o, steps.take(k)).pending, e.dest).contains(e.body)
    } by {
        let pre = steps.take(k);
        assert forall|j: int| 0 <= j < pre.len() implies !sends_as(o, pre, j, id) by {
            assert(pre[j] == steps[j]);
            assert(pre.take(j) =~= steps.take(j));
            assert(!sends_as(o, steps, j, id));
        }
        assert forall|j: int| 0 <= j < pre.len() implies !acks(#[trigger] pre[j], id) by {
            assert(pre[j] == steps[j]);
        }
        lemma_pending_kept(o, pre, id);
        lemma_lookup_is_shipped(outbox_run(o, pre).pending, id, e);
    }
}

/// Once the reply to an RPC is seen, it is pending no more, and stays so over any later run
/// of calls that queues no new RPC under its id: no later wake-up ships it.
pub proof fn lemma_acked_stays_gone(o: OutboxView, id: u64, steps: Seq<OutboxStep>)
    requires
        distinct_ids(o.pending),
        forall|k: int| 0 <= k < steps.len() ==> !sends_as(
            outbox_step(o, OutboxStep::Ack(id)),
            steps,
            k,
            id,
        ),
    ensures
        forall|k: int|
            0 <= k <= steps.len() ==> !is_pending(
                #[trigger] outbox_run(outbox_step(o, OutboxStep::Ack(id)), steps.take(k)).pending,
                id,
            ),
{
    let a = outbox_step(o, OutboxStep::Ack(id));
    lemma_without_keeps_others(o.pending, id, id);
    assert forall|k: int| 0 <= k <= steps.len() implies !is_pending(
        #[trigger] outbox_run(a, steps.take(k)).pending,
        id,
    ) by {
        let pre = steps.take(k);
        assert forall|j: int| 0 <= j < pre.len() implies !sends_as(a, pre, j, id) by {
            assert(pre[j] == steps[j]);
            assert(pre.take(j) =~= steps.take(j));
            assert(!sends_as(a, steps, j, id));
        }
        lemma_gone_kept(a, pre, id);
    }
}

/// Over a run of calls that queues no RPC under `id`, an id that is not pending stays so.
proof fn lemma_gone_kept(o: OutboxView, steps: Seq<OutboxStep>, id: u64)
    requires
        distinct_ids(o.pending),
        !is_pending(o.pending, id),
        forall|k: int| 0 <= k < steps.len() ==> !sends_as(o, steps, k, id),
    ensures
        distinct_ids(outbox_run(o, steps).pending),
        !is_pending(outbox_run(o, steps).pending, id),
    decreases steps.len(),
{
    if steps.len() > 0 {
        let prev = steps.drop_last();
        let n = steps.len() - 1;
        assert forall|k: int| 0 <= k < prev.len() implies !sends_as(o, prev, k, id) by {
            assert(prev[k] == steps[k]);
            assert(prev.take(k) =~= steps.take(k));
            assert(!sends_as(o, steps, k, id));
        }
        lemma_gone_kept(o, prev, id);
        let before = outbox_run(o, prev);
        assert(steps.take(n) =~= prev);
        assert(!sends_as(o, steps, n, id));
        lemma_first_index_bounds(before.pending, id);
        match steps.last() {
            OutboxStep::Send { src, dest, body } => {
                let e = PendingView { src, dest, body };
                lemma_insert_keeps_distinct(before.pending, before.next_id, e);
                crate::json::lemma_field_insert_other(before.pending, before.next_id, e, id);
                lemma_first_index_bounds(outbox_run(o, steps).pending, id);
            },
            OutboxStep::Ack(gone) => {
                lemma_without_keeps_others(before.pending, gone, id);
                lemma_first_index_bounds(outbox_run(o, steps).pending, id);
            },
            OutboxStep::Advance(_) => {},
        }
    }
}

/// Message ids handed out one after another are all distinct, as long as fewer than 2^64 of
/// them are handed out.
pub proof fn lemma_ids_distinct(start: u64, j: nat, k: nat)
    requires
        j < k < 0x1_0000_0000_0000_0000,
    ensures
        id_after(start, j) != id_after(start, k),
{
    let m: int = 0x1_0000_0000_0000_0000;
    let a: int = start + j;
    let b: int = start + k;
    assert(a % m == (if a < m { a } else { a - m })) by (nonlinear_arith)
        requires
            0 <= a < 2 * m,
            m == 0x1_0000_0000_0000_0000,
    ;
    assert(b % m == (if b < m { b } else { b - m })) by (nonlinear_arith)
        requires
            0 <= b < 2 * m,
            m == 0x1_0000_0000_0000_0000,
    ;
}

/// Each reply sent by `send_replies` answers the request it was paired with, under an id of
/// its own: a reply that is an object carries the request's id as `in_reply_to` and the
/// `k`-th fresh id as `msg_id`.
pub proof fn lemma_stamped_reply(replies: Seq<(MsgId, Json)>, start: u64, k: int)
    requires
        0 <= k < replies.len(),
        replies[k].1@ is Object,
    ensures
        crate::json::member(stamped(replies, start)[k], "in_reply_to"@) == Some(
            id_json(replies[k].0@),
        ),
        crate::json::member(stamped(replies, start)[k], "msg_id"@) == Some(
            id_json(id_after(start, k as nat)),
        ),
{
    let fields = replies[k].1@->Object_0;
    let with_id = field_insert(fields, "msg_id"@, id_json(id_after(start, k as nat)));
    crate::json::lemma_field_insert_lookup(with_id, "in_reply_to"@, id_json(replies[k].0@));
    crate::json::lemma_field_insert_lookup(fields, "msg_id"@, id_json(id_after(start, k as nat)));
    reveal_strlit("in_reply_to");
    reveal_strlit("msg_id");
    assert("msg_id"@.len() != "in_reply_to"@.len());
    crate::json::lemma_field_insert_other(
        with_id,
        "in_reply_to"@,
        id_json(replies[k].0@),
        "msg_id"@,
    );
}

} // verus!
