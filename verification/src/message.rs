//! The parts of a Maelstrom message: node ids, message ids, headers and bodies.

use vstd::prelude::*;

use crate::json::{Json, JsonNumber, JsonView, NumberView};

verus! {

/// All nodes (and clients) in maelstrom have a unique id.
#[derive(Debug, Eq, Hash)]
pub struct NodeId(pub String);

impl View for NodeId {
    type V = Seq<char>;

    open spec fn view(&self) -> Seq<char> {
        self.0@
    }
}

impl Clone for NodeId {
    fn clone(&self) -> (res: Self)
        ensures
            res == *self,
    {
        NodeId(self.0.clone())
    }
}

impl PartialEq for NodeId {
    fn eq(&self, other: &Self) -> (res: bool) {
        self.0 == other.0
    }
}

impl vstd::std_specs::cmp::PartialEqSpecImpl for NodeId {
    open spec fn obeys_eq_spec() -> bool {
        true
    }

    open spec fn eq_spec(&self, other: &Self) -> bool {
        self.0@ == other.0@
    }
}

impl PartialEq<&str> for NodeId {
    fn eq(&self, rhs: &&str) -> (res: bool) {
        let r: String = (*rhs).to_owned();
        self.0 == r
    }
}

impl vstd::std_specs::cmp::PartialEqSpecImpl<&str> for NodeId {
    open spec fn obeys_eq_spec() -> bool {
        true
    }

    open spec fn eq_spec(&self, rhs: &&str) -> bool {
        self.0@ == rhs@
    }
}

impl Default for NodeId {
    fn default() -> (res: Self)
        ensures
            res@ == Seq::<char>::empty(),
    {
        NodeId(String::new())
    }
}

impl From<String> for NodeId {
    fn from(s: String) -> (res: Self)
        ensures
            res == NodeId(s),
    {
        NodeId(s)
    }
}

impl vstd::std_specs::convert::FromSpecImpl<String> for NodeId {
    open spec fn obeys_from_spec() -> bool {
        true
    }

    open spec fn from_spec(s: String) -> NodeId {
        NodeId(s)
    }
}

impl From<&str> for NodeId {
    fn from(s: &str) -> (res: Self)
        ensures
            res@ == s@,
    {
        NodeId(s.to_owned())
    }
}

impl vstd::std_specs::convert::FromSpecImpl<&str> for NodeId {
    /// A `String` cannot be written down from its characters in a specification, so the
    /// exact result is stated by the `ensures` of `from` itself rather than here.
    open spec fn obeys_from_spec() -> bool {
        false
    }

    open spec fn from_spec(s: &str) -> NodeId {
        NodeId(vstd::pervasive::arbitrary())
    }
}

impl AsRef<str> for NodeId {
    fn as_ref(&self) -> (res: &str)
        ensures
            res@ == self@,
    {
        self.0.as_str()
    }
}

impl NodeId {
    /// The JSON form of a node id: the id as a JSON string.
    pub fn to_json(&self) -> (res: Json)
        ensures
            res == Json::Str(self.0),
    {
        Json::Str(self.0.clone())
    }

    /// Reads a node id back from its JSON form; anything but a string is refused.
    pub fn from_json(j: &Json) -> (res: Option<NodeId>)
        ensures
            res == (match *j {
                Json::Str(s) => Some(NodeId(s)),
                _ => None,
            }),
    {
        match j {
            Json::Str(s) => Some(NodeId(s.clone())),
            _ => None,
        }
    }

    /// Whether the id names a cluster node (`n1`, `n2`, ...) rather than a client (`c1`, ...).
    /// Only nodes understand batched envelopes.
    pub fn is_node(&self) -> (res: bool)
        ensures
            res == (self@.len() > 0 && self@[0] == 'n'),
    {
        let s: &str = self.0.as_str();
        if s.unicode_len() == 0 {
            false
        } else {
            s.get_char(0) == 'n'
        }
    }
}

/// Message bodies have whole-number ids.
#[derive(Debug, PartialEq, Eq, Hash, Structural)]
pub struct MsgId(u64);

impl Clone for MsgId {
    fn clone(&self) -> (res: Self)
        ensures
            res == *self,
    {
        MsgId(self.0)
    }
}

impl Copy for MsgId {
}

impl View for MsgId {
    type V = u64;

    closed spec fn view(&self) -> u64 {
        self.0
    }
}

/// Two message ids are the same exactly when their numbers are.
pub broadcast proof fn lemma_msg_id_view_injective(a: MsgId, b: MsgId)
    ensures
        #![trigger a@, b@]
        (a@ == b@) == (a == b),
{
}

impl core::ops::Add for MsgId {
    type Output = Self;

    fn add(self, rhs: Self) -> (res: Self)
        ensures
            res@ == self@ + rhs@,
    {
        MsgId(self.0 + rhs.0)
    }
}

impl vstd::std_specs::ops::AddSpecImpl for MsgId {
    open spec fn obeys_add_spec() -> bool {
        true
    }

    /// Adding message ids past the largest `u64` is refused, as it overflows.
    open spec fn add_req(self, rhs: Self) -> bool {
        self@ + rhs@ <= u64::MAX
    }

    closed spec fn add_spec(self, rhs: Self) -> Self {
        MsgId((self.0 + rhs.0) as u64)
    }
}

impl core::ops::Add<u64> for MsgId {
    type Output = Self;

    fn add(self, rhs: u64) -> (res: Self)
        ensures
            res@ == self@ + rhs,
    {
        MsgId(self.0 + rhs)
    }
}

impl vstd::std_specs::ops::AddSpecImpl<u64> for MsgId {
    open spec fn obeys_add_spec() -> bool {
        true
    }

    /// Adding past the largest `u64` is refused, as it overflows.
    open spec fn add_req(self, rhs: u64) -> bool {
        self@ + rhs <= u64::MAX
    }

    closed spec fn add_spec(self, rhs: u64) -> Self {
        MsgId((self.0 + rhs) as u64)
    }
}

impl From<u64> for MsgId {
    fn from(n: u64) -> (res: Self)
        ensures
            res@ == n,
    {
        MsgId(n)
    }
}

impl vstd::std_specs::convert::FromSpecImpl<u64> for MsgId {
    open spec fn obeys_from_spec() -> bool {
        true
    }

    closed spec fn from_spec(n: u64) -> MsgId {
        MsgId(n)
    }
}

impl From<MsgId> for u64 {
    fn from(id: MsgId) -> (res: u64)
        ensures
            res == id@,
    {
        id.0
    }
}

impl vstd::std_specs::convert::FromSpecImpl<MsgId> for u64 {
    open spec fn obeys_from_spec() -> bool {
        true
    }

    open spec fn from_spec(id: MsgId) -> u64 {
        id@
    }
}

impl MsgId {
    /// The JSON form of a message id: the id as a non-negative JSON integer.
    pub fn to_json(self) -> (res: Json)
        ensures
            res == Json::Number(JsonNumber::PosInt(self@)),
    {
        Json::Number(JsonNumber::PosInt(self.0))
    }

    /// Reads a message id back from its JSON form: a non-negative integer. Negative
    /// numbers, fractions and non-numbers are refused.
    pub fn from_json(j: &Json) -> (res: Option<MsgId>)
        ensures
            opt_id(res) == view_as_u64(j@),
    {
        match j {
            Json::Number(JsonNumber::PosInt(n)) => Some(MsgId(*n)),
            Json::Number(JsonNumber::NegInt(n)) => {
                if *n >= 0 {
                    Some(MsgId(*n as u64))
                } else {
                    None
                }
            },
            _ => None,
        }
    }
}

/// The non-negative integer a JSON value holds, if it holds one.
pub open spec fn view_as_u64(j: JsonView) -> Option<u64> {
    match j {
        JsonView::Number(NumberView::PosInt(n)) => Some(n),
        JsonView::Number(NumberView::NegInt(n)) => if n >= 0 {
            Some(n as u64)
        } else {
            None
        },
        _ => None,
    }
}

/// The number of an optional message id.
pub open spec fn opt_id(id: Option<MsgId>) -> Option<u64> {
    match id {
        Some(m) => Some(m@),
        None => None,
    }
}

/// The JSON forms of ids read back as the same ids: a node id is written as its string and
/// read back from it, a message id as its number.
pub proof fn lemma_json_roundtrip(n: NodeId, m: MsgId)
    ensures
        (match Json::Str(n.0) {
            Json::Str(s) => Some(NodeId(s)),
            _ => None,
        }) == Some(n),
        view_as_u64(Json::Number(JsonNumber::PosInt(m@))@) == Some(m@),
{
}

/// A [message] has a source, destination, and a body.
///
/// [message]: https://github.com/jepsen-io/maelstrom/blob/main/doc/protocol.md#messages
#[derive(Clone, Debug)]
pub struct Message<B> {
    pub src: NodeId,
    pub dest: NodeId,
    pub headers: Headers<B>,
}

/// The id fields every message body carries, beside the body proper.
#[derive(Clone, Debug)]
pub struct Headers<B> {
    pub msg_id: MsgId,
    pub in_reply_to: Option<MsgId>,
    pub body: B,
}

impl<B> Message<B> {
    pub fn body(&self) -> (res: &B)
        ensures
            *res == self.headers.body,
    {
        &self.headers.body
    }

    /// Where the reply to this message goes: from its destination back to its source, in
    /// reply to its id.
    pub fn reply_route(&self) -> (res: (NodeId, NodeId, MsgId))
        ensures
            res.0 == self.dest,
            res.1 == self.src,
            res.2 == self.headers.msg_id,
    {
        (self.dest.clone(), self.src.clone(), self.headers.msg_id)
    }
}

/// The `type` field of a message body, all that routing a message needs of it.
#[derive(Clone, Debug, Default, PartialEq)]
pub struct Type {
    pub type_: String,
}

} // verus!
