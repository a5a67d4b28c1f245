use maelstrom::json::{Json, JsonNumber};
use maelstrom::message::{MsgId, NodeId};
use maelstrom::node::rpc::{envelope_batch, envelope_single, headed, BodyError, Outbox};

fn s(text: &str) -> String {
    text.to_string()
}

fn obj(fields: Vec<(&str, Json)>) -> Json {
    Json::Object(fields.into_iter().map(|(k, v)| (s(k), v)).collect())
}

fn num(n: u64) -> Json {
    Json::Number(JsonNumber::PosInt(n))
}

fn str_(text: &str) -> Json {
    Json::Str(s(text))
}

fn single(src: &str, dest: &str, body: Json) -> Json {
    obj(vec![("src", str_(src)), ("dest", str_(dest)), ("body", body)])
}

fn batch(src: &str, dest: &str, id: u64, bodies: Vec<Json>) -> Json {
    single(
        src,
        dest,
        obj(vec![("type", str_("batch")), ("msg_id", num(id)), ("bodies", Json::Array(bodies))]),
    )
}

#[test]
fn envelopes_have_the_wire_shape() {
    let n1 = NodeId::from("n1");
    let n2 = NodeId::from("n2");
    assert_eq!(envelope_single(&n1, &n2, num(3)), single("n1", "n2", num(3)));
    assert_eq!(
        envelope_batch(&n1, &n2, MsgId::from(5), vec![num(1), num(2)]),
        batch("n1", "n2", 5, vec![num(1), num(2)])
    );
}

#[test]
fn headed_puts_ids_before_the_body_fields() {
    let body = obj(vec![("type", str_("echo")), ("echo", str_("hi"))]);
    assert_eq!(
        headed(MsgId::from(4), Some(MsgId::from(2)), body),
        Ok(obj(vec![
            ("msg_id", num(4)),
            ("in_reply_to", num(2)),
            ("type", str_("echo")),
            ("echo", str_("hi")),
        ]))
    );
    assert_eq!(headed(MsgId::from(0), None, Json::Null), Ok(obj(vec![("msg_id", num(0))])));
    assert_eq!(headed(MsgId::from(0), None, num(1)), Err(BodyError::NotAnObject));
}

#[test]
fn body_fields_override_the_ids() {
    let body = obj(vec![("msg_id", num(99))]);
    assert_eq!(headed(MsgId::from(4), None, body), Ok(obj(vec![("msg_id", num(99))])));
}

#[test]
fn send_rpc_queues_the_body_under_a_fresh_id() {
    let mut rpc = Outbox::new();
    rpc.send_rpc("n1".into(), "n2".into(), Json::Null).unwrap();
    assert!(rpc.is_pending(MsgId::from(0)));
    let (src, bodies) = rpc.snapshot_for(&"n2".into());
    assert_eq!(src, Some(NodeId::from("n1")));
    assert_eq!(bodies, vec![obj(vec![("msg_id", num(0))])]);
}

#[test]
fn replies_and_rpcs_use_incrementing_message_ids() {
    let mut rpc = Outbox::new();
    for i in 0..10u64 {
        rpc.send_rpc("n1".into(), "n2".into(), Json::Null).unwrap();
        let reply = rpc.send_reply("n1".into(), "n2".into(), 7.into(), Json::Null).unwrap();
        assert_eq!(
            reply,
            single("n1", "n2", obj(vec![("msg_id", num(2 * i + 1)), ("in_reply_to", num(7))]))
        );
        assert!(rpc.is_pending(MsgId::from(2 * i)));
    }
    assert_eq!(rpc.next_msg_id(), MsgId::from(20));
}

#[test]
fn a_refused_body_still_uses_up_an_id() {
    let mut rpc = Outbox::new();
    assert_eq!(rpc.send_rpc("n1".into(), "n2".into(), num(1)), Err(BodyError::NotAnObject));
    assert!(!rpc.is_pending(MsgId::from(0)));
    assert_eq!(rpc.next_msg_id(), MsgId::from(1));
}

#[test]
fn notify_with_none_pending() {
    let mut rpc = Outbox::new();
    assert_eq!(rpc.notify_ok(1.into()), None);
    assert_eq!(rpc.notify_error(1.into()), None);
}

#[test]
fn notify_ok_clears_pending() {
    let mut rpc = Outbox::new();
    rpc.send_rpc("n1".into(), "n2".into(), Json::Null).unwrap();
    rpc.send_rpc("n1".into(), "n2".into(), Json::Null).unwrap();
    assert!(rpc.is_pending(1.into()));
    assert_eq!(rpc.notify_ok(1.into()), Some(1.into()));
    assert!(!rpc.is_pending(1.into()));
    assert!(rpc.is_pending(0.into()));
    assert_eq!(rpc.notify_ok(1.into()), None);
}

#[test]
fn notify_err_does_not_clear_pending() {
    let mut rpc = Outbox::new();
    rpc.send_rpc("n1".into(), "n2".into(), Json::Null).unwrap();
    rpc.send_rpc("n1".into(), "n2".into(), Json::Null).unwrap();
    assert!(rpc.is_pending(1.into()));
    assert_eq!(rpc.notify_error(1.into()), Some(1.into()));
    assert!(rpc.is_pending(1.into()));
}

#[test]
fn acknowledged_rpcs_are_no_longer_shipped() {
    let mut rpc = Outbox::new();
    rpc.send_rpc("n1".into(), "n2".into(), obj(vec![("v", num(10))])).unwrap();
    rpc.send_rpc("n1".into(), "n2".into(), obj(vec![("v", num(11))])).unwrap();
    rpc.notify_ok(0.into());
    let (_, bodies) = rpc.snapshot_for(&"n2".into());
    assert_eq!(bodies, vec![obj(vec![("msg_id", num(1)), ("v", num(11))])]);
}

#[test]
fn snapshot_keeps_only_the_destination() {
    let mut rpc = Outbox::new();
    rpc.send_rpc("n1".into(), "n2".into(), Json::Null).unwrap();
    rpc.send_rpc("n1".into(), "n3".into(), Json::Null).unwrap();
    rpc.send_rpc("n1".into(), "n2".into(), Json::Null).unwrap();
    let (src, bodies) = rpc.snapshot_for(&"n2".into());
    assert_eq!(src, Some(NodeId::from("n1")));
    assert_eq!(bodies, vec![obj(vec![("msg_id", num(0))]), obj(vec![("msg_id", num(2))])]);
    assert_eq!(rpc.snapshot_for(&"n9".into()), (None, vec![]));
}

#[test]
fn peer_flush_batches_for_nodes() {
    let mut rpc = Outbox::new();
    rpc.send_rpc("n1".into(), "n2".into(), Json::Null).unwrap();
    rpc.send_rpc("n1".into(), "n2".into(), Json::Null).unwrap();
    let out = rpc.peer_flush(&"n2".into());
    assert_eq!(
        out,
        vec![batch(
            "n1",
            "n2",
            2,
            vec![obj(vec![("msg_id", num(0))]), obj(vec![("msg_id", num(1))])]
        )]
    );
    // Still pending: shipped again next time, under a fresh envelope id.
    let again = rpc.peer_flush(&"n2".into());
    assert_eq!(
        again,
        vec![batch(
            "n1",
            "n2",
            3,
            vec![obj(vec![("msg_id", num(0))]), obj(vec![("msg_id", num(1))])]
        )]
    );
}

#[test]
fn peer_flush_sends_singles_to_clients() {
    let mut rpc = Outbox::new();
    rpc.send_rpc("n1".into(), "c1".into(), Json::Null).unwrap();
    rpc.send_rpc("n1".into(), "c1".into(), Json::Null).unwrap();
    let out = rpc.peer_flush(&"c1".into());
    assert_eq!(
        out,
        vec![
            single("n1", "c1", obj(vec![("msg_id", num(0))])),
            single("n1", "c1", obj(vec![("msg_id", num(1))])),
        ]
    );
    assert_eq!(rpc.next_msg_id(), MsgId::from(2));
}

#[test]
fn peer_flush_with_nothing_pending_sends_nothing() {
    let mut rpc = Outbox::new();
    assert_eq!(rpc.peer_flush(&"n2".into()), vec![]);
    assert_eq!(rpc.next_msg_id(), MsgId::from(0));
}

#[test]
fn send_replies_with_none_sends_nothing() {
    let mut rpc = Outbox::new();
    assert_eq!(rpc.send_replies("n1".into(), "n2".into(), vec![]), None);
    assert_eq!(rpc.next_msg_id(), MsgId::from(0));
}

#[test]
fn send_replies_with_one_sends_a_plain_message() {
    let mut rpc = Outbox::new();
    let out = rpc.send_replies(
        "n1".into(),
        "c1".into(),
        vec![(MsgId::from(5), obj(vec![("type", str_("read_ok"))]))],
    );
    assert_eq!(
        out,
        Some(single(
            "n1",
            "c1",
            obj(vec![("type", str_("read_ok")), ("msg_id", num(0)), ("in_reply_to", num(5))])
        ))
    );
}

#[test]
fn send_replies_with_several_sends_one_batch() {
    let mut rpc = Outbox::new();
    let out = rpc.send_replies(
        "n1".into(),
        "n2".into(),
        vec![
            (MsgId::from(5), obj(vec![("type", str_("a_ok"))])),
            (MsgId::from(6), num(3)),
            (MsgId::from(7), obj(vec![("type", str_("b_ok"))])),
        ],
    );
    assert_eq!(
        out,
        Some(batch(
            "n1",
            "n2",
            3,
            vec![
                obj(vec![("type", str_("a_ok")), ("msg_id", num(0)), ("in_reply_to", num(5))]),
                num(3),
                obj(vec![("type", str_("b_ok")), ("msg_id", num(2)), ("in_reply_to", num(7))]),
            ]
        ))
    );
    assert_eq!(rpc.next_msg_id(), MsgId::from(4));
}

#[test]
fn a_pending_rpc_is_shipped_at_every_wake_up_until_its_reply() {
    let mut rpc = Outbox::new();
    let sent = obj(vec![("msg_id", num(0)), ("type", str_("replicate")), ("message", num(5))]);
    rpc.send_rpc(
        "n1".into(),
        "n2".into(),
        obj(vec![("type", str_("replicate")), ("message", num(5))]),
    )
    .unwrap();
    let carries = |out: &Vec<Json>, body: &Json| match out.as_slice() {
        [Json::Object(fields)] => match &fields[2].1 {
            Json::Object(b) => match &b[2].1 {
                Json::Array(bodies) => bodies.contains(body),
                _ => false,
            },
            _ => false,
        },
        _ => false,
    };
    for round in 0..5u64 {
        // Other traffic between wake-ups: replies, other RPCs, unrelated acknowledgements.
        rpc.send_reply("n1".into(), "c1".into(), round.into(), Json::Null).unwrap();
        rpc.send_rpc("n1".into(), "n3".into(), Json::Null).unwrap();
        rpc.notify_ok(1000.into());
        let out = rpc.peer_flush(&"n2".into());
        assert!(carries(&out, &sent), "round {round}: {out:?}");
        assert!(rpc.is_pending(0.into()));
    }
    assert_eq!(rpc.notify_ok(0.into()), Some(MsgId::from(0)));
    for _ in 0..3 {
        rpc.send_rpc("n1".into(), "n3".into(), Json::Null).unwrap();
        assert_eq!(rpc.peer_flush(&"n2".into()), vec![]);
        assert!(!rpc.is_pending(0.into()));
    }
}
