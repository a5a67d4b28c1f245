use maelstrom::json::{Json, JsonNumber};
use maelstrom::message::{Headers, Message, MsgId, NodeId, Type};
use maelstrom::node::error::{error, Error, CRASH};
use maelstrom::node::init::{init, Init, InitOk};
use maelstrom::node::rpc::Outbox;
use maelstrom::node::state::{FromRef, RefInner, State};
use maelstrom::node::{
    collect_reply, null_body, open_batch, open_batch_text, plan_inner, route, BatchError,
    BatchRun, Route, Routes,
};

fn s(text: &str) -> String {
    text.to_string()
}

fn obj(fields: Vec<(&str, Json)>) -> Json {
    Json::Object(fields.into_iter().map(|(k, v)| (s(k), v)).collect())
}

fn num(n: u64) -> Json {
    Json::Number(JsonNumber::PosInt(n))
}

fn str_(text: &str) -> Json {
    Json::Str(s(text))
}

fn single(src: &str, dest: &str, body: Json) -> Json {
    obj(vec![("src", str_(src)), ("dest", str_(dest)), ("body", body)])
}

fn header(type_: &str, msg_id: u64, in_reply_to: Option<u64>) -> Message<Type> {
    Message {
        src: NodeId::from("c1"),
        dest: NodeId::from("n1"),
        headers: Headers {
            msg_id: MsgId::from(msg_id),
            in_reply_to: in_reply_to.map(MsgId::from),
            body: Type { type_: s(type_) },
        },
    }
}

#[test]
fn default_node_handles_init() {
    let headers = header("init", 1, None);
    assert_eq!(route(&headers), Route::Init);
    let (ids, ok) = init(Init {
        node_id: "n1".into(),
        node_ids: vec!["n1".into(), "n2".into(), "n3".into()],
    });
    assert_eq!(ok, InitOk {});
    assert_eq!(ids.id, "n1");
    assert_eq!(ids.ids, vec![NodeId::from("n1"), NodeId::from("n2"), NodeId::from("n3")]);
}

#[test]
fn routes_follow_the_body_type() {
    assert_eq!(route(&header("batch", 1, None)), Route::Batch);
    assert_eq!(route(&header("error", 1, Some(0))), Route::Error);
    assert_eq!(route(&header("echo", 1, None)), Route::Handler { notify: None });
    assert_eq!(
        route(&header("replicate_ok", 1, Some(4))),
        Route::Handler { notify: Some(MsgId::from(4)) }
    );
}

#[test]
fn error_replies_name_the_rpc_they_answer() {
    let msg = Message {
        src: NodeId::from("n2"),
        dest: NodeId::from("n1"),
        headers: Headers {
            msg_id: MsgId::from(3),
            in_reply_to: Some(MsgId::from(1)),
            body: Error { code: 13, text: s("error") },
        },
    };
    assert_eq!(error(&msg), Some(MsgId::from(1)));
    let lone = Message { headers: Headers { in_reply_to: None, ..msg.headers }, ..msg };
    assert_eq!(error(&lone), None);
}

#[test]
fn failed_handlers_answer_with_a_crash_error() {
    assert_eq!(Error::crash(s("boom")), Error { code: CRASH, text: s("boom") });
    assert_eq!(CRASH, 13);
}

#[test]
fn null_replies_are_not_sent() {
    assert!(null_body(&Json::Null));
    assert!(!null_body(&obj(vec![])));
}

fn batch_envelope(bodies: Vec<Json>) -> Json {
    single("n2", "n1", obj(vec![("type", str_("batch")), ("msg_id", num(9)), ("bodies", Json::Array(bodies))]))
}

#[test]
fn open_batch_takes_the_envelope_apart() {
    let full = batch_envelope(vec![num(1), num(2)]);
    let b = open_batch(&full).unwrap();
    assert_eq!(b.src, NodeId::from("n2"));
    assert_eq!(b.dest, NodeId::from("n1"));
    assert_eq!(b.bodies, vec![num(1), num(2)]);
    let no_bodies = single("n2", "n1", obj(vec![("type", str_("batch"))]));
    assert_eq!(open_batch(&no_bodies).unwrap().bodies, vec![]);
}

#[test]
fn open_batch_needs_src_and_dest() {
    let no_src = obj(vec![("dest", str_("n1"))]);
    assert_eq!(open_batch(&no_src).err(), Some(BatchError::MissingSrc));
    let no_dest = obj(vec![("src", str_("n2")), ("dest", num(1))]);
    assert_eq!(open_batch(&no_dest).err(), Some(BatchError::MissingDest));
}

#[test]
fn plan_inner_reads_the_body() {
    let src = NodeId::from("n2");
    let dest = NodeId::from("n1");
    let inner = obj(vec![("type", str_("replicate_ok")), ("msg_id", num(4)), ("in_reply_to", num(2))]);
    let plan = plan_inner(&src, &dest, inner.clone());
    assert_eq!(plan.notify, Some(MsgId::from(2)));
    assert_eq!(plan.handler, Some(s("replicate_ok")));
    assert_eq!(plan.reply_to, Some(MsgId::from(4)));
    assert_eq!(plan.request, single("n2", "n1", inner));

    let no_id = obj(vec![("type", str_("replicate_ok")), ("in_reply_to", num(2))]);
    let plan = plan_inner(&src, &dest, no_id);
    assert_eq!(plan.notify, None);
    assert_eq!(plan.reply_to, None);

    let untyped = obj(vec![("msg_id", num(4))]);
    assert_eq!(plan_inner(&src, &dest, untyped).handler, None);
}

#[test]
fn collect_reply_drops_null_and_unanswerable_replies() {
    let mut replies = Vec::new();
    collect_reply(&mut replies, Some(MsgId::from(1)), Json::Null);
    collect_reply(&mut replies, None, num(1));
    collect_reply(&mut replies, Some(MsgId::from(2)), num(2));
    assert_eq!(replies, vec![(MsgId::from(2), num(2))]);
}

#[test]
fn a_batch_is_answered_with_one_batch() {
    let full = batch_envelope(vec![
        obj(vec![("type", str_("read")), ("msg_id", num(1))]),
        obj(vec![("type", str_("replicate_ok")), ("msg_id", num(2)), ("in_reply_to", num(0))]),
        obj(vec![("type", str_("read")), ("msg_id", num(3))]),
    ]);
    let mut run = BatchRun::open(&full).unwrap();
    let mut notified = Vec::new();
    let mut handled = Vec::new();
    while let Some(plan) = run.next_body() {
        if let Some(id) = plan.notify {
            notified.push(id);
        }
        let ty = plan.handler.unwrap();
        handled.push(ty.clone());
        if ty == "read" {
            run.answer(obj(vec![("type", str_("read_ok"))]));
        } else {
            run.answer(Json::Null);
        }
    }
    assert_eq!(notified, vec![MsgId::from(0)]);
    assert_eq!(handled, vec![s("read"), s("replicate_ok"), s("read")]);
    let (from, to, replies) = run.finish();
    assert_eq!(from, NodeId::from("n1"));
    assert_eq!(to, NodeId::from("n2"));
    let mut rpc = Outbox::new();
    let out = rpc.send_replies(from, to, replies).unwrap();
    assert_eq!(
        out,
        single(
            "n1",
            "n2",
            obj(vec![
                ("type", str_("batch")),
                ("msg_id", num(2)),
                (
                    "bodies",
                    Json::Array(vec![
                        obj(vec![("type", str_("read_ok")), ("msg_id", num(0)), ("in_reply_to", num(1))]),
                        obj(vec![("type", str_("read_ok")), ("msg_id", num(1)), ("in_reply_to", num(3))]),
                    ])
                ),
            ])
        )
    );
}

#[test]
fn register_then_lookup() {
    let mut routes = Routes::new();
    assert_eq!(routes.lookup("echo"), None);
    assert_eq!(routes.register(s("echo")), 0);
    assert_eq!(routes.register(s("read")), 1);
    assert_eq!(routes.register(s("echo")), 0);
    assert_eq!(routes.lookup("echo"), Some(0));
    assert_eq!(routes.lookup("read"), Some(1));
    assert_eq!(routes.lookup("write"), None);
}

#[test]
fn state_hands_out_the_application_state() {
    let state = State::new(7u8, s("app"));
    assert_eq!(state.ids_source(), &7u8);
    assert_eq!(state.app_state(), "app");
    let inner: String = state.inner();
    assert_eq!(inner, "app");
    let copy: u32 = FromRef::from_ref(&5u32);
    assert_eq!(copy, 5);
}

#[test]
fn a_batch_is_read_from_its_wire_text() {
    let raw = r#"{"src":"n1","dest":"n2","body":{"type":"batch","msg_id":7,"bodies":[{"type":"read","msg_id":1},{"type":"echo","msg_id":2,"echo":-3}]}}"#;
    let mut run = open_batch_text(raw).unwrap();
    let first = run.next_body().unwrap();
    assert_eq!(first.handler, Some(s("read")));
    assert_eq!(first.reply_to, Some(MsgId::from(1)));
    assert_eq!(
        first.request,
        single("n1", "n2", obj(vec![("msg_id", num(1)), ("type", str_("read"))]))
    );
    let second = run.next_body().unwrap();
    assert_eq!(second.handler, Some(s("echo")));
    assert_eq!(
        second.request,
        single(
            "n1",
            "n2",
            obj(vec![
                ("echo", Json::Number(JsonNumber::NegInt(-3))),
                ("msg_id", num(2)),
                ("type", str_("echo")),
            ])
        )
    );
    assert!(run.next_body().is_none());
    let (from, to, replies) = run.finish();
    // The replies go back the way the batch came.
    assert_eq!((from, to), (NodeId::from("n2"), NodeId::from("n1")));
    assert!(replies.is_empty());
}

#[test]
fn batch_text_that_is_not_json_is_refused() {
    assert_eq!(open_batch_text("{\"src\": ").err(), Some(BatchError::NotJson));
    assert_eq!(open_batch_text("").err(), Some(BatchError::NotJson));
    assert_eq!(open_batch_text("not json").err(), Some(BatchError::NotJson));
}

#[test]
fn batch_text_without_src_or_dest_is_refused() {
    assert_eq!(
        open_batch_text(r#"{"dest":"n2","body":{"type":"batch","bodies":[]}}"#).err(),
        Some(BatchError::MissingSrc)
    );
    assert_eq!(
        open_batch_text(r#"{"src":"n1","dest":5,"body":{"type":"batch","bodies":[]}}"#).err(),
        Some(BatchError::MissingDest)
    );
}
