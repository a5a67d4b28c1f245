use maelstrom::json::{Json, JsonNumber};
use maelstrom::message::{Headers, Message, MsgId, NodeId, Type};

fn s(text: &str) -> String {
    text.to_string()
}

#[test]
fn node_id_json_formatting() {
    let id = NodeId(s("n1"));
    assert_eq!(id.to_json(), Json::Str(s("n1")));
    assert_eq!(NodeId::from_json(&Json::Str(s("n1"))), Some(NodeId(s("n1"))));
    assert_eq!(NodeId::from_json(&Json::Number(JsonNumber::PosInt(1))), None);
}

#[test]
fn msg_id_json_formatting() {
    let id = MsgId::from(1);
    assert_eq!(id.to_json(), Json::Number(JsonNumber::PosInt(1)));
    assert_eq!(MsgId::from_json(&Json::Number(JsonNumber::PosInt(1))), Some(MsgId::from(1)));
}

#[test]
fn msg_id_refuses_negative_fractional_and_text() {
    assert_eq!(MsgId::from_json(&Json::Number(JsonNumber::NegInt(-3))), None);
    assert_eq!(MsgId::from_json(&Json::Number(JsonNumber::Float(s("1.5")))), None);
    assert_eq!(MsgId::from_json(&Json::Str(s("1"))), None);
    assert_eq!(MsgId::from_json(&Json::Null), None);
}

#[test]
fn msg_id_arithmetic_and_conversion() {
    let a = MsgId::from(40);
    let b = MsgId::from(2);
    assert_eq!(a + b, MsgId::from(42));
    assert_eq!(a + 2u64, MsgId::from(42));
    let n: u64 = (a + b).into();
    assert_eq!(n, 42);
}

#[test]
fn node_id_conversions_and_comparison() {
    let a: NodeId = "n1".into();
    let b: NodeId = String::from("n1").into();
    assert_eq!(a, b);
    assert!(a == "n1");
    assert!(!(a == "n2"));
    assert_eq!(a.as_ref(), "n1");
    assert_eq!(NodeId::default(), NodeId(String::new()));
}

#[test]
fn node_ids_name_nodes_or_clients() {
    assert!(NodeId::from("n1").is_node());
    assert!(!NodeId::from("c1").is_node());
    assert!(!NodeId::from("").is_node());
}

#[test]
fn message_body_and_reply_route() {
    let msg = Message {
        src: NodeId::from("c1"),
        dest: NodeId::from("n1"),
        headers: Headers {
            msg_id: MsgId::from(7),
            in_reply_to: None,
            body: Type { type_: s("echo") },
        },
    };
    assert_eq!(msg.body().type_, "echo");
    let (from, to, re) = msg.reply_route();
    assert_eq!(from, NodeId::from("n1"));
    assert_eq!(to, NodeId::from("c1"));
    assert_eq!(re, MsgId::from(7));
}
