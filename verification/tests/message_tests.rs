use dist_sys_rs::message::{Body, BodyKind, Message, MessageBuilder, Payload, Value};
use dist_sys_rs::server::{Fatal, ServerInner};
use dist_sys_rs::echo::EchoServer;

#[test]
fn test_message_builder() {
    let msg = MessageBuilder::new()
        .bodykind(BodyKind::BroadcastOk)
        .msg_id(10)
        .build();

    assert_eq!(BodyKind::BroadcastOk, msg.body.kind);
    assert_eq!(10, msg.body.msg_id);
}

#[test]
fn test_payload_access() {
    let mut p = Payload::init("key", Value::Str("k1".to_string()));
    assert_eq!("k1", p.get_str("key"));
    p.put("msg", Value::UInt(7));
    assert_eq!(7, p.get_usize("msg"));
    p.put("key", Value::Str("k2".to_string()));
    assert_eq!("k2", p.get_str("key"));
    assert!(p.get("absent").is_none());
}

#[test]
fn test_echo() {
    let mut server = EchoServer::default();
    let msg = Message {
        src: "n1".to_string(),
        dst: "n2".to_string(),
        body: Body {
            kind: BodyKind::Echo,
            reply_to: None,
            payload: Payload::init("echo", Value::Str("hhh".to_string())),
            msg_id: 100,
        },
    };
    let reply_msg = server.echo(&msg);
    assert_eq!(BodyKind::EchoOk, reply_msg.body.kind);
    assert_eq!(100, reply_msg.body.reply_to.unwrap());
    assert_eq!("hhh", reply_msg.body.payload.get_str("echo"));
}

#[test]
fn test_echo_step_before_init_is_fatal() {
    let mut server = EchoServer::default();
    let msg = MessageBuilder::new()
        .bodykind(BodyKind::Echo)
        .insert("echo", Value::Str("x".to_string()))
        .build();
    assert_eq!(Err(Fatal::NotInitialized), server.step(&msg).map(|_| ()));
}

#[test]
fn test_echo_step_double_init_is_fatal() {
    let mut server = EchoServer::default();
    let init = MessageBuilder::new()
        .insert("node_id", Value::Str("n1".to_string()))
        .build();
    let first = server.step(&init).unwrap().unwrap();
    assert_eq!(BodyKind::InitOk, first.body.kind);
    assert_eq!("n1", first.src);
    assert_eq!(1, first.body.msg_id);
    assert_eq!(Some(1), first.body.reply_to);
    assert_eq!(Err(Fatal::DoubleInit), server.step(&init).map(|_| ()));
}

#[test]
fn test_echo_step_missing_field_is_fatal() {
    let mut server = EchoServer::default();
    let init = MessageBuilder::new()
        .insert("node_id", Value::Str("n1".to_string()))
        .build();
    server.step(&init).unwrap();
    let msg = MessageBuilder::new().bodykind(BodyKind::Echo).build();
    assert_eq!(Err(Fatal::MissingField), server.step(&msg).map(|_| ()));
}

#[test]
fn test_echo_step_unknown_kind_is_fatal() {
    let mut server = EchoServer::default();
    let init = MessageBuilder::new()
        .insert("node_id", Value::Str("n1".to_string()))
        .build();
    server.step(&init).unwrap();
    let msg = MessageBuilder::new().bodykind(BodyKind::Generate).build();
    assert_eq!(Err(Fatal::UnknownKind), server.step(&msg).map(|_| ()));
}

#[test]
fn test_server_inner_sequencer() {
    let mut inner = ServerInner::default();
    assert_eq!(0, inner.next_msg_id());
    inner.advance();
    inner.advance();
    assert_eq!(2, inner.next_msg_id());
    assert_eq!("", inner.node_id());
}

#[test]
fn test_message_builder_reply_correlation() {
    let msg = MessageBuilder::new()
        .bodykind(BodyKind::EchoOk)
        .msg_id(3)
        .reply_to(11)
        .build();
    assert_eq!(Some(11), msg.body.reply_to);
    assert_eq!("src", msg.src);
    assert_eq!("dst", msg.dst);
}
