use dist_sys_rs::broadcast::BroadcastServer;
use dist_sys_rs::message::{Body, BodyKind, Message, MessageBuilder, Payload, Value};
use dist_sys_rs::unique_id::UniqueIdServer;

fn init_msg(node_id: &str) -> Message {
    MessageBuilder::new()
        .insert("node_id", Value::Str(node_id.to_string()))
        .build()
}

fn broadcast_msg(value: usize) -> Message {
    MessageBuilder::new()
        .bodykind(BodyKind::Broadcast)
        .insert("message", Value::UInt(value))
        .build()
}

fn topology_msg(pairs: Vec<(&str, Vec<&str>)>) -> Message {
    let lists: Vec<(String, Vec<String>)> = pairs
        .into_iter()
        .map(|(k, v)| (k.to_string(), v.into_iter().map(|s| s.to_string()).collect()))
        .collect();
    MessageBuilder::new()
        .bodykind(BodyKind::Topology)
        .insert("topology", Value::NodeLists(lists))
        .build()
}

#[test]
fn test_broadcast() {
    let mut server = BroadcastServer::default();
    let msg = Message {
        src: "n1".to_string(),
        dst: "n2".to_string(),
        body: Body {
            kind: BodyKind::Broadcast,
            reply_to: None,
            payload: Payload::init("message", Value::UInt(10)),
            msg_id: 100,
        },
    };
    let reply_msg = server.broadcast(&msg);
    assert_eq!(BodyKind::BroadcastOk, reply_msg.body.kind);
    assert_eq!(100, reply_msg.body.reply_to.unwrap());
}

#[test]
fn test_forward_batch_then_nothing() {
    // local log [10, 20] and empty cursors: each neighbor receives exactly
    // two forwards (10 then 20) and its cursor becomes 2; a second run with
    // no new local values forwards nothing.
    let mut server = BroadcastServer::default();
    server.step(&init_msg("n1")).unwrap();
    server.step(&topology_msg(vec![("n1", vec!["n2", "n3"])])).unwrap();
    server.broadcast(&broadcast_msg(10));
    server.broadcast(&broadcast_msg(20));

    let batch = server.broadcast_back().unwrap();
    assert_eq!(4, batch.len());
    let expected = [("n2", 10), ("n2", 20), ("n3", 10), ("n3", 20)];
    for (m, (dst, value)) in batch.iter().zip(expected.iter()) {
        assert_eq!("n1", m.src);
        assert_eq!(*dst, m.dst);
        assert_eq!(BodyKind::Broadcast, m.body.kind);
        assert!(m.body.reply_to.is_none());
        assert_eq!(*value, m.body.payload.get_usize("message"));
    }
    assert_eq!(2, *server.sent_idx_map.get("n2").unwrap());
    assert_eq!(2, *server.sent_idx_map.get("n3").unwrap());

    let again = server.broadcast_back().unwrap();
    assert_eq!(0, again.len());
}

#[test]
fn test_broadcast_end_to_end_forwards_to_neighbor() {
    // topology {"n1": ["n2"]} on n1: a received broadcast(7) is acknowledged
    // and the same tick emits one forward to n2 carrying 7.
    let mut server = BroadcastServer::default();
    server.step(&init_msg("n1")).unwrap();
    let (reply, sends) = server.step(&topology_msg(vec![("n1", vec!["n2"])])).unwrap();
    assert_eq!(BodyKind::TopologyOk, reply.unwrap().body.kind);
    assert_eq!(0, sends.len());

    let (reply, sends) = server.step(&broadcast_msg(7)).unwrap();
    assert_eq!(BodyKind::BroadcastOk, reply.unwrap().body.kind);
    assert_eq!(1, sends.len());
    assert_eq!("n1", sends[0].src);
    assert_eq!("n2", sends[0].dst);
    assert_eq!(BodyKind::Broadcast, sends[0].body.kind);
    assert_eq!(7, sends[0].body.payload.get_usize("message"));
}

#[test]
fn test_broadcast_ok_is_discarded() {
    let mut server = BroadcastServer::default();
    server.step(&init_msg("n1")).unwrap();
    let ack = MessageBuilder::new().bodykind(BodyKind::BroadcastOk).build();
    let (reply, sends) = server.step(&ack).unwrap();
    assert!(reply.is_none());
    assert_eq!(0, sends.len());
}

#[test]
fn test_read_returns_all_values() {
    let mut server = BroadcastServer::default();
    server.step(&init_msg("n1")).unwrap();
    server.broadcast(&broadcast_msg(3));
    server.broadcast(&broadcast_msg(5));
    let read = MessageBuilder::new().bodykind(BodyKind::Read).msg_id(9).build();
    let (reply, _) = server.step(&read).unwrap();
    let reply = reply.unwrap();
    assert_eq!(BodyKind::ReadOk, reply.body.kind);
    assert_eq!(Some(9), reply.body.reply_to);
    match reply.body.payload.get_raw("messages") {
        Value::UIntList(v) => assert_eq!(&vec![3, 5], v),
        other => panic!("unexpected payload value: {:?}", other),
    }
}

#[test]
fn test_topology_replaced_wholesale() {
    let mut server = BroadcastServer::default();
    server.step(&init_msg("n1")).unwrap();
    server.step(&topology_msg(vec![("n1", vec!["n2"]), ("n2", vec!["n1"])])).unwrap();
    server.step(&topology_msg(vec![("n2", vec!["n3"])])).unwrap();
    // the entry for n1 is gone, so nothing is forwarded
    server.broadcast(&broadcast_msg(1));
    assert!(server.broadcast_back().is_none());
}

#[test]
fn test_compose_id_exact() {
    let mut server = UniqueIdServer::default();
    server.step(&init_msg("n9")).unwrap();
    server.last_ts = 55;
    server.count = 7;
    assert_eq!("n9557", server.compose_id());
}

#[test]
fn test_generate_id_counts_within_same_millisecond() {
    let mut server = UniqueIdServer::default();
    server.step(&init_msg("n1")).unwrap();
    let a = server.generate_id(100);
    assert_eq!((100, 0), (server.last_ts, server.count));
    let b = server.generate_id(100);
    assert_eq!((100, 1), (server.last_ts, server.count));
    let c = server.generate_id(250);
    assert_eq!((250, 1), (server.last_ts, server.count));
    assert_eq!("n11000", a);
    assert_eq!("n11001", b);
    assert_eq!("n12501", c);
}

#[test]
fn test_generate_replies_with_id() {
    let mut server = UniqueIdServer::default();
    server.step(&init_msg("n1")).unwrap();
    let gen = MessageBuilder::new().bodykind(BodyKind::Generate).msg_id(4).build();
    let reply = server.step(&gen).unwrap().unwrap();
    assert_eq!(BodyKind::GenerateOk, reply.body.kind);
    assert_eq!(Some(4), reply.body.reply_to);
    let id = reply.body.payload.get_str("id");
    assert!(id.starts_with("n1"));
}
