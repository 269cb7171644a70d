use dist_sys_rs::kafka::{KafkaServer, Storage};
use dist_sys_rs::message::{BodyKind, Message, MessageBuilder, Value};
use dist_sys_rs::server::Fatal;

fn fresh_storage() -> Storage {
    Storage::new(None, Vec::new()).unwrap()
}

fn fresh_server(node_id: &str) -> KafkaServer {
    let mut server = KafkaServer::new(fresh_storage());
    let msg = MessageBuilder::new()
        .insert("node_id", Value::Str(node_id.to_string()))
        .build();
    server.step(&msg).unwrap();
    server
}

fn send_msg(key: &str, value: usize) -> Message {
    MessageBuilder::new()
        .bodykind(BodyKind::Send)
        .insert("key", Value::Str(key.to_string()))
        .insert("msg", Value::UInt(value))
        .build()
}

fn offsets_msg(kind: BodyKind, pairs: Vec<(&str, usize)>) -> Message {
    let pairs: Vec<(String, usize)> = pairs.into_iter().map(|(k, v)| (k.to_string(), v)).collect();
    MessageBuilder::new()
        .bodykind(kind)
        .insert("offsets", Value::OffsetPairs(pairs))
        .build()
}

#[test]
fn test_append_offsets_in_call_order() {
    // repeated appends under one key are assigned offsets 0, 1, 2, …
    let mut storage = fresh_storage();
    for expected in 0..5 {
        let (offset, _line) = storage.append("k1", 42);
        assert_eq!(expected, offset);
    }
}

#[test]
fn test_append_and_read() {
    let mut storage = fresh_storage();
    storage.append("k1", 100);
    storage.append("k1", 101);
    storage.append("k2", 100);
    storage.append("k1", 102);
    storage.append("k2", 101);
    storage.append("k1", 103);

    let mut read_offsets = dist_sys_rs::dict::Dict::new();
    read_offsets.insert("k1".to_string(), 1);
    read_offsets.insert("k2".to_string(), 0);

    let res = storage.read_from(&read_offsets).unwrap();

    let v = res.get("k1").unwrap();
    assert_eq!(&vec![(1_usize, 101), (2_usize, 102), (3_usize, 103)], v);

    let v = res.get("k2").unwrap();
    assert_eq!(&vec![(0, 100), (1, 101)], v);
}

#[test]
fn test_read_from_omits_absent_keys() {
    let mut storage = fresh_storage();
    storage.append("k1", 9);
    let mut req = dist_sys_rs::dict::Dict::new();
    req.insert("k1".to_string(), 5);
    req.insert("nope".to_string(), 0);
    let res = storage.read_from(&req).unwrap();
    // k1 has no entry at offset 5 or later; "nope" is not in the log
    assert!(res.get("k1").is_none());
    assert!(res.get("nope").is_none());
}

#[test]
fn test_read_from_bad_record_is_fatal() {
    let storage = Storage::new(None, vec!["garbage".to_string()]).unwrap();
    let req = dist_sys_rs::dict::Dict::new();
    assert_eq!(Err(Fatal::BadRecord), storage.read_from(&req).map(|_| ()));
}

#[test]
fn test_restart_reconstructs_offsets() {
    // an orderly shutdown snapshot, loaded by a fresh store over the same
    // log-space, reconstructs the offset table present at shutdown.
    let mut storage = fresh_storage();
    let mut lines: Vec<String> = Vec::new();
    for (key, value) in [("k1", 7), ("k2", 8), ("k1", 9), ("a b", 10)] {
        let (_, line) = storage.append(key, value);
        lines.push(line);
    }
    let snapshot = storage.write_meta();

    let restarted = Storage::new(Some(&snapshot), lines).unwrap();
    assert!(restarted.offsets().contains_key("k1"));
    assert!(!restarted.offsets().contains_key("k3"));
    assert_eq!(Some(&1), restarted.offsets().get("k1"));
    assert_eq!(Some(&0), restarted.offsets().get("k2"));
    assert_eq!(Some(&0), restarted.offsets().get("a b"));
    assert_eq!(None, restarted.offsets().get("k3"));

    // appends continue where the old store stopped
    let mut restarted = restarted;
    let (offset, _) = restarted.append("k1", 11);
    assert_eq!(2, offset);
}

#[test]
fn test_bad_snapshot_is_fatal() {
    assert!(matches!(
        Storage::new(Some("not a snapshot"), Vec::new()),
        Err(Fatal::BadSnapshot)
    ));
}

#[test]
fn test_send() {
    let mut server = fresh_server("n0");
    let msg = MessageBuilder::new()
        .bodykind(BodyKind::Send)
        .msg_id(200)
        .insert("key", Value::Str("k1".to_string()))
        .insert("msg", Value::UInt(123))
        .build();
    let (reply, persist) = server.step(&msg).unwrap();
    let reply = reply.unwrap();

    assert_eq!(BodyKind::SendOk, reply.body.kind);
    assert_eq!(Some(200), reply.body.reply_to);
    assert_eq!(0, reply.body.payload.get_usize("offset"));
    assert_eq!(0, *server.storage().offsets().get("k1").unwrap());
    assert_eq!("0:k1:123", persist.unwrap());
}

#[test]
fn test_poll() {
    let mut server = fresh_server("n0");
    server.step(&send_msg("k1", 123)).unwrap();
    server.step(&send_msg("k1", 123)).unwrap();
    server.step(&send_msg("k2", 122)).unwrap();

    let msg = offsets_msg(BodyKind::Poll, vec![("k1", 1), ("k2", 0)]);
    let (reply, _) = server.step(&msg).unwrap();
    let reply = reply.unwrap();
    assert_eq!(BodyKind::PollOk, reply.body.kind);
    let msgs = match reply.body.payload.get_raw("msgs") {
        Value::EntryLists(lists) => lists.clone(),
        other => panic!("unexpected payload value: {:?}", other),
    };
    let k1: &Vec<(usize, usize)> = &msgs.iter().find(|p| p.0 == "k1").unwrap().1;
    let k2: &Vec<(usize, usize)> = &msgs.iter().find(|p| p.0 == "k2").unwrap().1;
    assert_eq!((1, 123), k1[0]);
    assert_eq!((0, 122), k2[0]);
}

#[test]
fn test_commit_offsets() {
    let mut server = fresh_server("n0");
    let msg = offsets_msg(BodyKind::CommitOffsets, vec![("k1", 1000), ("k2", 2000)]);
    let (reply, _) = server.step(&msg).unwrap();
    assert_eq!(BodyKind::CommitOffsetsOk, reply.unwrap().body.kind);
}

#[test]
fn test_list_committed_offsets() {
    let mut server = fresh_server("n0");
    server.step(&offsets_msg(BodyKind::CommitOffsets, vec![("k1", 1000), ("k2", 2000)])).unwrap();
    server.step(&offsets_msg(BodyKind::CommitOffsets, vec![("k3", 2000), ("k2", 2500)])).unwrap();

    let msg = MessageBuilder::new()
        .bodykind(BodyKind::ListCommittedOffsets)
        .insert(
            "keys",
            Value::StrList(vec!["k1".to_string(), "k2".to_string()]),
        )
        .build();
    let (reply, _) = server.step(&msg).unwrap();
    let reply = reply.unwrap();
    assert_eq!(BodyKind::ListCommittedOffsetsOk, reply.body.kind);

    let ret = match reply.body.payload.get_raw("offsets") {
        Value::OffsetPairs(pairs) => pairs.clone(),
        other => panic!("unexpected payload value: {:?}", other),
    };
    assert_eq!(2, ret.len());
    assert_eq!(1000, ret.iter().find(|p| p.0 == "k1").unwrap().1);
    assert_eq!(2500, ret.iter().find(|p| p.0 == "k2").unwrap().1);
}

#[test]
fn test_commit_offsets_overwrite_not_max() {
    // a later commit with a smaller offset wins: overwrite, not maximum
    let mut server = fresh_server("n0");
    server.step(&offsets_msg(BodyKind::CommitOffsets, vec![("k1", 1000)])).unwrap();
    server.step(&offsets_msg(BodyKind::CommitOffsets, vec![("k1", 500)])).unwrap();

    let msg = MessageBuilder::new()
        .bodykind(BodyKind::ListCommittedOffsets)
        .insert("keys", Value::StrList(vec!["k1".to_string()]))
        .build();
    let (reply, _) = server.step(&msg).unwrap();
    let ret = match reply.unwrap().body.payload.get_raw("offsets") {
        Value::OffsetPairs(pairs) => pairs.clone(),
        other => panic!("unexpected payload value: {:?}", other),
    };
    assert_eq!(vec![("k1".to_string(), 500)], ret);
}

#[test]
fn test_end_to_end_send_then_poll() {
    let mut server = KafkaServer::new(fresh_storage());
    let init = MessageBuilder::new()
        .insert("node_id", Value::Str("n1".to_string()))
        .build();
    let (reply, _) = server.step(&init).unwrap();
    let reply = reply.unwrap();
    assert_eq!(BodyKind::InitOk, reply.body.kind);
    assert_eq!("n1", reply.src);

    let (reply, _) = server.step(&send_msg("k1", 123)).unwrap();
    assert_eq!(0, reply.unwrap().body.payload.get_usize("offset"));
    let (reply, _) = server.step(&send_msg("k1", 124)).unwrap();
    assert_eq!(1, reply.unwrap().body.payload.get_usize("offset"));

    let (reply, _) = server.step(&offsets_msg(BodyKind::Poll, vec![("k1", 0)])).unwrap();
    let msgs = match reply.unwrap().body.payload.get_raw("msgs") {
        Value::EntryLists(lists) => lists.clone(),
        other => panic!("unexpected payload value: {:?}", other),
    };
    assert_eq!(1, msgs.len());
    assert_eq!("k1", msgs[0].0);
    assert_eq!(vec![(0, 123), (1, 124)], msgs[0].1);
}

#[test]
fn test_send_bad_key_is_fatal() {
    let mut server = fresh_server("n0");
    assert_eq!(Err(Fatal::BadKey), server.step(&send_msg("a:b", 1)).map(|_| ()));
}

#[test]
fn test_kafka_requires_init_first() {
    let mut server = KafkaServer::new(fresh_storage());
    assert_eq!(Err(Fatal::NotInitialized), server.step(&send_msg("k1", 1)).map(|_| ()));
}

#[test]
fn test_kafka_unknown_kind_is_fatal() {
    let mut server = fresh_server("n0");
    let msg = MessageBuilder::new().bodykind(BodyKind::Echo).build();
    assert_eq!(Err(Fatal::UnknownKind), server.step(&msg).map(|_| ()));
}
