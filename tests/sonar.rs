use sonar_client::codec::{
    as_hex, decode_link, encode_link, from_hex, parse_decimal, u32_from_integer, CodecError, Json,
};
use sonar_client::schema::{Link, PullResponse, Record};
use sonar_client::subscription::{Command, Emit, Event, SubState};
use sonar_client::{Client, Collection, DEFAULT_ENDPOINT};

#[test]
fn it_works() {
    assert_eq!(2 + 2, 4);
}

fn record(id: &str, lseq: u64) -> Record {
    Record {
        id: id.to_string(),
        typ: "doc".to_string(),
        key: None,
        timestamp: None,
        lseq: Some(lseq),
        value: Some(Json::from_raw("{\"a\":1}".to_string()).unwrap()),
    }
}

fn batch(cursor: u64, messages: Vec<Record>, finished: bool) -> PullResponse {
    PullResponse { cursor, messages, finished }
}

#[test]
fn key_round_trip() {
    let key = Some(vec![0x00u8, 0xab, 0x10, 0xff]);
    let text = as_hex(&key).unwrap();
    assert_eq!(text, "00ab10ff");
    assert_eq!(from_hex(Some(text.as_str())).unwrap(), key);
}

#[test]
fn key_absent() {
    assert_eq!(as_hex(&None), None);
    assert_eq!(from_hex(None).unwrap(), None);
}

#[test]
fn key_rejects_odd_and_non_hex() {
    assert!(matches!(from_hex(Some("abc")), Err(CodecError::InvalidHex(_))));
    assert!(matches!(from_hex(Some("zz")), Err(CodecError::InvalidHex(_))));
    assert_eq!(from_hex(Some("AB")).unwrap(), Some(vec![0xab]));
    assert_eq!(from_hex(Some("")).unwrap(), Some(vec![]));
}

#[test]
fn link_round_trip() {
    let link = Link { key: vec![0xde, 0xad, 0x01], seq: 42 };
    let text = encode_link(&link);
    assert_eq!(text, "dead01@42");
    let back = decode_link(&text).unwrap();
    assert_eq!(back.key, link.key);
    assert_eq!(back.seq, link.seq);
    let max = Link { key: vec![], seq: u64::MAX };
    let text = encode_link(&max);
    assert_eq!(text, "@18446744073709551615");
    assert_eq!(decode_link(&text).unwrap().seq, u64::MAX);
}

#[test]
fn link_separator_count() {
    assert_eq!(decode_link("dead01"), Err(CodecError::MissingSeparator));
    assert_eq!(decode_link("dead@1@2"), Err(CodecError::InvalidSeq));
    assert_eq!(decode_link("@@"), Err(CodecError::InvalidSeq));
}

#[test]
fn link_bad_parts() {
    assert!(matches!(decode_link("xyz@1"), Err(CodecError::InvalidHex(_))));
    assert!(matches!(decode_link("abc@1"), Err(CodecError::InvalidHex(_))));
    assert_eq!(decode_link("ab@"), Err(CodecError::InvalidSeq));
    assert_eq!(decode_link("ab@-1"), Err(CodecError::InvalidSeq));
    assert_eq!(decode_link("ab@18446744073709551616"), Err(CodecError::InvalidSeq));
    assert_eq!(decode_link("ab@+"), Err(CodecError::InvalidSeq));
    assert_eq!(decode_link("ab@++5"), Err(CodecError::InvalidSeq));
}

#[test]
fn link_key_must_be_lowercase() {
    assert!(matches!(decode_link("AB@1"), Err(CodecError::InvalidHex(_))));
    assert!(matches!(decode_link("aB@1"), Err(CodecError::InvalidHex(_))));
    assert_eq!(decode_link("ab@1").unwrap(), Link { key: vec![0xab], seq: 1 });
}

#[test]
fn link_seq_may_carry_plus() {
    assert_eq!(decode_link("ab@+5").unwrap(), Link { key: vec![0xab], seq: 5 });
    assert_eq!(parse_decimal("+18446744073709551615"), Some(u64::MAX));
}

#[test]
fn decimal_parsing() {
    assert_eq!(parse_decimal("0"), Some(0));
    assert_eq!(parse_decimal("1700000000"), Some(1700000000));
    assert_eq!(parse_decimal("18446744073709551615"), Some(u64::MAX));
    assert_eq!(parse_decimal(""), None);
    assert_eq!(parse_decimal("1a"), None);
    assert_eq!(parse_decimal("+7"), Some(7));
    assert_eq!(parse_decimal("+"), None);
    assert_eq!(parse_decimal("-1"), None);
}

#[test]
fn timestamp_decode() {
    assert_eq!(u32_from_integer(Some(1700000000)), Some(1700000000));
    assert_eq!(u32_from_integer(None), None);
    assert_eq!(u32_from_integer(Some(0x1_0000_0005)), None);
    assert_eq!(u32_from_integer(Some(4294967296)), None);
    assert_eq!(u32_from_integer(Some(4294967295)), Some(u32::MAX));
    assert_eq!(u32_from_integer(Some(0)), Some(0));
}

#[test]
fn json_text_kept_verbatim() {
    let text = "{ \"b\" : 1.50,\n  \"a\": [1,2] }";
    let j = Json::from_raw(text.to_string()).unwrap();
    assert_eq!(j.get(), text);
    assert_eq!(j.as_bytes(), text.as_bytes());
}

#[test]
fn json_equality_is_textual() {
    let a = Json::from_raw("{\"a\":1}".to_string()).unwrap();
    let b = Json::from_raw("{\"a\": 1}".to_string()).unwrap();
    let c = Json::from_raw("{\"a\":1}".to_string()).unwrap();
    assert_ne!(a, b);
    assert_eq!(a, c);
}

#[test]
fn json_rejects_non_json() {
    assert_eq!(Json::from_raw("{\"a\":".to_string()), Err(CodecError::InvalidJson));
    assert_eq!(Json::from_raw(String::new()), Err(CodecError::InvalidJson));
    assert_eq!(Json::from_bytes(vec![0xff, 0xfe]), Err(CodecError::InvalidUtf8));
}

#[test]
fn json_default_is_null() {
    let d = Json::default();
    assert_eq!(d.get(), "null");
    assert!(d.as_bytes().is_empty());
    assert_ne!(d, Json::from_raw("null".to_string()).unwrap());
    let e = Json::from_bytes(vec![]).unwrap();
    assert_eq!(e, d);
    let mut j = Json::from_raw("[1]".to_string()).unwrap();
    j.clear();
    assert_eq!(j, d);
    assert_eq!(j.get(), "null");
}

#[test]
fn json_from_bytes() {
    let j = Json::from_bytes(b"[true, null]".to_vec()).unwrap();
    assert_eq!(j.get(), "[true, null]");
}

#[test]
fn json_envelope() {
    let j = Json::from_raw("[1]".to_string()).unwrap();
    let mut out = vec![7u8];
    j.encode_raw(&mut out);
    assert_eq!(out, vec![7u8, 0x0a, 3, b'[', b'1', b']']);
    assert_eq!(j.encoded_len(), 5);
    let mut none = Vec::new();
    Json::default().encode_raw(&mut none);
    assert!(none.is_empty());
    assert_eq!(Json::default().encoded_len(), 0);
    let long = format!("\"{}\"", "x".repeat(200));
    let j = Json::from_raw(long.clone()).unwrap();
    let mut out = Vec::new();
    j.encode_raw(&mut out);
    assert_eq!(&out[..3], &[0x0a, 0xca, 0x01]);
    assert_eq!(&out[3..], long.as_bytes());
    assert_eq!(j.encoded_len(), 205);
}

#[test]
fn client_urls() {
    let client = Client::default();
    assert_eq!(client.endpoint(), DEFAULT_ENDPOINT);
    assert_eq!(client.url("/x"), "http://localhost:9191/api/x");
    let client = Client::new("http://h:1");
    let col = client.collection("default");
    assert_eq!(col.name(), "default");
    assert_eq!(col.url("/events"), "http://h:1/collection/default/events");
    assert_eq!(col.events_url(), "http://h:1/collection/default/events");
    assert_eq!(col.query_url("search"), "http://h:1/collection/default/query/search");
    assert_eq!(col.pull_url("sub"), "http://h:1/collection/default/subscription/sub");
    assert_eq!(col.ack_url("sub", 1234), "http://h:1/collection/default/subscription/sub/1234");
    let again = Collection::new(Client::new("http://h:1"), "other");
    assert_eq!(again.url(""), "http://h:1/collection/other");
}

#[test]
fn scripted_pulls_surface_one_batch() {
    let col = Client::default().collection("default");
    let mut sub = col.subscribe("reader");
    assert_eq!(sub.name(), "reader");
    assert_eq!(sub.engine().state, SubState::Init);
    let mut items = Vec::new();

    let out = sub.step(Event::Start);
    assert_eq!(out.command, Command::Pull);
    let out = sub.step(Event::Pulled(batch(1, vec![record("m1", 1)], false)));
    assert_eq!(out.command, Command::Ack(1));
    if let Emit::Batch(b) = out.emit {
        items.push(b);
    }
    let out = sub.step(Event::Acked);
    assert_eq!(out.command, Command::Pull);
    assert!(matches!(out.emit, Emit::Nothing));
    let out = sub.step(Event::Pulled(batch(2, vec![], true)));
    assert_eq!(out.command, Command::Ack(2));
    assert!(matches!(out.emit, Emit::Nothing));
    let out = sub.step(Event::Acked);
    assert_eq!(out.command, Command::Wait);
    assert_eq!(sub.engine().state, SubState::Waiting);
    assert_eq!(sub.engine().last_cursor, Some(2));

    assert_eq!(items.len(), 1);
    assert_eq!(items[0].cursor, 1);
    assert_eq!(items[0].messages.len(), 1);
    assert_eq!(items[0].messages[0].id, "m1");
}

fn waiting_subscription(col: &Collection) -> sonar_client::Subscription {
    let mut sub = col.subscribe("s");
    sub.step(Event::Start);
    sub.step(Event::Pulled(batch(5, vec![], true)));
    sub.step(Event::Acked);
    assert_eq!(sub.engine().state, SubState::Waiting);
    sub
}

#[test]
fn notification_causes_one_pull() {
    let col = Client::default().collection("c");
    let mut sub = waiting_subscription(&col);
    let out = sub.step(Event::Notified);
    assert_eq!(out.command, Command::Pull);
    assert!(matches!(out.emit, Emit::Nothing));
    assert_eq!(sub.engine().state, SubState::Pulling);
    assert!(!sub.accepts(&Event::Notified));
    assert!(sub.accepts(&Event::PullFailed));
}

#[test]
fn stream_end_terminates() {
    let col = Client::default().collection("c");
    let mut sub = waiting_subscription(&col);
    let out = sub.step(Event::StreamClosed);
    assert!(matches!(out.emit, Emit::End));
    assert_eq!(out.command, Command::Stop);
    assert_eq!(sub.engine().state, SubState::Ended);
    assert!(!sub.accepts(&Event::Notified));
    assert!(!sub.accepts(&Event::Start));
}

#[test]
fn stream_error_surfaces_then_ends() {
    let col = Client::default().collection("c");
    let mut sub = waiting_subscription(&col);
    let out = sub.step(Event::StreamFailed);
    assert!(matches!(out.emit, Emit::Failure));
    assert_eq!(out.command, Command::Stop);
    assert_eq!(sub.engine().state, SubState::Ended);
}

#[test]
fn failures_are_surfaced_and_retried() {
    let col = Client::default().collection("c");
    let mut sub = col.subscribe("s");
    sub.step(Event::Start);
    let out = sub.step(Event::PullFailed);
    assert!(matches!(out.emit, Emit::Failure));
    assert_eq!(out.command, Command::Pull);
    let out = sub.step(Event::Pulled(batch(9, vec![record("r", 3)], false)));
    assert!(matches!(out.emit, Emit::Batch(_)));
    let out = sub.step(Event::AckFailed);
    assert!(matches!(out.emit, Emit::Failure));
    assert_eq!(out.command, Command::Ack(9));
    assert_eq!(sub.engine().state, SubState::Acknowledging);
}

#[test]
fn ack_uses_latest_cursor() {
    let col = Client::default().collection("c");
    let mut sub = col.subscribe("s");
    sub.step(Event::Start);
    let out = sub.step(Event::Pulled(batch(3, vec![record("a", 1)], false)));
    assert_eq!(out.command, Command::Ack(3));
    sub.step(Event::Acked);
    let out = sub.step(Event::Pulled(batch(8, vec![record("b", 2)], false)));
    assert_eq!(out.command, Command::Ack(8));
    let out = sub.step(Event::AckFailed);
    assert_eq!(out.command, Command::Ack(8));
}

#[test]
fn subscription_keeps_collection() {
    let col = Client::new("http://h:2").collection("things");
    let sub = col.subscribe("n");
    assert_eq!(sub.collection().name(), "things");
    assert_eq!(sub.collection().pull_url(sub.name()), "http://h:2/collection/things/subscription/n");
}

#[test]
fn json_payload_from_envelope() {
    let (j, left) = Json::read_payload(2, &[3, b'[', b'1', b']', 9]).unwrap();
    assert_eq!(j.get(), "[1]");
    assert_eq!(left, 1);
    let (empty, left) = Json::read_payload(2, &[0]).unwrap();
    assert_eq!(empty, Json::default());
    assert_eq!(left, 0);
    assert!(matches!(Json::read_payload(2, &[5, b'1']), Err(CodecError::Envelope(_))));
    assert!(matches!(Json::read_payload(2, &[]), Err(CodecError::Envelope(_))));
    assert_eq!(Json::read_payload(2, &[2, b'{', b'x']), Err(CodecError::InvalidJson));
    let mut out = Vec::new();
    Json::from_raw("{\"k\":[true]}".to_string()).unwrap().encode_raw(&mut out);
    let (back, left) = Json::read_payload(2, &out[1..]).unwrap();
    assert_eq!(back.get(), "{\"k\":[true]}");
    assert_eq!(left, 0);
}

#[test]
fn json_payload_wrong_wire_type() {
    assert!(matches!(Json::read_payload(0, &[1, b'1']), Err(CodecError::Envelope(_))));
}

#[test]
fn json_merge_field_dispatch() {
    let mut j = Json::default();
    let left = j.merge_field(1, 2, &[3, b'[', b'1', b']', 7, 7]).unwrap();
    assert_eq!(left, 2);
    assert_eq!(j.get(), "[1]");
    let left = j.merge_field(2, 2, &[2, b'x', b'y', 9]).unwrap();
    assert_eq!(left, 1);
    assert_eq!(j.get(), "[1]");
    let left = j.merge_field(3, 5, &[1, 2, 3, 4, 5]).unwrap();
    assert_eq!(left, 1);
    let left = j.merge_field(3, 1, &[0; 8]).unwrap();
    assert_eq!(left, 0);
    assert!(matches!(j.merge_field(3, 1, &[0; 7]), Err(CodecError::Envelope(_))));
    assert!(matches!(j.merge_field(3, 4, &[0]), Err(CodecError::Envelope(_))));
    assert!(matches!(j.merge_field(1, 0, &[1]), Err(CodecError::Envelope(_))));
    assert_eq!(j.merge_field(1, 2, &[1, b'{']), Err(CodecError::InvalidJson));
    assert_eq!(j.get(), "[1]");
    let left = j.merge_field(1, 2, &[0]).unwrap();
    assert_eq!(left, 0);
    assert_eq!(j, Json::default());
}
