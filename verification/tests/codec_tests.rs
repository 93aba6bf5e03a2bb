use hashrpg::codec::{decode_value, encode_value, str_eq, bytes_eq};
use hashrpg::block::BlockHash;
use hashrpg::ltime::{check_stale, SerializableTime};
use hashrpg::http::RoundRobin;
use hashrpg::router::{PubSub, Topic, TopicClientId};
use hashrpg::update::{NamedHash, NamedHashCommand, TestCommand, TestObject, Command};

#[test]
fn u64_round_trip() {
    let x: u64 = 0x0123_4567_89ab_cdef;
    let bytes = encode_value(&x);
    assert_eq!(bytes.len(), 8);
    assert_eq!(bytes[0], 0x01);
    assert_eq!(bytes[7], 0xef);
    let back: u64 = decode_value(&bytes).unwrap();
    assert_eq!(back, x);
}

#[test]
fn u32_round_trip() {
    let x: u32 = 0xdead_beef;
    let bytes = encode_value(&x);
    assert_eq!(bytes, vec![0xde, 0xad, 0xbe, 0xef]);
    let back: u32 = decode_value(&bytes).unwrap();
    assert_eq!(back, x);
}

#[test]
fn bytes_round_trip() {
    let v: Vec<u8> = vec![9, 8, 7, 6, 5];
    let bytes = encode_value(&v);
    // eight length bytes then the payload
    assert_eq!(bytes.len(), 13);
    assert_eq!(bytes[7], 5);
    let back: Vec<u8> = decode_value(&bytes).unwrap();
    assert_eq!(back, v);
}

#[test]
fn string_round_trip() {
    let s: String = String::from("smile \u{263a} text");
    let bytes = encode_value(&s);
    let back: String = decode_value(&bytes).unwrap();
    assert_eq!(back, s);
}

#[test]
fn option_round_trip() {
    let v: Option<u64> = Some(42);
    let back: Option<u64> = decode_value(&encode_value(&v)).unwrap();
    assert_eq!(back, v);
    let n: Option<u64> = None;
    let back2: Option<u64> = decode_value(&encode_value(&n)).unwrap();
    assert_eq!(back2, n);
}

#[test]
fn trailing_bytes_are_refused() {
    let x: u32 = 7;
    let mut bytes = encode_value(&x);
    bytes.push(0);
    let back: Option<u32> = decode_value(&bytes);
    assert!(back.is_none());
}

#[test]
fn str_eq_and_bytes_eq() {
    assert!(str_eq("abc", "abc"));
    assert!(!str_eq("abc", "abd"));
    assert!(bytes_eq(&[1, 2], &[1, 2]));
    assert!(!bytes_eq(&[1, 2], &[1, 3]));
}

#[test]
fn block_hash_base64_round_trip() {
    let h = BlockHash::of_data(b"hello block");
    let text = h.to_base64();
    // 32 bytes become 43 unpadded base64url characters
    assert_eq!(text.len(), 43);
    let back = BlockHash::from_base64(text.as_str()).unwrap();
    assert_eq!(back, h);
}

#[test]
fn block_hash_codec_round_trip() {
    let h = BlockHash::of_data(b"xyz");
    let bytes = encode_value(&h);
    assert_eq!(bytes.len(), 32);
    let back: BlockHash = decode_value(&bytes).unwrap();
    assert_eq!(back, h);
}

#[test]
fn block_hash_from_bytes_checks_length() {
    assert!(BlockHash::from_bytes(vec![0u8; 32]).is_some());
    assert!(BlockHash::from_bytes(vec![0u8; 31]).is_none());
}

#[test]
fn check_stale_window() {
    // fresh: now == ts, and up to 4 seconds later
    assert!(!check_stale(100, 100, 5));
    assert!(!check_stale(104, 100, 5));
    // stale: exactly the window, or older
    assert!(check_stale(105, 100, 5));
    assert!(check_stale(200, 100, 5));
    // timestamps in the future are stale too
    assert!(check_stale(99, 100, 5));
}

#[test]
fn serializable_time_to_u64() {
    let t = SerializableTime::from_secs(1234);
    assert_eq!(t.to_u64(), 1234);
}

#[test]
fn test_command_process_adds() {
    let r = TestCommand::Add(3).process(TestObject(4)).unwrap();
    assert_eq!(r, TestObject(7));
}

#[test]
fn test_command_process_rejects_overflow() {
    let r = TestCommand::Add(1).process(TestObject(u64::MAX));
    assert!(r.is_err());
}

#[test]
fn named_hash_set_and_lookup() {
    let h1 = BlockHash::of_data(b"one");
    let h2 = BlockHash::of_data(b"two");
    let m = NamedHash::new();
    assert!(m.lookup("smile").is_none());
    let m1 = m.set("smile", &h1);
    assert_eq!(m1.lookup("smile").unwrap(), h1);
    let m2 = m1.set("smile", &h2);
    assert_eq!(m2.lookup("smile").unwrap(), h2);
    // the earlier version still holds the earlier binding
    assert_eq!(m1.lookup("smile").unwrap(), h1);
}

#[test]
fn named_hash_codec_round_trip() {
    let h = BlockHash::of_data(b"entry");
    let m = NamedHash::new().set("a", &h).set("b", &h);
    let bytes = encode_value(&m);
    let back: NamedHash = decode_value(&bytes).unwrap();
    assert_eq!(back.lookup("a").unwrap(), h);
    assert_eq!(back.lookup("b").unwrap(), h);
    assert!(back.lookup("c").is_none());
}

#[test]
fn round_robin_cycles() {
    let mut rr = RoundRobin::new(3);
    assert_eq!(rr.get_next(), 0);
    assert_eq!(rr.get_next(), 1);
    assert_eq!(rr.get_next(), 2);
    assert_eq!(rr.get_next(), 0);
}

#[test]
fn topic_client_id_next_wraps() {
    assert_eq!(TopicClientId(5).next(), TopicClientId(6));
    assert_eq!(TopicClientId(u32::MAX).next(), TopicClientId(0));
}

#[test]
fn topic_attach_detach_mute() {
    let mut t = Topic::new();
    let a = t.attach().unwrap();
    let b = t.attach().unwrap();
    assert_ne!(a, b);
    assert_eq!(t.recipients(), vec![a.0, b.0]);
    t.deactivate(a);
    assert_eq!(t.recipients(), vec![b.0]);
    t.activate(a);
    assert_eq!(t.recipients(), vec![a.0, b.0]);
    t.detach(b);
    assert_eq!(t.recipients(), vec![a.0]);
}

#[test]
fn pubsub_routes_only_existing_topics() {
    let mut ps = PubSub::new();
    assert_eq!(ps.route("news").len(), 0);
    let id = ps.attach(String::from("news")).unwrap();
    assert_eq!(ps.route("news"), vec![id.0]);
    assert_eq!(ps.route("other").len(), 0);
}

#[test]
fn sha256_known_answer() {
    // SHA-256 of "abc", in the URL-safe unpadded Base64 used on disk
    let h = BlockHash::of_data(b"abc");
    assert_eq!(h.to_base64(), "ungWv48Bz-pBQUDeXa4iI7ADYaOWF3qctBD_YfIAFa0");
}

#[test]
fn base64_rejects_wrong_length_digest() {
    // valid base64, but not 32 bytes of digest
    assert!(BlockHash::from_base64("aGVsbG8").is_none());
    // not valid base64 at all
    assert!(BlockHash::from_base64("!!!not base64!!!").is_none());
}

#[test]
fn named_hash_command_process() {
    let h = BlockHash::of_data(b"v");
    let cmd = NamedHashCommand::Bind(String::from("smile"), h.clone());
    let out = cmd.process(NamedHash::new()).unwrap();
    assert_eq!(out.lookup("smile").unwrap(), h);
}
