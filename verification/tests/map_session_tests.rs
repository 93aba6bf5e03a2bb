use hashrpg::block::BlockHash;
use hashrpg::codec::{decode_value, encode_value};
use hashrpg::ltime::SerializableTime;
use hashrpg::persist::{emit_keypair, emit_verifier, parse_keypair, parse_verifier};
use hashrpg::session::{
    check_auth, handle_command, AuthResponse, ClientAuthResponse, Command, ServerAuthChallenge,
    UploadResponse,
};
use hashrpg::signed::{AllowedKeys, KeyPair, Signed};
use hashrpg::store::{BlockStore, StoreError};
use hashrpg::update::{NamedHash, NamedHashCommand, Update};
use hashrpg::verify::{Verifier, VerifierError};
use hashrpg::vmap::{bootstrap_tile_libraries, MapResponse, Request, VerifierMap, VerifierRequest};

fn fresh_store(name: &str) -> BlockStore {
    let mut path = String::from("/tmp/hashrpg_test_");
    path.push_str(name);
    path.push('_');
    let tag: u64 = rand::random();
    path.push_str(&format!("{:016x}", tag));
    BlockStore::open(path.as_str()).unwrap()
}

#[test]
fn map_add_new_and_latest() {
    let mut vm = VerifierMap::new(String::from("secret/tile_library/"));
    assert!(vm.latest("main").is_none());
    let tip = BlockHash::of_data(b"root");
    vm.add_new(String::from("main"), None, None, Some(tip.clone())).unwrap();
    assert_eq!(vm.latest("main").unwrap(), tip);
    // a second verifier under the same name is refused
    let r = vm.add_new(String::from("main"), None, None, None);
    assert!(r.is_err());
    assert_eq!(vm.latest("main").unwrap(), tip);
}

#[test]
fn map_verify_dispatches_by_name() {
    let mut store = fresh_store("mapverify");
    let client = KeyPair::generate();
    let root_key = client.public.clone();
    let map_kp = KeyPair::generate();

    let mut vm = bootstrap_tile_libraries(
        &mut store,
        String::from("secret/tile_library/"),
        map_kp,
        &root_key,
    )
    .unwrap();

    let h0 = vm.latest("main").unwrap();
    let target = BlockHash::of_data(b"a tile library");
    let update = Update {
        timestamp: SerializableTime::from_secs(1000),
        command: NamedHashCommand::Bind(String::from("smile"), target.clone()),
        last: h0,
    };
    let signed = Signed::sign(&update, &client).unwrap();

    // wrong name: NoVerifier
    let miss = vm.verify::<NamedHash, NamedHashCommand>(&mut store, Signed::sign(&1u64, &client).unwrap(), "absent");
    assert_eq!(miss.unwrap_err(), VerifierError::NoVerifier);

    // right name: the update goes through the checks; it is fresh only
    // if the wall clock is near its timestamp, so only the non-clock
    // errors are ruled out here
    let r = vm.verify::<NamedHash, NamedHashCommand>(&mut store, signed, "main");
    match r {
        Ok(h1) => assert_eq!(vm.latest("main").unwrap(), h1),
        Err(e) => assert_eq!(e, VerifierError::Stale),
    }
}

#[test]
fn handle_upload_roundtrip() {
    let mut store = fresh_store("upload");
    let mut vm = VerifierMap::new(String::from("secret/tile_library/"));
    let reply = handle_command(&mut store, &mut vm, Command::UploadRaw(b"hello".to_vec()));
    let resp: UploadResponse = decode_value(&reply).unwrap();
    match resp {
        UploadResponse::Stored(h) => {
            assert_eq!(h, BlockHash::of_data(b"hello"));
            assert_eq!(store.get(&h).unwrap(), b"hello".to_vec());
        },
        UploadResponse::Failed(m) => panic!("upload failed: {}", m),
    }
}

#[test]
fn handle_map_latest_roundtrip() {
    let mut store = fresh_store("maplatest");
    let mut vm = VerifierMap::new(String::from("secret/tile_library/"));
    let tip = BlockHash::of_data(b"tip");
    vm.add_new(String::from("main"), None, None, Some(tip.clone())).unwrap();
    let reply = handle_command(
        &mut store,
        &mut vm,
        Command::MapRequest(Request::TileLibrary(String::from("main"), VerifierRequest::Latest)),
    );
    let resp: MapResponse = decode_value(&reply).unwrap();
    match resp {
        MapResponse::Latest(Some(h)) => assert_eq!(h, tip),
        _ => panic!("expected the tip back"),
    }
}

#[test]
fn wire_command_round_trip() {
    let cmd = Command::UploadRaw(vec![1, 2, 3]);
    let back: Command = decode_value(&encode_value(&cmd)).unwrap();
    match back {
        Command::UploadRaw(v) => assert_eq!(v, vec![1, 2, 3]),
        _ => panic!("wrong variant"),
    }

    let signed = Signed::sign(&7u64, &KeyPair::generate()).unwrap();
    let cmd2 = Command::MapRequest(Request::TileLibrary(
        String::from("main"),
        VerifierRequest::Update(signed),
    ));
    let back2: Command = decode_value(&encode_value(&cmd2)).unwrap();
    match back2 {
        Command::MapRequest(Request::TileLibrary(name, VerifierRequest::Update(_))) => {
            assert_eq!(name, "main");
        },
        _ => panic!("wrong variant"),
    }
}

#[test]
fn wire_map_response_round_trip() {
    let r1 = MapResponse::Latest(Some(BlockHash::of_data(b"x")));
    let b1: MapResponse = decode_value(&encode_value(&r1)).unwrap();
    match b1 {
        MapResponse::Latest(Some(h)) => assert_eq!(h, BlockHash::of_data(b"x")),
        _ => panic!("wrong variant"),
    }
    let r2 = MapResponse::VerifierResult(Err(VerifierError::Stale));
    let b2: MapResponse = decode_value(&encode_value(&r2)).unwrap();
    match b2 {
        MapResponse::VerifierResult(Err(e)) => assert_eq!(e, VerifierError::Stale),
        _ => panic!("wrong variant"),
    }
}

#[test]
fn auth_response_round_trip() {
    let a: AuthResponse = decode_value(&encode_value(&AuthResponse::Accepted)).unwrap();
    assert_eq!(a, AuthResponse::Accepted);
}

#[test]
fn upload_response_from_result() {
    let h = BlockHash::of_data(b"k");
    match UploadResponse::from_result(Ok(h.clone())) {
        UploadResponse::Stored(h2) => assert_eq!(h2, h),
        _ => panic!("wrong variant"),
    }
    match UploadResponse::from_result(Err(StoreError::Io(String::from("disk gone")))) {
        UploadResponse::Failed(m) => assert_eq!(m, "disk gone"),
        _ => panic!("wrong variant"),
    }
}

#[test]
fn auth_handshake_accepts_matching_echo() {
    // A fresh reply echoing the challenge bytes authenticates
    let client = KeyPair::generate();
    let bytes: Vec<u8> = (0u8..32u8).collect();
    let challenge =
        ServerAuthChallenge::from_parts(SerializableTime::from_secs(1000), bytes.clone()).unwrap();
    let resp =
        ClientAuthResponse::from_parts(SerializableTime::from_secs(1001), bytes).unwrap();
    let signed = Signed::sign(&resp, &client).unwrap();
    let msg = encode_value(&signed);
    let who = check_auth(&challenge, &msg, 1002).unwrap();
    assert_eq!(who, client.public);
}

#[test]
fn auth_handshake_rejects_wrong_echo() {
    // A reply with different bytes is refused
    let client = KeyPair::generate();
    let bytes: Vec<u8> = (0u8..32u8).collect();
    let wrong: Vec<u8> = (1u8..33u8).collect();
    let challenge =
        ServerAuthChallenge::from_parts(SerializableTime::from_secs(1000), bytes).unwrap();
    let resp =
        ClientAuthResponse::from_parts(SerializableTime::from_secs(1001), wrong).unwrap();
    let signed = Signed::sign(&resp, &client).unwrap();
    let msg = encode_value(&signed);
    assert!(check_auth(&challenge, &msg, 1002).is_none());
}

#[test]
fn auth_handshake_rejects_stale_reply() {
    let client = KeyPair::generate();
    let bytes: Vec<u8> = (0u8..32u8).collect();
    let challenge =
        ServerAuthChallenge::from_parts(SerializableTime::from_secs(1000), bytes.clone()).unwrap();
    let resp =
        ClientAuthResponse::from_parts(SerializableTime::from_secs(1001), bytes).unwrap();
    let signed = Signed::sign(&resp, &client).unwrap();
    let msg = encode_value(&signed);
    // the server judges the reply ten seconds after the challenge
    assert!(check_auth(&challenge, &msg, 1010).is_none());
}

#[test]
fn keypair_file_round_trip() {
    let kp = KeyPair::generate();
    let bytes = emit_keypair(&kp);
    let back = parse_keypair(&bytes).unwrap();
    assert_eq!(back.public, kp.public);
    assert_eq!(back.secret.as_bytes(), kp.secret.as_bytes());
}

#[test]
fn verifier_file_round_trip() {
    let kp = KeyPair::generate();
    let client = KeyPair::generate();
    let allowed = AllowedKeys::empty().insert(&client.public);
    let tip = BlockHash::of_data(b"tip");
    let v = Verifier::new(Some(kp.clone()), Some(allowed), Some(tip.clone()));
    let bytes = emit_verifier(&v);
    let back = parse_verifier(&bytes).unwrap();
    assert_eq!(back.keypair.public, kp.public);
    assert_eq!(back.latest.unwrap(), tip);
    assert!(back.allowed.contains(&client.public));
    assert!(!back.allowed.contains(&kp.public));

    // a verifier with no tip and no allowed keys round-trips too
    let v2 = Verifier::new(None, None, None);
    let bytes2 = emit_verifier(&v2);
    let back2 = parse_verifier(&bytes2).unwrap();
    assert!(back2.latest.is_none());
    assert_eq!(back2.keypair.public, v2.keypair.public);
}

#[test]
fn verifier_map_entries_round_trip() {
    let tip = BlockHash::of_data(b"t");
    let mut vm = VerifierMap::new(String::from("dir"));
    vm.add_new(String::from("main"), None, None, Some(tip.clone())).unwrap();
    vm.add_new(String::from("side"), None, None, None).unwrap();
    let entries = vm.to_entries();
    assert_eq!(entries.len(), 2);
    let mut loaded = Vec::new();
    for (name, bytes) in entries {
        loaded.push((name, parse_verifier(&bytes).unwrap()));
    }
    let vm2 = VerifierMap::from_entries(String::from("dir"), loaded).unwrap();
    assert_eq!(vm2.latest("main").unwrap(), tip);
    assert!(vm2.latest("side").is_none());
}

#[test]
fn empty_directory_is_not_found() {
    let r = VerifierMap::from_entries(String::from("dir"), Vec::new());
    assert!(r.is_err());
}

#[test]
fn verifier_error_wire_round_trip_all_kinds() {
    let kinds = vec![
        VerifierError::DisallowedKey,
        VerifierError::BadSignature,
        VerifierError::DecodeFailed,
        VerifierError::Stale,
        VerifierError::NotLatest,
        VerifierError::LastErr,
        VerifierError::UpdateErr,
        VerifierError::StoreErr,
        VerifierError::NoVerifier,
    ];
    for e in kinds {
        let wrapped = MapResponse::VerifierResult(Err(e));
        let back: MapResponse = decode_value(&encode_value(&wrapped)).unwrap();
        match back {
            MapResponse::VerifierResult(Err(e2)) => assert_eq!(e2, e),
            _ => panic!("wrong variant"),
        }
    }
}

#[test]
fn challenge_codec_round_trip() {
    let bytes: Vec<u8> = (100u8..132u8).collect();
    let c = ServerAuthChallenge::from_parts(SerializableTime::from_secs(7), bytes).unwrap();
    let back: ServerAuthChallenge = decode_value(&encode_value(&c)).unwrap();
    assert_eq!(back.timestamp.to_u64(), 7);
}

#[test]
fn keypair_file_rejects_junk() {
    assert!(parse_keypair(b"not a key file").is_none());
    assert!(parse_keypair(b"{\"public\":\"AAAA\",\"secret\":\"AAAA\"}").is_none());
}

#[test]
fn add_allowed_admits_new_signer() {
    let first = KeyPair::generate();
    let second = KeyPair::generate();
    let mut v = Verifier::new(None, Some(AllowedKeys::empty().insert(&first.public)), None);
    assert!(!v.allowed.contains(&second.public));
    v.add_allowed(second.public.clone());
    assert!(v.allowed.contains(&second.public));
    assert!(v.allowed.contains(&first.public));
}

#[test]
fn verifier_file_round_trip_many_keys() {
    let kp = KeyPair::generate();
    let c1 = KeyPair::generate();
    let c2 = KeyPair::generate();
    let c3 = KeyPair::generate();
    let allowed = AllowedKeys::empty()
        .insert(&c1.public)
        .insert(&c2.public)
        .insert(&c3.public);
    let v = Verifier::new(Some(kp), Some(allowed), None);
    let bytes = emit_verifier(&v);
    let back = parse_verifier(&bytes).unwrap();
    assert!(back.allowed.contains(&c1.public));
    assert!(back.allowed.contains(&c2.public));
    assert!(back.allowed.contains(&c3.public));
    assert!(!back.allowed.contains(&v.keypair.public));
    assert!(back.latest.is_none());
}
