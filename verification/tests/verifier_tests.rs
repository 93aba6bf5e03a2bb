use hashrpg::block::BlockHash;
use hashrpg::signed::{AllowedKeys, KeyPair, Signed, VerifyError};
use hashrpg::store::{BlockStore, StoreError};
use hashrpg::ltime::SerializableTime;
use hashrpg::update::{Command, NamedHash, NamedHashCommand, TestCommand, TestObject, Update};
use hashrpg::verify::{read_verified_block, Verifier, VerifierError, VerifiedData};

fn fresh_store(name: &str) -> BlockStore {
    let mut path = String::from("/tmp/hashrpg_test_");
    path.push_str(name);
    path.push('_');
    // a random suffix keeps reruns and parallel tests apart
    let tag: u64 = rand::random();
    path.push_str(&format!("{:016x}", tag));
    BlockStore::open(path.as_str()).unwrap()
}

fn signed_add(kp: &KeyPair, amount: u64, ts: u32, last: BlockHash) -> Signed {
    let update = TestCommand::Add(amount).into_update_at(SerializableTime::from_secs(ts), last);
    Signed::sign(&update, kp).unwrap()
}

#[test]
fn store_set_get_round_trip() {
    // The returned hash addresses exactly the stored bytes
    let mut store = fresh_store("setget");
    let h = store.set(b"some block bytes").unwrap();
    assert_eq!(h, BlockHash::of_data(b"some block bytes"));
    let back = store.get(&h).unwrap();
    assert_eq!(back, b"some block bytes".to_vec());
}

#[test]
fn store_set_idempotent() {
    // Storing the same bytes twice returns the same hash
    let mut store = fresh_store("idem");
    let h1 = store.set(b"dup").unwrap();
    let h2 = store.set(b"dup").unwrap();
    assert_eq!(h1, h2);
    assert_eq!(store.get(&h1).unwrap(), b"dup".to_vec());
}

#[test]
fn store_get_unknown_is_not_found() {
    let mut store = fresh_store("notfound");
    let random: [u8; 32] = rand::random();
    let h = BlockHash::from_bytes(random.to_vec()).unwrap();
    assert!(matches!(store.get(&h), Err(StoreError::NotFound)));
}

#[test]
fn signed_envelope_verifies_and_rejects() {
    let kp = KeyPair::generate();
    let other = KeyPair::generate();
    let value = TestObject(9);
    let signed = Signed::sign(&value, &kp).unwrap();

    let allowed = AllowedKeys::empty().insert(&kp.public);
    let back: TestObject = signed.verify(&allowed).unwrap();
    assert_eq!(back, value);

    // a signer outside the allow-list is refused as such
    let other_allowed = AllowedKeys::empty().insert(&other.public);
    let r: Result<TestObject, VerifyError> = signed.verify(&other_allowed);
    assert_eq!(r.unwrap_err(), VerifyError::DisallowedKey);

    // a payload of the wrong shape is a decode failure: a TestObject is
    // 8 bytes, which cannot parse as a (larger) Update
    let r2: Result<Update<TestCommand>, VerifyError> = signed.verify(&allowed);
    assert_eq!(r2.unwrap_err(), VerifyError::DecodeFailed);
}

#[test]
fn scenario_two_updates_then_walk() {
    // Root 0, add 3, add 5; the walk from the tip reads 8, 3, 0
    let mut store = fresh_store("s1");
    let client = KeyPair::generate();
    let allowed = AllowedKeys::empty().insert(&client.public);
    let mut verifier = Verifier::new(None, Some(allowed), None);
    let server_pk = verifier.keypair.public.clone();

    let h0 = verifier.force(&mut store, TestObject(0)).unwrap();
    assert_eq!(verifier.latest().unwrap(), h0);

    let s1 = signed_add(&client, 3, 1000, h0.clone());
    let h1 = verifier
        .verify_at::<TestObject, TestCommand>(&mut store, s1, 1000)
        .unwrap();
    assert_eq!(verifier.latest().unwrap(), h1);

    let s2 = signed_add(&client, 5, 1001, h1.clone());
    let h2 = verifier
        .verify_at::<TestObject, TestCommand>(&mut store, s2, 1001)
        .unwrap();
    assert_eq!(verifier.latest().unwrap(), h2);

    // walk back from the tip
    let vd2: VerifiedData<TestObject> =
        read_verified_block(&mut store, &server_pk, &h2).unwrap();
    assert_eq!(vd2.value, TestObject(8));
    let emb2 = vd2.update.unwrap();
    let u2: Update<TestCommand> = emb2
        .verify(&AllowedKeys::empty().insert(&client.public))
        .unwrap();
    assert_eq!(u2.last, h1);

    let vd1: VerifiedData<TestObject> =
        read_verified_block(&mut store, &server_pk, &u2.last).unwrap();
    assert_eq!(vd1.value, TestObject(3));
    let emb1 = vd1.update.unwrap();
    let u1: Update<TestCommand> = emb1
        .verify(&AllowedKeys::empty().insert(&client.public))
        .unwrap();
    assert_eq!(u1.last, h0);

    let vd0: VerifiedData<TestObject> =
        read_verified_block(&mut store, &server_pk, &u1.last).unwrap();
    assert_eq!(vd0.value, TestObject(0));
    assert!(vd0.update.is_none());
}

#[test]
fn scenario_second_update_not_latest() {
    // Two updates against the same tip; the second loses
    let mut store = fresh_store("s2");
    let client = KeyPair::generate();
    let allowed = AllowedKeys::empty().insert(&client.public);
    let mut verifier = Verifier::new(None, Some(allowed), None);

    let h0 = verifier.force(&mut store, TestObject(0)).unwrap();
    let s1 = signed_add(&client, 3, 1000, h0.clone());
    let h1 = verifier
        .verify_at::<TestObject, TestCommand>(&mut store, s1, 1000)
        .unwrap();

    let s2 = signed_add(&client, 4, 1000, h0.clone());
    let r = verifier.verify_at::<TestObject, TestCommand>(&mut store, s2, 1000);
    assert_eq!(r.unwrap_err(), VerifierError::NotLatest);
    assert_eq!(verifier.latest().unwrap(), h1);
}

#[test]
fn scenario_stale_update_rejected() {
    // A timestamp ten seconds old is stale; the tip does not move
    let mut store = fresh_store("s3");
    let client = KeyPair::generate();
    let allowed = AllowedKeys::empty().insert(&client.public);
    let mut verifier = Verifier::new(None, Some(allowed), None);

    let h0 = verifier.force(&mut store, TestObject(0)).unwrap();
    let s = signed_add(&client, 1, 1000, h0.clone());
    let r = verifier.verify_at::<TestObject, TestCommand>(&mut store, s, 1010);
    assert_eq!(r.unwrap_err(), VerifierError::Stale);
    assert_eq!(verifier.latest().unwrap(), h0);
}

#[test]
fn scenario_disallowed_key_rejected() {
    // A signer outside the allow-list is refused
    let mut store = fresh_store("s4");
    let client = KeyPair::generate();
    let outsider = KeyPair::generate();
    let allowed = AllowedKeys::empty().insert(&client.public);
    let mut verifier = Verifier::new(None, Some(allowed), None);

    let h0 = verifier.force(&mut store, TestObject(0)).unwrap();
    let s = signed_add(&outsider, 1, 1000, h0.clone());
    let r = verifier.verify_at::<TestObject, TestCommand>(&mut store, s, 1000);
    assert_eq!(r.unwrap_err(), VerifierError::DisallowedKey);
    assert_eq!(verifier.latest().unwrap(), h0);
}

#[test]
fn bad_signature_rejected() {
    // An envelope that declares a key it was not signed by fails
    let mut store = fresh_store("badsig");
    let client = KeyPair::generate();
    let impostor_secret = KeyPair::generate().secret;
    let forged_pair = KeyPair { public: client.public.clone(), secret: impostor_secret };
    let allowed = AllowedKeys::empty().insert(&client.public);
    let mut verifier = Verifier::new(None, Some(allowed), None);

    let h0 = verifier.force(&mut store, TestObject(0)).unwrap();
    let s = signed_add(&forged_pair, 1, 1000, h0.clone());
    let r = verifier.verify_at::<TestObject, TestCommand>(&mut store, s, 1000);
    assert_eq!(r.unwrap_err(), VerifierError::BadSignature);
}

#[test]
fn unrooted_stream_rejects_updates() {
    // only `force` creates a stream; before that every update loses
    let mut store = fresh_store("unrooted");
    let client = KeyPair::generate();
    let allowed = AllowedKeys::empty().insert(&client.public);
    let mut verifier = Verifier::new(None, Some(allowed), None);

    let fake = BlockHash::of_data(b"nowhere");
    let s = signed_add(&client, 1, 1000, fake);
    let r = verifier.verify_at::<TestObject, TestCommand>(&mut store, s, 1000);
    assert_eq!(r.unwrap_err(), VerifierError::NotLatest);
}

#[test]
fn named_hash_stream_history() {
    // Set a name, overwrite it, and recover both versions by walk
    let mut store = fresh_store("s6");
    let client = KeyPair::generate();
    let allowed = AllowedKeys::empty().insert(&client.public);
    let mut verifier = Verifier::new(None, Some(allowed), None);
    let server_pk = verifier.keypair.public.clone();

    let target1 = BlockHash::of_data(b"tile library one");
    let target2 = BlockHash::of_data(b"tile library two");

    let h0 = verifier.force(&mut store, NamedHash::new()).unwrap();

    let u1 = Update {
        timestamp: SerializableTime::from_secs(1000),
        command: NamedHashCommand::Bind(String::from("smile"), target1.clone()),
        last: h0.clone(),
    };
    let s1 = Signed::sign(&u1, &client).unwrap();
    let h1 = verifier
        .verify_at::<NamedHash, NamedHashCommand>(&mut store, s1, 1000)
        .unwrap();

    let u2 = Update {
        timestamp: SerializableTime::from_secs(1001),
        command: NamedHashCommand::Bind(String::from("smile"), target2.clone()),
        last: h1.clone(),
    };
    let s2 = Signed::sign(&u2, &client).unwrap();
    let h2 = verifier
        .verify_at::<NamedHash, NamedHashCommand>(&mut store, s2, 1001)
        .unwrap();

    let vd2: VerifiedData<NamedHash> =
        read_verified_block(&mut store, &server_pk, &h2).unwrap();
    assert_eq!(vd2.value.lookup("smile").unwrap(), target2);

    let vd1: VerifiedData<NamedHash> =
        read_verified_block(&mut store, &server_pk, &h1).unwrap();
    assert_eq!(vd1.value.lookup("smile").unwrap(), target1);

    let vd0: VerifiedData<NamedHash> =
        read_verified_block(&mut store, &server_pk, &h0).unwrap();
    assert!(vd0.value.lookup("smile").is_none());
}

#[test]
fn replay_reproduces_tip() {
    // Replaying the same root and the same signed updates, byte for
    // byte, yields the same blocks and the same final tip
    let mut store_a = fresh_store("replay_a");
    let mut store_b = fresh_store("replay_b");
    let server = KeyPair::generate();
    let client = KeyPair::generate();
    let allowed = AllowedKeys::empty().insert(&client.public);

    let mut va = Verifier::new(Some(server.clone()), Some(allowed.clone()), None);
    let mut vb = Verifier::new(Some(server), Some(allowed), None);

    let ha0 = va.force(&mut store_a, TestObject(1)).unwrap();
    let hb0 = vb.force(&mut store_b, TestObject(1)).unwrap();
    assert_eq!(ha0, hb0);

    let s1 = signed_add(&client, 41, 1000, ha0.clone());
    let s1_copy = signed_add(&client, 41, 1000, hb0.clone());
    let ha1 = va
        .verify_at::<TestObject, TestCommand>(&mut store_a, s1, 1000)
        .unwrap();
    let hb1 = vb
        .verify_at::<TestObject, TestCommand>(&mut store_b, s1_copy, 1003)
        .unwrap();
    assert_eq!(ha1, hb1);
}

#[test]
fn update_err_when_command_rejects() {
    let mut store = fresh_store("updateerr");
    let client = KeyPair::generate();
    let allowed = AllowedKeys::empty().insert(&client.public);
    let mut verifier = Verifier::new(None, Some(allowed), None);

    let h0 = verifier.force(&mut store, TestObject(u64::MAX)).unwrap();
    let s = signed_add(&client, 1, 1000, h0.clone());
    let r = verifier.verify_at::<TestObject, TestCommand>(&mut store, s, 1000);
    assert_eq!(r.unwrap_err(), VerifierError::UpdateErr);
    assert_eq!(verifier.latest().unwrap(), h0);
}
