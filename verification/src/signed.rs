//! Signed envelopes: a public key plus a detached Ed25519 signature over
//! the canonical serialization of a typed payload. No payload is trusted
//! before `verify` has checked the signer against an allow-list and the
//! signature against the bytes.

use vstd::prelude::*;
use crate::codec::{Codec, bytes_eq, dec_exact, decode_value, enc_bytes, dec_bytes_at,
    encode_value, lemma_concat_split, lemma_bytes_round_trip, write_bytes, read_bytes};

verus! {

/// The Ed25519 signed message for a secret key and a message: signature
/// and message bytes, a pure function of both.
pub uninterp spec fn sign_of(sk: Seq<u8>, m: Seq<u8>) -> Seq<u8>;

/// What Ed25519 verification under a public key yields for a signed
/// message: the embedded message if the signature is valid, else nothing.
pub uninterp spec fn verify_of(pk: Seq<u8>, sm: Seq<u8>) -> Option<Seq<u8>>;

/// Whether a public key and a secret key form one Ed25519 pair.
pub uninterp spec fn ed25519_keypair(pk: Seq<u8>, sk: Seq<u8>) -> bool;

/// Relies on `sodiumoxide::crypto::sign::ed25519::gen_keypair`: a fresh
/// pair of a 32-byte public and a 64-byte secret key that match.
#[verifier::external_body]
fn ed_gen_keypair() -> (r: (Vec<u8>, Vec<u8>))
    ensures
        r.0@.len() == 32,
        r.1@.len() == 64,
        ed25519_keypair(r.0@, r.1@),
{
    let (pk, sk) = sodiumoxide::crypto::sign::ed25519::gen_keypair();
    (pk.0.to_vec(), sk.0.to_vec())
}

/// Relies on `sodiumoxide::crypto::sign::ed25519::sign`: the signed
/// message depends on the secret key and the message alone, and verifies
/// under the matching public key, yielding the message back.
#[verifier::external_body]
fn ed_sign(m: &[u8], sk: &[u8]) -> (r: Vec<u8>)
    requires
        sk@.len() == 64,
    ensures
        r@ == sign_of(sk@, m@),
        r@.len() == m@.len() + 64,
        forall|pk: Seq<u8>| ed25519_keypair(pk, sk@) ==> verify_of(pk, r@) == Some(m@),
{
    let sk = sodiumoxide::crypto::sign::ed25519::SecretKey::from_slice(sk).unwrap();
    sodiumoxide::crypto::sign::ed25519::sign(m, &sk)
}

/// Relies on `sodiumoxide::crypto::sign::ed25519::verify`: it succeeds
/// exactly on messages validly signed for the given public key and
/// returns the embedded message.
#[verifier::external_body]
fn ed_verify(sm: &[u8], pk: &[u8]) -> (r: Option<Vec<u8>>)
    requires
        pk@.len() == 32,
    ensures
        match r {
            Some(m) => verify_of(pk@, sm@) == Some(m@),
            None => verify_of(pk@, sm@) is None,
        },
{
    let pk = sodiumoxide::crypto::sign::ed25519::PublicKey::from_slice(pk).unwrap();
    sodiumoxide::crypto::sign::ed25519::verify(sm, &pk).ok()
}

/// An Ed25519 public key: 32 bytes.
#[derive(Debug, Eq, Hash)]
pub struct PublicKey {
    bytes: Vec<u8>,
}

impl View for PublicKey {
    type V = Seq<u8>;

    closed spec fn view(&self) -> Seq<u8> {
        self.bytes@
    }
}

impl DeepView for PublicKey {
    type V = Seq<u8>;

    open spec fn deep_view(&self) -> Seq<u8> {
        self.view()
    }
}

impl PartialEq for PublicKey {
    fn eq(&self, other: &PublicKey) -> (r: bool) {
        bytes_eq(self.bytes.as_slice(), other.bytes.as_slice())
    }
}

impl vstd::std_specs::cmp::PartialEqSpecImpl for PublicKey {
    open spec fn obeys_eq_spec() -> bool {
        true
    }

    open spec fn eq_spec(&self, other: &PublicKey) -> bool {
        self@ == other@
    }
}

impl Clone for PublicKey {
    fn clone(&self) -> (r: PublicKey)
        ensures
            r@ == self@,
    {
        proof {
            use_type_invariant(self);
        }
        PublicKey { bytes: vstd::slice::slice_to_vec(self.bytes.as_slice()) }
    }
}

impl PublicKey {
    #[verifier::type_invariant]
    pub open spec fn inv(self) -> bool {
        self@.len() == 32
    }

    /// Wrap 32 key bytes; any other length is refused.
    pub fn from_bytes(bytes: Vec<u8>) -> (r: Option<PublicKey>)
        ensures
            match r {
                Some(k) => bytes@.len() == 32 && k@ == bytes@,
                None => bytes@.len() != 32,
            },
    {
        if bytes.len() == 32 {
            Some(PublicKey { bytes })
        } else {
            None
        }
    }

    pub fn as_bytes(&self) -> (r: &[u8])
        ensures
            r@ == self@,
    {
        self.bytes.as_slice()
    }
}

impl Codec for PublicKey {
    open spec fn encv(v: Seq<u8>) -> Seq<u8> {
        v
    }

    open spec fn encv_wf(v: Seq<u8>) -> bool {
        v.len() == 32
    }

    open spec fn decv_at(b: Seq<u8>, i: int) -> Option<(Seq<u8>, int)> {
        if 0 <= i && i + 32 <= b.len() {
            Some((b.subrange(i, i + 32), i + 32))
        } else {
            None
        }
    }

    proof fn lemma_round_trip(v: Seq<u8>, b: Seq<u8>, i: int) {
    }

    fn encode_to(&self, out: &mut Vec<u8>) {
        proof {
            use_type_invariant(self);
        }
        out.extend_from_slice(self.bytes.as_slice());
        assert(out@ =~= old(out)@ + self.deep_view());
    }

    fn decode_at(b: &[u8], i: usize) -> (r: Option<(PublicKey, usize)>) {
        if b.len() >= 32 && i <= b.len() - 32 {
            let bytes = vstd::slice::slice_to_vec(vstd::slice::slice_subrange(b, i, i + 32));
            Some((PublicKey { bytes }, i + 32))
        } else {
            None
        }
    }
}

/// An Ed25519 secret key: 64 bytes.
#[derive(Debug)]
pub struct SecretKey {
    bytes: Vec<u8>,
}

impl View for SecretKey {
    type V = Seq<u8>;

    closed spec fn view(&self) -> Seq<u8> {
        self.bytes@
    }
}

impl Clone for SecretKey {
    fn clone(&self) -> (r: SecretKey)
        ensures
            r@ == self@,
    {
        proof {
            use_type_invariant(self);
        }
        SecretKey { bytes: vstd::slice::slice_to_vec(self.bytes.as_slice()) }
    }
}

impl SecretKey {
    #[verifier::type_invariant]
    pub open spec fn inv(self) -> bool {
        self@.len() == 64
    }

    /// Wrap 64 key bytes; any other length is refused.
    pub fn from_bytes(bytes: Vec<u8>) -> (r: Option<SecretKey>)
        ensures
            match r {
                Some(k) => bytes@.len() == 64 && k@ == bytes@,
                None => bytes@.len() != 64,
            },
    {
        if bytes.len() == 64 {
            Some(SecretKey { bytes })
        } else {
            None
        }
    }

    pub fn as_bytes(&self) -> (r: &[u8])
        ensures
            r@ == self@,
    {
        self.bytes.as_slice()
    }
}

/// A signing pair. `public` verifies what `secret` signs.
#[derive(Debug)]
pub struct KeyPair {
    pub public: PublicKey,
    pub secret: SecretKey,
}

impl Clone for KeyPair {
    fn clone(&self) -> (r: KeyPair)
        ensures
            r.public@ == self.public@,
            r.secret@ == self.secret@,
    {
        KeyPair { public: self.public.clone(), secret: self.secret.clone() }
    }
}

/// The pair is well-formed when the two keys actually match.
pub open spec fn keypair_wf(kp: KeyPair) -> bool {
    ed25519_keypair(kp.public@, kp.secret@)
}

impl KeyPair {
    /// A freshly generated Ed25519 pair.
    pub fn generate() -> (r: KeyPair)
        ensures
            keypair_wf(r),
    {
        let (pk, sk) = ed_gen_keypair();
        KeyPair { public: PublicKey { bytes: pk }, secret: SecretKey { bytes: sk } }
    }
}

/// The set of public keys allowed to sign for a stream; persistent, so a
/// snapshot can be shared without copying.
#[verifier::external_body]
#[derive(Debug)]
pub struct AllowedKeys {
    set: rpds::HashTrieSet<Vec<u8>>,
}

/// The keys an `AllowedKeys` value holds, as raw 32-byte strings.
pub uninterp spec fn allowed_contents(s: AllowedKeys) -> Set<Seq<u8>>;

impl AllowedKeys {
    /// Relies on `rpds::HashTrieSet::new`: an empty set.
    #[verifier::external_body]
    pub fn empty() -> (r: AllowedKeys)
        ensures
            allowed_contents(r) == Set::<Seq<u8>>::empty(),
    {
        AllowedKeys { set: rpds::HashTrieSet::new() }
    }

    /// Relies on `rpds::HashTrieSet::insert`: a new set with the key
    /// added; the receiver is unchanged (persistent structure).
    #[verifier::external_body]
    pub fn insert(&self, key: &PublicKey) -> (r: AllowedKeys)
        ensures
            allowed_contents(r) == allowed_contents(*self).insert(key@),
    {
        AllowedKeys { set: self.set.insert(key.bytes.clone()) }
    }

    /// Relies on `rpds::HashTrieSet::contains`: membership by `Vec<u8>`
    /// equality, which is byte equality.
    #[verifier::external_body]
    pub fn contains(&self, key: &PublicKey) -> (r: bool)
        ensures
            r == allowed_contents(*self).contains(key@),
    {
        self.set.contains(&key.bytes)
    }

    /// Relies on `rpds::HashTrieSet::iter`: every held key exactly once,
    /// in no promised order.
    #[verifier::external_body]
    pub fn elements(&self) -> (r: Vec<PublicKey>)
        ensures
            forall|i: int|
                #![trigger r@[i]]
                0 <= i < r@.len() ==> allowed_contents(*self).contains(r@[i]@) && r@[i]@.len()
                    == 32,
            forall|k: Seq<u8>| allowed_contents(*self).contains(k) ==> exists|i: int|
                0 <= i < r@.len() && r@[i]@ == k,
    {
        self.set.iter().map(|v| PublicKey { bytes: v.clone() }).collect()
    }
}

impl Clone for AllowedKeys {
    /// Relies on `rpds::HashTrieSet::clone`: an equal set.
    #[verifier::external_body]
    fn clone(&self) -> (r: AllowedKeys) {
        AllowedKeys { set: self.set.clone() }
    }
}

/// A public key together with an Ed25519-signed serialized payload.
#[derive(Debug)]
pub struct Signed {
    pub user: PublicKey,
    data: Vec<u8>,
}

/// Mathematical model of a `Signed`: the signer and the signed bytes.
pub ghost struct SignedV {
    pub user: Seq<u8>,
    pub data: Seq<u8>,
}

impl View for Signed {
    type V = SignedV;

    closed spec fn view(&self) -> SignedV {
        SignedV { user: self.user@, data: self.data@ }
    }
}

impl DeepView for Signed {
    type V = SignedV;

    open spec fn deep_view(&self) -> SignedV {
        self.view()
    }
}

impl Clone for Signed {
    fn clone(&self) -> (r: Signed)
        ensures
            r@ == self@,
    {
        let r = Signed { user: self.user.clone(), data: vstd::slice::slice_to_vec(
            self.data.as_slice(),
        ) };
        proof {
            assert(r@ == self@);
        }
        r
    }
}

#[derive(Debug, Clone, Copy, PartialEq, Eq, Structural)]
pub enum VerifyError {
    DisallowedKey,
    BadSignature,
    DecodeFailed,
}

#[derive(Debug, Clone, Copy, PartialEq, Eq, Structural)]
pub enum SignError {
    EncodeFailed,
}

impl Signed {
    /// The declared signer.
    pub fn user(&self) -> (r: &PublicKey)
        ensures
            r@ == self@.user,
    {
        &self.user
    }

    /// Serialize the payload canonically and sign it with the pair's
    /// secret key; the envelope carries the pair's public key.
    pub fn sign<T: Codec>(t: &T, keypair: &KeyPair) -> (r: Result<Signed, SignError>)
        ensures
            match r {
                Ok(s) => {
                    &&& T::encv_wf(t.deep_view())
                    &&& s@.user == keypair.public@
                    &&& s@.data == sign_of(keypair.secret@, T::encv(t.deep_view()))
                    &&& keypair_wf(*keypair) ==> verify_of(s@.user, s@.data) == Some(
                        T::encv(t.deep_view()),
                    )
                },
                Err(_) => false,
            },
    {
        proof {
            use_type_invariant(&keypair.secret);
        }
        let payload = encode_value(t);
        let data = ed_sign(payload.as_slice(), keypair.secret.as_bytes());
        Ok(Signed { user: keypair.public.clone(), data })
    }

    /// Check the signer against the allow-list, the signature against the
    /// bytes, and decode the payload; the three failures are distinct.
    pub fn verify<T: Codec>(&self, allowed: &AllowedKeys) -> (r: Result<T, VerifyError>)
        ensures
            match r {
                Ok(t) => {
                    &&& allowed_contents(*allowed).contains(self@.user)
                    &&& verify_of(self@.user, self@.data) matches Some(m) && dec_exact::<T>(m)
                        == Some(t.deep_view())
                },
                Err(VerifyError::DisallowedKey) => !allowed_contents(*allowed).contains(
                    self@.user,
                ),
                Err(VerifyError::BadSignature) => {
                    &&& allowed_contents(*allowed).contains(self@.user)
                    &&& verify_of(self@.user, self@.data) is None
                },
                Err(VerifyError::DecodeFailed) => {
                    &&& allowed_contents(*allowed).contains(self@.user)
                    &&& verify_of(self@.user, self@.data) matches Some(m) && dec_exact::<T>(m)
                        is None
                },
            },
    {
        if !allowed.contains(&self.user) {
            return Err(VerifyError::DisallowedKey);
        }
        proof {
            use_type_invariant(&self.user);
        }
        match ed_verify(self.data.as_slice(), self.user.as_bytes()) {
            None => Err(VerifyError::BadSignature),
            Some(m) => match decode_value::<T>(m.as_slice()) {
                Some(t) => Ok(t),
                None => Err(VerifyError::DecodeFailed),
            },
        }
    }
}

impl Codec for Signed {
    open spec fn encv(v: SignedV) -> Seq<u8> {
        v.user + enc_bytes(v.data)
    }

    open spec fn encv_wf(v: SignedV) -> bool {
        v.user.len() == 32 && v.data.len() <= u64::MAX
    }

    open spec fn decv_at(b: Seq<u8>, i: int) -> Option<(SignedV, int)> {
        match PublicKey::decv_at(b, i) {
            Some((user, j)) => match dec_bytes_at(b, j) {
                Some((data, k)) => Some((SignedV { user, data }, k)),
                None => None,
            },
            None => None,
        }
    }

    proof fn lemma_round_trip(v: SignedV, b: Seq<u8>, i: int) {
        lemma_concat_split(b, i, v.user, enc_bytes(v.data));
        lemma_bytes_round_trip(v.data, b, i + 32);
    }

    fn encode_to(&self, out: &mut Vec<u8>) {
        proof {
            use_type_invariant(&self.user);
        }
        self.user.encode_to(out);
        let n: usize = self.data.len();
        write_bytes(out, self.data.as_slice());
        assert(out@ =~= old(out)@ + Self::encv(self.deep_view()));
    }

    fn decode_at(b: &[u8], i: usize) -> (r: Option<(Signed, usize)>) {
        match PublicKey::decode_at(b, i) {
            Some((user, j)) => match read_bytes(b, j) {
                Some((data, k)) => Some((Signed { user, data }, k)),
                None => None,
            },
            None => None,
        }
    }
}

} // verus!
