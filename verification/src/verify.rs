//! The per-stream guard. A `Verifier` holds the stream's signing pair,
//! the allow-list of client keys, and the current tip. `verify_at` runs
//! the ordered checks that admit a signed update — signature, expected
//! tip, freshness, previous-block trust, deterministic application —
//! and advances the tip exactly once per accepted update. `force` writes
//! a root block and is the only path that creates a stream.

use vstd::prelude::*;
use crate::codec::{Codec, dec_exact, decode_value, encode_value, lemma_concat_split};
use crate::block::{BlockHash, sha256_of};
use crate::signed::{Signed, SignedV, VerifyError, KeyPair, keypair_wf, AllowedKeys,
    allowed_contents, PublicKey, sign_of, verify_of};
use crate::store::{BlockStore, StoreError};
use crate::update::{Update, UpdateV, Command};
use crate::ltime::{is_stale, check_stale, now_secs};

verus! {

/// An update whose timestamp is more than this many seconds old — or in
/// the future — is stale.
pub const STALE_SECONDS: u64 = 5;

/// The server-authored record at a stream tip: the post-transition value
/// and the signed client command that produced it (`None` at a root).
#[derive(Debug)]
pub struct VerifiedData<T> {
    pub value: T,
    pub update: Option<Signed>,
}

/// Mathematical model of a `VerifiedData`.
pub ghost struct VerifiedDataV<TV> {
    pub value: TV,
    pub update: Option<SignedV>,
}

impl<T: DeepView> DeepView for VerifiedData<T> {
    type V = VerifiedDataV<T::V>;

    open spec fn deep_view(&self) -> VerifiedDataV<T::V> {
        VerifiedDataV { value: self.value.deep_view(), update: self.update.deep_view() }
    }
}

impl<T: Codec> Codec for VerifiedData<T> {
    open spec fn encv(v: VerifiedDataV<T::V>) -> Seq<u8> {
        T::encv(v.value) + <Option<Signed> as Codec>::encv(v.update)
    }

    open spec fn encv_wf(v: VerifiedDataV<T::V>) -> bool {
        T::encv_wf(v.value) && <Option<Signed> as Codec>::encv_wf(v.update)
    }

    open spec fn decv_at(b: Seq<u8>, i: int) -> Option<(VerifiedDataV<T::V>, int)> {
        match T::decv_at(b, i) {
            Some((value, j)) => match <Option<Signed> as Codec>::decv_at(b, j) {
                Some((update, k)) => Some((VerifiedDataV { value, update }, k)),
                None => None,
            },
            None => None,
        }
    }

    proof fn lemma_round_trip(v: VerifiedDataV<T::V>, b: Seq<u8>, i: int) {
        let e1 = T::encv(v.value);
        let e2 = <Option<Signed> as Codec>::encv(v.update);
        lemma_concat_split(b, i, e1, e2);
        T::lemma_round_trip(v.value, b, i);
        <Option<Signed> as Codec>::lemma_round_trip(v.update, b, i + e1.len());
    }

    fn encode_to(&self, out: &mut Vec<u8>) {
        self.value.encode_to(out);
        self.update.encode_to(out);
        assert(out@ =~= old(out)@ + Self::encv(self.deep_view()));
    }

    fn decode_at(b: &[u8], i: usize) -> (r: Option<(VerifiedData<T>, usize)>) {
        match T::decode_at(b, i) {
            Some((value, j)) => match <Option<Signed> as Codec>::decode_at(b, j) {
                Some((update, k)) => Some((VerifiedData { value, update }, k)),
                None => None,
            },
            None => None,
        }
    }
}

/// Why a signed update was refused. Every failure leaves the tip
/// unchanged.
#[derive(Debug, Clone, Copy, PartialEq, Eq, Structural)]
pub enum VerifierError {
    /// The signer is not in the allow-list.
    DisallowedKey,
    /// The signature does not verify against the signer's key.
    BadSignature,
    /// The signed payload does not parse as an update.
    DecodeFailed,
    /// The timestamp lies outside the freshness window.
    Stale,
    /// The expected predecessor is not the current tip.
    NotLatest,
    /// The previous tip could not be read or is not trusted.
    LastErr,
    /// The command rejected its input.
    UpdateErr,
    /// Writing the new block failed.
    StoreErr,
    /// No verifier by the given name.
    NoVerifier,
}

/// The `VerifierError` a `VerifyError` maps to.
pub open spec fn lift_verify_error(v: VerifyError) -> VerifierError {
    match v {
        VerifyError::DisallowedKey => VerifierError::DisallowedKey,
        VerifyError::BadSignature => VerifierError::BadSignature,
        VerifyError::DecodeFailed => VerifierError::DecodeFailed,
    }
}

fn verifier_error_of(v: VerifyError) -> (r: VerifierError)
    ensures
        r == lift_verify_error(v),
{
    match v {
        VerifyError::DisallowedKey => VerifierError::DisallowedKey,
        VerifyError::BadSignature => VerifierError::BadSignature,
        VerifyError::DecodeFailed => VerifierError::DecodeFailed,
    }
}

/// The bytes of the block a verifier with the given pair authors for a
/// record: the record serialized, signed by the secret key, wrapped with
/// the public key, and serialized again.
pub open spec fn authored_block_enc<T: Codec>(
    pk: Seq<u8>,
    sk: Seq<u8>,
    vd: VerifiedDataV<T::V>,
) -> Seq<u8> {
    Signed::encv(SignedV { user: pk, data: sign_of(sk, VerifiedData::<T>::encv(vd)) })
}

/// Serialize a record, sign it, and store the signed block; the new
/// block's hash is returned. Nothing but the store changes, and even a
/// failed write can at most have landed that one block.
pub fn store_verified<T: Codec>(store: &mut BlockStore, input: T, keypair: &KeyPair) -> (r: Result<
    BlockHash,
    StoreError,
>)
    requires
        old(store).wf(),
    ensures
        final(store).wf(),
        ({
            let bytes = authored_block_enc::<T>(
                keypair.public@,
                keypair.secret@,
                VerifiedDataV { value: input.deep_view(), update: None },
            );
            match r {
                Ok(h) => h@ == sha256_of(bytes) && final(store)@ == old(store)@.insert(
                    sha256_of(bytes),
                    bytes,
                ),
                Err(_) => final(store)@ == old(store)@ || final(store)@ == old(store)@.insert(
                    sha256_of(bytes),
                    bytes,
                ),
            }
        }),
{
    let data: VerifiedData<T> = VerifiedData { value: input, update: None };
    let signed = match Signed::sign(&data, keypair) {
        Ok(s) => s,
        Err(_) => {
            return Err(StoreError::Io(String::new()));
        },
    };
    let bytes = encode_value(&signed);
    store.set(bytes.as_slice())
}

/// Per-stream head-of-chain: signing pair, allow-list, current tip.
#[derive(Debug)]
pub struct Verifier {
    pub keypair: KeyPair,
    pub allowed: AllowedKeys,
    pub latest: Option<BlockHash>,
}

impl Verifier {
    /// The stream's current tip, if a root has been written.
    pub open spec fn tip(self) -> Option<Seq<u8>> {
        match self.latest {
            Some(h) => Some(h@),
            None => None,
        }
    }

    /// Build a verifier from the given pieces; a missing keypair is
    /// freshly generated and a missing allow-list starts empty.
    pub fn new(
        with_keypair: Option<KeyPair>,
        with_allowed: Option<AllowedKeys>,
        with_latest: Option<BlockHash>,
    ) -> (r: Verifier)
        ensures
            match with_keypair {
                Some(kp) => r.keypair.public@ == kp.public@ && r.keypair.secret@ == kp.secret@,
                None => keypair_wf(r.keypair),
            },
            match with_allowed {
                Some(a) => allowed_contents(r.allowed) == allowed_contents(a),
                None => allowed_contents(r.allowed) == Set::<Seq<u8>>::empty(),
            },
            match with_latest {
                Some(h) => r.tip() == Some(h@),
                None => r.tip() is None,
            },
    {
        let keypair = match with_keypair {
            Some(kp) => kp,
            None => KeyPair::generate(),
        };
        let allowed = match with_allowed {
            Some(a) => a,
            None => AllowedKeys::empty(),
        };
        Verifier { keypair, allowed, latest: with_latest }
    }

    /// Admit another client key.
    pub fn add_allowed(&mut self, key: PublicKey)
        ensures
            allowed_contents(final(self).allowed) == allowed_contents(old(self).allowed).insert(
                key@,
            ),
            final(self).keypair.public@ == old(self).keypair.public@,
            final(self).keypair.secret@ == old(self).keypair.secret@,
            final(self).tip() == old(self).tip(),
    {
        self.allowed = self.allowed.insert(&key);
    }

    /// The current tip.
    pub fn latest(&self) -> (r: Option<BlockHash>)
        ensures
            match r {
                Some(h) => self.tip() == Some(h@),
                None => self.tip() is None,
            },
    {
        match &self.latest {
            Some(h) => Some(h.clone()),
            None => None,
        }
    }

    /// Write a root record (no embedded update) and set the tip to it
    /// unconditionally. This is the only path that creates a stream;
    /// after it, every transition flows through `verify_at`.
    pub fn force<T: Codec>(&mut self, store: &mut BlockStore, input: T) -> (r: Result<
        BlockHash,
        StoreError,
    >)
        requires
            old(store).wf(),
        ensures
            final(store).wf(),
            final(self).keypair.public@ == old(self).keypair.public@,
            final(self).keypair.secret@ == old(self).keypair.secret@,
            allowed_contents(final(self).allowed) == allowed_contents(old(self).allowed),
            ({
                let bytes = authored_block_enc::<T>(
                    old(self).keypair.public@,
                    old(self).keypair.secret@,
                    VerifiedDataV { value: input.deep_view(), update: None },
                );
                match r {
                    Ok(h) => h@ == sha256_of(bytes) && final(store)@ == old(store)@.insert(
                        sha256_of(bytes),
                        bytes,
                    ) && final(self).tip() == Some(h@),
                    Err(_) => final(self).tip() == old(self).tip() && (final(store)@ == old(
                        store,
                    )@ || final(store)@ == old(store)@.insert(sha256_of(bytes), bytes)),
                }
            }),
    {
        match store_verified(store, input, &self.keypair) {
            Ok(h) => {
                self.latest = Some(h.clone());
                Ok(h)
            },
            Err(e) => Err(e),
        }
    }
}


/// A result with the hash replaced by its view, for stating contracts.
pub open spec fn result_view(r: Result<BlockHash, VerifierError>) -> Result<Seq<u8>, VerifierError> {
    match r {
        Ok(h) => Ok(h@),
        Err(e) => Err(e),
    }
}

/// The update a signed envelope carries, if its signature verifies and
/// its payload parses.
pub open spec fn decoded_update<T: Codec, C: Command<T>>(sv: SignedV) -> Option<UpdateV<C::V>> {
    match verify_of(sv.user, sv.data) {
        Some(m) => dec_exact::<Update<C>>(m),
        None => None,
    }
}

/// The record at `last` in `blocks`, provided the block parses as a
/// signed envelope authored by `pk` whose signature verifies and whose
/// payload parses as a record; anything else is untrusted.
pub open spec fn trusted_prev<T: Codec>(
    blocks: Map<Seq<u8>, Seq<u8>>,
    pk: Seq<u8>,
    last: Seq<u8>,
) -> Option<VerifiedDataV<T::V>> {
    if blocks.contains_key(last) {
        match dec_exact::<Signed>(blocks[last]) {
            Some(ls) => if ls.user == pk {
                match verify_of(ls.user, ls.data) {
                    Some(lm) => dec_exact::<VerifiedData<T>>(lm),
                    None => None,
                }
            } else {
                None
            },
            None => None,
        }
    } else {
        None
    }
}

/// Everything `verify_at` promises, as one predicate over the states
/// before and after: which error comes on which inputs, and what a
/// success stored and committed.
pub open spec fn verify_at_post<T: Codec, C: Command<T>>(
    self0: Verifier,
    self1: Verifier,
    blocks0: Map<Seq<u8>, Seq<u8>>,
    blocks1: Map<Seq<u8>, Seq<u8>>,
    sv: SignedV,
    now: u64,
    r: Result<Seq<u8>, VerifierError>,
) -> bool {
    &&& self1.keypair.public@ == self0.keypair.public@
    &&& self1.keypair.secret@ == self0.keypair.secret@
    &&& allowed_contents(self1.allowed) == allowed_contents(self0.allowed)
    &&& match r {
        Ok(h) => {
            &&& allowed_contents(self0.allowed).contains(sv.user)
            &&& decoded_update::<T, C>(sv) matches Some(uv) && {
                &&& self0.tip() == Some(uv.last)
                &&& !is_stale(now, uv.timestamp as u64, STALE_SECONDS)
                &&& trusted_prev::<T>(blocks0, self0.keypair.public@, uv.last) matches Some(pv)
                    && C::processv(uv.command, pv.value) matches Ok(nv) && {
                    let bytes = authored_block_enc::<T>(
                        self0.keypair.public@,
                        self0.keypair.secret@,
                        VerifiedDataV { value: nv, update: Some(sv) },
                    );
                    &&& h == sha256_of(bytes)
                    &&& blocks1 == blocks0.insert(sha256_of(bytes), bytes)
                    &&& self1.tip() == Some(h)
                }
            }
        },
        Err(e) => {
            &&& self1.tip() == self0.tip()
            &&& match e {
                VerifierError::DisallowedKey => {
                    &&& !allowed_contents(self0.allowed).contains(sv.user)
                    &&& blocks1 == blocks0
                },
                VerifierError::BadSignature => {
                    &&& allowed_contents(self0.allowed).contains(sv.user)
                    &&& verify_of(sv.user, sv.data) is None
                    &&& blocks1 == blocks0
                },
                VerifierError::DecodeFailed => {
                    &&& allowed_contents(self0.allowed).contains(sv.user)
                    &&& verify_of(sv.user, sv.data) matches Some(m) && dec_exact::<Update<C>>(m)
                        is None
                    &&& blocks1 == blocks0
                },
                VerifierError::NotLatest => {
                    &&& allowed_contents(self0.allowed).contains(sv.user)
                    &&& decoded_update::<T, C>(sv) matches Some(uv) && self0.tip() != Some(uv.last)
                    &&& blocks1 == blocks0
                },
                VerifierError::Stale => {
                    &&& allowed_contents(self0.allowed).contains(sv.user)
                    &&& decoded_update::<T, C>(sv) matches Some(uv) && self0.tip() == Some(uv.last)
                        && is_stale(now, uv.timestamp as u64, STALE_SECONDS)
                    &&& blocks1 == blocks0
                },
                VerifierError::LastErr => {
                    &&& allowed_contents(self0.allowed).contains(sv.user)
                    &&& decoded_update::<T, C>(sv) matches Some(uv) && self0.tip() == Some(uv.last)
                        && !is_stale(now, uv.timestamp as u64, STALE_SECONDS)
                    &&& blocks1 == blocks0
                },
                VerifierError::UpdateErr => {
                    &&& allowed_contents(self0.allowed).contains(sv.user)
                    &&& decoded_update::<T, C>(sv) matches Some(uv) && {
                        &&& self0.tip() == Some(uv.last)
                        &&& !is_stale(now, uv.timestamp as u64, STALE_SECONDS)
                        &&& trusted_prev::<T>(blocks0, self0.keypair.public@, uv.last)
                            matches Some(pv) && C::processv(uv.command, pv.value) is Err
                    }
                    &&& blocks1 == blocks0
                },
                VerifierError::StoreErr => {
                    &&& allowed_contents(self0.allowed).contains(sv.user)
                    &&& decoded_update::<T, C>(sv) matches Some(uv) && {
                        &&& self0.tip() == Some(uv.last)
                        &&& !is_stale(now, uv.timestamp as u64, STALE_SECONDS)
                        &&& trusted_prev::<T>(blocks0, self0.keypair.public@, uv.last)
                            matches Some(pv) && C::processv(uv.command, pv.value) matches Ok(nv)
                            && {
                            let bytes = authored_block_enc::<T>(
                                self0.keypair.public@,
                                self0.keypair.secret@,
                                VerifiedDataV { value: nv, update: Some(sv) },
                            );
                            blocks1 == blocks0 || blocks1 == blocks0.insert(
                                sha256_of(bytes),
                                bytes,
                            )
                        }
                    }
                },
                VerifierError::NoVerifier => false,
            }
        },
    }
}

impl Verifier {
    /// Run the ordered checks on a signed update against the clock value
    /// `now` and, if every one passes, store the authored successor
    /// block and advance the tip to it.
    ///
    /// The checks, in order, each with its error: the signer must be in
    /// the allow-list (`DisallowedKey`), the signature must verify
    /// (`BadSignature`), the payload must parse as an update
    /// (`DecodeFailed`), the update's expected predecessor must be the
    /// current tip (`NotLatest` — a stream with no root rejects every
    /// update this way; only `force` roots a stream), the timestamp must
    /// be fresh (`Stale`), the previous tip must load and verify under
    /// this verifier's own key (`LastErr`), and the command must accept
    /// the previous value (`UpdateErr`). A failed write is `StoreErr`.
    /// Every failure leaves the tip unchanged.
    pub fn verify_at<T: Codec, C: Command<T>>(
        &mut self,
        store: &mut BlockStore,
        input: Signed,
        now: u64,
    ) -> (r: Result<BlockHash, VerifierError>)
        requires
            old(store).wf(),
        ensures
            final(store).wf(),
            match r {
                Ok(h) => verify_at_post::<T, C>(
                    *old(self),
                    *final(self),
                    old(store)@,
                    final(store)@,
                    input@,
                    now,
                    Ok(h@),
                ),
                Err(e) => verify_at_post::<T, C>(
                    *old(self),
                    *final(self),
                    old(store)@,
                    final(store)@,
                    input@,
                    now,
                    Err(e),
                ),
            },
    {
        let ghost sv = input@;

        // 1. Signature and decode.
        let update: Update<C> = match input.verify::<Update<C>>(&self.allowed) {
            Ok(u) => u,
            Err(e) => {
                return Err(verifier_error_of(e));
            },
        };

        // 2. Optimistic precondition: the expected predecessor must be
        // the current tip, and the stream must have one.
        match &self.latest {
            Some(lh) => {
                if !(update.last == *lh) {
                    return Err(VerifierError::NotLatest);
                }
            },
            None => {
                return Err(VerifierError::NotLatest);
            },
        }

        // 3. Freshness.
        if check_stale(now, update.timestamp.to_u64(), STALE_SECONDS) {
            return Err(VerifierError::Stale);
        }

        // 4. Fetch the previous tip.
        let last_block = match store.get(&update.last) {
            Ok(b) => b,
            Err(_) => {
                return Err(VerifierError::LastErr);
            },
        };

        // 5. Decode the previous record; only this verifier's own key
        // may have signed it (trust anchor).
        let last_signed: Signed = match decode_value::<Signed>(last_block.as_slice()) {
            Some(s) => s,
            None => {
                return Err(VerifierError::LastErr);
            },
        };
        let allow_self = AllowedKeys::empty().insert(&self.keypair.public);
        let prev: VerifiedData<T> = match last_signed.verify::<VerifiedData<T>>(&allow_self) {
            Ok(p) => p,
            Err(_) => {
                return Err(VerifierError::LastErr);
            },
        };

        // 6. Apply the command.
        let next: T = match update.command.process(prev.value) {
            Ok(n) => n,
            Err(_) => {
                return Err(VerifierError::UpdateErr);
            },
        };

        // 7. Author the next record, embedding the client's signed
        // update, and sign it with this verifier's pair.
        let verified: VerifiedData<T> = VerifiedData { value: next, update: Some(input) };
        let signed_verified = match Signed::sign(&verified, &self.keypair) {
            Ok(s) => s,
            Err(_) => {
                return Err(VerifierError::StoreErr);
            },
        };
        let bytes = encode_value(&signed_verified);

        // 8. Persist the new block under its hash.
        let new_hash = match store.set(bytes.as_slice()) {
            Ok(h) => h,
            Err(_) => {
                return Err(VerifierError::StoreErr);
            },
        };

        // 9. Commit the tip. The re-check mirrors the two-phase
        // compare-and-swap; with this verifier owned exclusively the tip
        // cannot have moved, so the refusal path is unreachable here.
        match &self.latest {
            Some(lh) => {
                if !(update.last == *lh) {
                    return Err(VerifierError::NotLatest);
                }
            },
            None => {
                return Err(VerifierError::NotLatest);
            },
        }
        self.latest = Some(new_hash.clone());
        Ok(new_hash)
    }

    /// `verify_at` against the system clock. The clock's value is not a
    /// function of the inputs, so this promises only that the outcome is
    /// `verify_at`'s outcome for some clock value; every clause except
    /// the exact freshness test carries over.
    pub fn verify<T: Codec, C: Command<T>>(&mut self, store: &mut BlockStore, input: Signed) -> (r:
        Result<BlockHash, VerifierError>)
        requires
            old(store).wf(),
        ensures
            final(store).wf(),
            exists|now: u64|
                #[trigger] verify_at_post::<T, C>(
                    *old(self),
                    *final(self),
                    old(store)@,
                    final(store)@,
                    input@,
                    now,
                    result_view(r),
                ),
    {
        let now: u64 = match now_secs() {
            Some(n) => n,
            None => 0,
        };
        let r = self.verify_at::<T, C>(store, input, now);
        proof {
            assert(verify_at_post::<T, C>(
                *old(self),
                *self,
                old(store)@,
                store@,
                input@,
                now,
                result_view(r),
            ));
        }
        r
    }
}


/// Load the block at `hash` and check it as a record authored by the
/// holder of `pk`. This is the step a history audit repeats: from a tip,
/// read the record, then follow its embedded update's `last` link, until
/// a root record (no update) is reached.
pub fn read_verified_block<T: Codec>(
    store: &mut BlockStore,
    pk: &PublicKey,
    hash: &BlockHash,
) -> (r: Result<VerifiedData<T>, VerifierError>)
    requires
        old(store).wf(),
    ensures
        final(store).wf(),
        final(store)@ == old(store)@,
        match r {
            Ok(vd) => trusted_prev::<T>(old(store)@, pk@, hash@) == Some(vd.deep_view()),
            Err(e) => e == VerifierError::LastErr,
        },
{
    let block = match store.get(hash) {
        Ok(b) => b,
        Err(_) => {
            return Err(VerifierError::LastErr);
        },
    };
    let signed: Signed = match decode_value::<Signed>(block.as_slice()) {
        Some(s) => s,
        None => {
            return Err(VerifierError::LastErr);
        },
    };
    let allow = AllowedKeys::empty().insert(pk);
    match signed.verify::<VerifiedData<T>>(&allow) {
        Ok(vd) => Ok(vd),
        Err(_) => Err(VerifierError::LastErr),
    }
}

/// Single-writer tip monotonicity: once an update has won against tip
/// `t0` and advanced the stream to a different tip, a second update that
/// still names `t0` is refused as `NotLatest`, whatever else it carries,
/// and the tip stays where the winner put it.
pub proof fn lemma_cas_monotonic<T: Codec, C: Command<T>>(
    v1: Verifier,
    v2: Verifier,
    v3: Verifier,
    b0: Map<Seq<u8>, Seq<u8>>,
    b1: Map<Seq<u8>, Seq<u8>>,
    b2: Map<Seq<u8>, Seq<u8>>,
    sv1: SignedV,
    sv2: SignedV,
    now1: u64,
    now2: u64,
    h1: Seq<u8>,
    r2: Result<Seq<u8>, VerifierError>,
)
    requires
        verify_at_post::<T, C>(v1, v2, b0, b1, sv1, now1, Ok(h1)),
        verify_at_post::<T, C>(v2, v3, b1, b2, sv2, now2, r2),
        allowed_contents(v2.allowed).contains(sv2.user),
        decoded_update::<T, C>(sv2) matches Some(uv2) && v1.tip() == Some(uv2.last) && h1
            != uv2.last,
    ensures
        r2 == Err::<Seq<u8>, VerifierError>(VerifierError::NotLatest),
        v3.tip() == Some(h1),
{
    let uv2 = decoded_update::<T, C>(sv2).unwrap();
    assert(v2.tip() == Some(h1));
    match r2 {
        Ok(h) => {
            assert(false);
        },
        Err(e) => {
            match e {
                VerifierError::NotLatest => {
                },
                _ => {
                    assert(false);
                },
            }
        },
    }
}

/// History linkage, one step: the block a verifier authored and stored
/// reads back, under the verifier's public key as sole trust anchor, as
/// exactly the record it wrote — so an audit that walks `last` links
/// sees every value and every embedded update as they were committed.
/// The two `verify_of` premises are what `sign` ensures of every signed
/// message for a matching pair.
pub proof fn lemma_authored_block_readback<T: Codec>(
    pk: Seq<u8>,
    sk: Seq<u8>,
    vd: VerifiedDataV<T::V>,
    blocks: Map<Seq<u8>, Seq<u8>>,
)
    requires
        pk.len() == 32,
        VerifiedData::<T>::encv_wf(vd),
        sign_of(sk, VerifiedData::<T>::encv(vd)).len() <= u64::MAX,
        verify_of(pk, sign_of(sk, VerifiedData::<T>::encv(vd))) == Some(
            VerifiedData::<T>::encv(vd),
        ),
        blocks.contains_key(sha256_of(authored_block_enc::<T>(pk, sk, vd))),
        blocks[sha256_of(authored_block_enc::<T>(pk, sk, vd))] == authored_block_enc::<T>(
            pk,
            sk,
            vd,
        ),
    ensures
        trusted_prev::<T>(blocks, pk, sha256_of(authored_block_enc::<T>(pk, sk, vd))) == Some(vd),
{
    let m = VerifiedData::<T>::encv(vd);
    let sv = SignedV { user: pk, data: sign_of(sk, m) };
    crate::codec::lemma_dec_exact_round_trip::<Signed>(sv);
    crate::codec::lemma_dec_exact_round_trip::<VerifiedData<T>>(vd);
}

/// Replay determinism, one step: a successful verification's outcome —
/// the new block's bytes, its hash, and the new tip — is a function of
/// the verifier's pair, the stream state, and the signed update alone.
/// Two successful runs from equal states agree byte-for-byte, whatever
/// the clock said.
pub proof fn lemma_replay_step_deterministic<T: Codec, C: Command<T>>(
    va0: Verifier,
    va1: Verifier,
    vb0: Verifier,
    vb1: Verifier,
    blocks0: Map<Seq<u8>, Seq<u8>>,
    ba1: Map<Seq<u8>, Seq<u8>>,
    bb1: Map<Seq<u8>, Seq<u8>>,
    sv: SignedV,
    now_a: u64,
    now_b: u64,
    ha: Seq<u8>,
    hb: Seq<u8>,
)
    requires
        verify_at_post::<T, C>(va0, va1, blocks0, ba1, sv, now_a, Ok(ha)),
        verify_at_post::<T, C>(vb0, vb1, blocks0, bb1, sv, now_b, Ok(hb)),
        va0.keypair.public@ == vb0.keypair.public@,
        va0.keypair.secret@ == vb0.keypair.secret@,
        va0.tip() == vb0.tip(),
    ensures
        ha == hb,
        ba1 == bb1,
        va1.tip() == vb1.tip(),
{
}


/// A tip from which walking `last` links reaches a root within `fuel`
/// steps: the block at each hash on the way reads back under `pk` as
/// the sole trusted signer, and each embedded update's signature
/// verifies and parses, its `last` naming the next hash down.
pub open spec fn chain_to_root<T: Codec, C: Command<T>>(
    blocks: Map<Seq<u8>, Seq<u8>>,
    pk: Seq<u8>,
    tip: Seq<u8>,
    fuel: nat,
) -> bool
    decreases fuel,
{
    match trusted_prev::<T>(blocks, pk, tip) {
        Some(vd) => match vd.update {
            None => true,
            Some(sv) => fuel > 0 && (decoded_update::<T, C>(sv) matches Some(uv)
                && chain_to_root::<T, C>(blocks, pk, uv.last, (fuel - 1) as nat)),
        },
        None => false,
    }
}

/// Adding a block leaves every existing chain intact, provided the new
/// binding does not change an existing one — which content addressing
/// guarantees, the key being the hash of the bytes.
pub proof fn lemma_chain_monotone<T: Codec, C: Command<T>>(
    blocks: Map<Seq<u8>, Seq<u8>>,
    pk: Seq<u8>,
    tip: Seq<u8>,
    fuel: nat,
    k: Seq<u8>,
    v: Seq<u8>,
)
    requires
        chain_to_root::<T, C>(blocks, pk, tip, fuel),
        !blocks.contains_key(k) || blocks[k] == v,
    ensures
        chain_to_root::<T, C>(blocks.insert(k, v), pk, tip, fuel),
    decreases fuel,
{
    let blocks1 = blocks.insert(k, v);
    assert(blocks.contains_key(tip));
    assert(blocks1[tip] == blocks[tip]);
    assert(trusted_prev::<T>(blocks1, pk, tip) == trusted_prev::<T>(blocks, pk, tip));
    let vd = trusted_prev::<T>(blocks, pk, tip).unwrap();
    match vd.update {
        None => {},
        Some(sv) => {
            let uv = decoded_update::<T, C>(sv).unwrap();
            lemma_chain_monotone::<T, C>(blocks, pk, uv.last, (fuel - 1) as nat, k, v);
        },
    }
}

/// A root written by `force` (or `store_verified`) chains trivially:
/// its record reads back and embeds no update. The `verify_of` premise
/// is what `sign` ensures of every message signed with a matching pair.
pub proof fn lemma_root_chains<T: Codec, C: Command<T>>(
    pk: Seq<u8>,
    sk: Seq<u8>,
    value: T::V,
    blocks: Map<Seq<u8>, Seq<u8>>,
)
    requires
        pk.len() == 32,
        T::encv_wf(value),
        sign_of(sk, VerifiedData::<T>::encv(VerifiedDataV { value, update: None })).len()
            <= u64::MAX,
        verify_of(
            pk,
            sign_of(sk, VerifiedData::<T>::encv(VerifiedDataV { value, update: None })),
        ) == Some(VerifiedData::<T>::encv(VerifiedDataV { value, update: None })),
        blocks.contains_key(
            sha256_of(authored_block_enc::<T>(pk, sk, VerifiedDataV { value, update: None })),
        ),
        blocks[sha256_of(authored_block_enc::<T>(pk, sk, VerifiedDataV { value, update: None }))]
            == authored_block_enc::<T>(pk, sk, VerifiedDataV { value, update: None }),
    ensures
        chain_to_root::<T, C>(
            blocks,
            pk,
            sha256_of(authored_block_enc::<T>(pk, sk, VerifiedDataV { value, update: None })),
            0,
        ),
{
    let vd = VerifiedDataV { value, update: None };
    lemma_authored_block_readback::<T>(pk, sk, vd, blocks);
}

/// History linkage: a successful verification leaves the new tip
/// chained to a root. The new block reads back as the record the
/// verifier wrote; it embeds the accepted update, whose `last` is the
/// old tip; and the old tip already chained. The premises are the
/// well-formedness and signature facts that `sign` ensures of every
/// block a running verifier authors.
pub proof fn lemma_verify_extends_chain<T: Codec, C: Command<T>>(
    self0: Verifier,
    self1: Verifier,
    blocks0: Map<Seq<u8>, Seq<u8>>,
    blocks1: Map<Seq<u8>, Seq<u8>>,
    sv: SignedV,
    now: u64,
    h: Seq<u8>,
    fuel: nat,
    vd: VerifiedDataV<T::V>,
)
    requires
        verify_at_post::<T, C>(self0, self1, blocks0, blocks1, sv, now, Ok(h)),
        vd == (VerifiedDataV {
            value: {
                let uv = decoded_update::<T, C>(sv).unwrap();
                let pv = trusted_prev::<T>(blocks0, self0.keypair.public@, uv.last).unwrap();
                C::processv(uv.command, pv.value).unwrap()
            },
            update: Some(sv),
        }),
        chain_to_root::<T, C>(
            blocks0,
            self0.keypair.public@,
            decoded_update::<T, C>(sv).unwrap().last,
            fuel,
        ),
        self0.keypair.public@.len() == 32,
        VerifiedData::<T>::encv_wf(vd),
        sign_of(self0.keypair.secret@, VerifiedData::<T>::encv(vd)).len() <= u64::MAX,
        verify_of(
            self0.keypair.public@,
            sign_of(self0.keypair.secret@, VerifiedData::<T>::encv(vd)),
        ) == Some(VerifiedData::<T>::encv(vd)),
        !blocks0.contains_key(h) || blocks0[h] == authored_block_enc::<T>(
            self0.keypair.public@,
            self0.keypair.secret@,
            vd,
        ),
    ensures
        chain_to_root::<T, C>(blocks1, self0.keypair.public@, h, fuel + 1),
{
    let pk = self0.keypair.public@;
    let sk = self0.keypair.secret@;
    let uv = decoded_update::<T, C>(sv).unwrap();
    let bytes = authored_block_enc::<T>(pk, sk, vd);
    assert(h == sha256_of(bytes));
    assert(blocks1 == blocks0.insert(sha256_of(bytes), bytes));
    lemma_chain_monotone::<T, C>(blocks0, pk, uv.last, fuel, sha256_of(bytes), bytes);
    lemma_authored_block_readback::<T>(pk, sk, vd, blocks1);
    assert(trusted_prev::<T>(blocks1, pk, h) == Some(vd));
}


/// Replay determinism over a whole history: two runs that start from
/// equal verifier pairs, tips and block stores, and accept the same
/// ordered sequence of signed updates — whatever their clocks read —
/// produce the same tip at every step and end with byte-identical
/// block stores.
pub proof fn lemma_replay_deterministic<T: Codec, C: Command<T>>(
    sa: Seq<Verifier>,
    sb: Seq<Verifier>,
    ba: Seq<Map<Seq<u8>, Seq<u8>>>,
    bb: Seq<Map<Seq<u8>, Seq<u8>>>,
    svs: Seq<SignedV>,
    nows_a: Seq<u64>,
    nows_b: Seq<u64>,
    ta: Seq<Seq<u8>>,
    tb: Seq<Seq<u8>>,
)
    requires
        sa.len() == svs.len() + 1,
        sb.len() == svs.len() + 1,
        ba.len() == svs.len() + 1,
        bb.len() == svs.len() + 1,
        ta.len() == svs.len(),
        tb.len() == svs.len(),
        nows_a.len() == svs.len(),
        nows_b.len() == svs.len(),
        forall|i: int|
            #![trigger ta[i]]
            0 <= i < svs.len() ==> verify_at_post::<T, C>(
                sa[i],
                sa[i + 1],
                ba[i],
                ba[i + 1],
                svs[i],
                nows_a[i],
                Ok(ta[i]),
            ),
        forall|i: int|
            #![trigger tb[i]]
            0 <= i < svs.len() ==> verify_at_post::<T, C>(
                sb[i],
                sb[i + 1],
                bb[i],
                bb[i + 1],
                svs[i],
                nows_b[i],
                Ok(tb[i]),
            ),
        sa[0].keypair.public@ == sb[0].keypair.public@,
        sa[0].keypair.secret@ == sb[0].keypair.secret@,
        sa[0].tip() == sb[0].tip(),
        ba[0] == bb[0],
    ensures
        ta == tb,
        ba.last() == bb.last(),
        sa.last().tip() == sb.last().tip(),
        sa.last().keypair.public@ == sa[0].keypair.public@,
        sa.last().keypair.secret@ == sa[0].keypair.secret@,
        sb.last().keypair.public@ == sb[0].keypair.public@,
        sb.last().keypair.secret@ == sb[0].keypair.secret@,
    decreases svs.len(),
{
    let n = svs.len() as int;
    if n == 0 {
        assert(ta =~= tb);
        assert(ba.last() == ba[0]);
        assert(bb.last() == bb[0]);
    } else {
        assert forall|i: int|
            #![trigger ta.drop_last()[i]]
            0 <= i < n - 1 implies verify_at_post::<T, C>(
            sa.drop_last()[i],
            sa.drop_last()[i + 1],
            ba.drop_last()[i],
            ba.drop_last()[i + 1],
            svs.drop_last()[i],
            nows_a.drop_last()[i],
            Ok(ta.drop_last()[i]),
        ) by {
            assert(ta[i] == ta[i]);
            assert(sa.drop_last()[i] == sa[i]);
            assert(sa.drop_last()[i + 1] == sa[i + 1]);
            assert(ba.drop_last()[i] == ba[i]);
            assert(ba.drop_last()[i + 1] == ba[i + 1]);
            assert(svs.drop_last()[i] == svs[i]);
            assert(nows_a.drop_last()[i] == nows_a[i]);
            assert(ta.drop_last()[i] == ta[i]);
        }
        assert forall|i: int|
            #![trigger tb.drop_last()[i]]
            0 <= i < n - 1 implies verify_at_post::<T, C>(
            sb.drop_last()[i],
            sb.drop_last()[i + 1],
            bb.drop_last()[i],
            bb.drop_last()[i + 1],
            svs.drop_last()[i],
            nows_b.drop_last()[i],
            Ok(tb.drop_last()[i]),
        ) by {
            assert(tb[i] == tb[i]);
            assert(sb.drop_last()[i] == sb[i]);
            assert(sb.drop_last()[i + 1] == sb[i + 1]);
            assert(bb.drop_last()[i] == bb[i]);
            assert(bb.drop_last()[i + 1] == bb[i + 1]);
            assert(svs.drop_last()[i] == svs[i]);
            assert(nows_b.drop_last()[i] == nows_b[i]);
            assert(tb.drop_last()[i] == tb[i]);
        }
        lemma_replay_deterministic::<T, C>(
            sa.drop_last(),
            sb.drop_last(),
            ba.drop_last(),
            bb.drop_last(),
            svs.drop_last(),
            nows_a.drop_last(),
            nows_b.drop_last(),
            ta.drop_last(),
            tb.drop_last(),
        );
        // the states before the last step agree where it matters
        assert(sa.drop_last().last() == sa[n - 1]);
        assert(sb.drop_last().last() == sb[n - 1]);
        assert(ba.drop_last().last() == ba[n - 1]);
        assert(bb.drop_last().last() == bb[n - 1]);
        assert(ta[n - 1] == ta[n - 1]);
        assert(tb[n - 1] == tb[n - 1]);
        assert(verify_at_post::<T, C>(
            sa[n - 1],
            sa[n],
            ba[n - 1],
            ba[n],
            svs[n - 1],
            nows_a[n - 1],
            Ok(ta[n - 1]),
        ));
        assert(verify_at_post::<T, C>(
            sb[n - 1],
            sb[n],
            bb[n - 1],
            bb[n],
            svs[n - 1],
            nows_b[n - 1],
            Ok(tb[n - 1]),
        ));
        lemma_replay_step_deterministic::<T, C>(
            sa[n - 1],
            sa[n],
            sb[n - 1],
            sb[n],
            ba[n - 1],
            ba[n],
            bb[n],
            svs[n - 1],
            nows_a[n - 1],
            nows_b[n - 1],
            ta[n - 1],
            tb[n - 1],
        );
        assert forall|k: int| 0 <= k < n implies ta[k] == tb[k] by {
            if k < n - 1 {
                assert(ta.drop_last()[k] == ta[k]);
                assert(tb.drop_last()[k] == tb[k]);
            }
        }
        assert(ta =~= tb);
        assert(ba.last() == ba[n]);
        assert(bb.last() == bb[n]);
        assert(sa.last() == sa[n]);
        assert(sb.last() == sb[n]);
    }
}

} // verus!
