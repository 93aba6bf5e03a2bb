//! A named directory of verifiers. One verifier guards one stream; the
//! map dispatches requests by name and is persisted one file per
//! verifier.

use vstd::prelude::*;
use crate::codec::{Codec, str_eq, enc_u8, dec_u8_at, lemma_u8_round_trip, lemma_concat_split,
    enc_str, dec_str_at, lemma_str_round_trip, write_str, read_str, write_u8, read_u8};
use crate::block::{BlockHash, sha256_of};
use crate::signed::{Signed, SignedV, KeyPair, PublicKey, AllowedKeys, allowed_contents, keypair_wf};
use crate::update::{Command, NamedHash};
use crate::verify::{Verifier, VerifierError, verify_at_post, result_view, store_verified};
use crate::store::{BlockStore, StoreError};
use crate::persist::{emit_verifier, verifier_file_image};

verus! {

#[derive(Debug, Clone, Copy, PartialEq, Eq, Structural)]
pub enum MapError {
    /// A verifier by that name already exists.
    AlreadyExists,
    /// The directory held no verifiers at all: a fresh install, which
    /// must be bootstrapped, not silently treated as an empty load.
    NotFound,
    /// Two entries share one name.
    DuplicateName,
}

/// The index of the entry with the given name, or -1.
pub open spec fn vm_find(s: Seq<(Seq<char>, Verifier)>, name: Seq<char>) -> int
    decreases s.len(),
{
    if s.len() == 0 {
        -1
    } else if s[0].0 == name {
        0
    } else {
        let r = vm_find(s.drop_first(), name);
        if r == -1 {
            -1
        } else {
            r + 1
        }
    }
}

pub proof fn lemma_vm_find_props(s: Seq<(Seq<char>, Verifier)>, name: Seq<char>)
    ensures
        vm_find(s, name) == -1 ==> forall|p: int| 0 <= p < s.len() ==> s[p].0 != name,
        vm_find(s, name) != -1 ==> 0 <= vm_find(s, name) < s.len() && s[vm_find(s, name)].0 == name
            && forall|p: int| 0 <= p < vm_find(s, name) ==> s[p].0 != name,
    decreases s.len(),
{
    if s.len() == 0 {
    } else {
        let sdf = s.drop_first();
        lemma_vm_find_props(sdf, name);
        assert forall|p: int| 0 <= p < sdf.len() implies sdf[p] == s[p + 1] by {}
        if s[0].0 == name {
        } else {
            let r = vm_find(sdf, name);
            if r == -1 {
                assert forall|p: int| 0 <= p < s.len() implies s[p].0 != name by {
                    if p > 0 {
                        assert(sdf[p - 1] == s[p]);
                        assert(sdf[p - 1].0 != name);
                    }
                }
            } else {
                assert(sdf[r] == s[r + 1]);
                assert(vm_find(s, name) == r + 1);
                assert forall|p: int| 0 <= p < vm_find(s, name) implies s[p].0 != name by {
                    if p > 0 {
                        assert(sdf[p - 1] == s[p]);
                        assert(sdf[p - 1].0 != name);
                    }
                }
            }
        }
    }
}

/// A mutable borrow of the verifier at an index, with the relation
/// between the old and the final list.
fn entry_mut(vec: &mut Vec<(String, Verifier)>, i: usize) -> (element: &mut Verifier)
    requires
        i < old(vec).len(),
    ensures
        *element == old(vec)@[i as int].1,
        final(vec)@ == old(vec)@.update(i as int, (old(vec)@[i as int].0, *final(element))),
{
    &mut vec[i].1
}

/// Maps names to verifiers; not to be confused with the map-of-tile-
/// libraries stream value. Persisted one file per verifier under `dir`.
#[derive(Debug)]
pub struct VerifierMap {
    dir: String,
    verifiers: Vec<(String, Verifier)>,
}

impl View for VerifierMap {
    type V = Seq<(Seq<char>, Verifier)>;

    closed spec fn view(&self) -> Seq<(Seq<char>, Verifier)> {
        Seq::new(self.verifiers@.len(), |i: int| (self.verifiers@[i].0@, self.verifiers@[i].1))
    }
}

impl VerifierMap {
    /// No two verifiers share a name.
    pub open spec fn wf(self) -> bool {
        forall|p: int, q: int| 0 <= p < q < self@.len() ==> self@[p].0 != self@[q].0
    }

    pub closed spec fn dir_view(self) -> Seq<char> {
        self.dir@
    }

    /// An empty map that will persist under `dir`.
    pub fn new(dir: String) -> (r: VerifierMap)
        ensures
            r.wf(),
            r@.len() == 0,
            r.dir_view() == dir@,
    {
        let r = VerifierMap { dir, verifiers: Vec::new() };
        proof {
            assert(r@ =~= Seq::<(Seq<char>, Verifier)>::empty());
        }
        r
    }

    /// Build a map from loaded entries. An empty load is `NotFound` —
    /// a fresh install must be bootstrapped, not mistaken for a
    /// successful load of zero verifiers — and a repeated name is
    /// refused.
    pub fn from_entries(dir: String, entries: Vec<(String, Verifier)>) -> (r: Result<
        VerifierMap,
        MapError,
    >)
        ensures
            match r {
                Ok(m) => {
                    &&& m.wf()
                    &&& m.dir_view() == dir@
                    &&& m@.len() == entries@.len() > 0
                    &&& forall|i: int| 0 <= i < entries@.len() ==> m@[i] == (
                        entries@[i].0@,
                        entries@[i].1,
                    )
                },
                Err(MapError::NotFound) => entries@.len() == 0,
                Err(MapError::DuplicateName) => !(forall|p: int, q: int|
                    0 <= p < q < entries@.len() ==> entries@[p].0@ != entries@[q].0@),
                Err(MapError::AlreadyExists) => false,
            },
    {
        if entries.len() == 0 {
            return Err(MapError::NotFound);
        }
        let n = entries.len();
        let mut p: usize = 0;
        while p < n
            invariant
                n == entries@.len(),
                0 <= p <= n,
                forall|a: int, b2: int| 0 <= a < b2 < n && a < p ==> entries@[a].0@
                    != entries@[b2].0@,
            decreases n - p,
        {
            let mut q: usize = p + 1;
            while q < n
                invariant
                    n == entries@.len(),
                    0 <= p < n,
                    p < q <= n,
                    forall|b2: int| p < b2 < q ==> entries@[p as int].0@ != entries@[b2].0@,
                decreases n - q,
            {
                if str_eq(entries[p].0.as_str(), entries[q].0.as_str()) {
                    return Err(MapError::DuplicateName);
                }
                q = q + 1;
            }
            p = p + 1;
        }
        let r = VerifierMap { dir, verifiers: entries };
        Ok(r)
    }

    /// Add a verifier under a new name, built from the given pieces; an
    /// existing name is refused untouched.
    pub fn add_new(
        &mut self,
        key: String,
        with_keypair: Option<KeyPair>,
        with_allowed: Option<AllowedKeys>,
        with_latest: Option<BlockHash>,
    ) -> (r: Result<(), MapError>)
        requires
            old(self).wf(),
        ensures
            final(self).wf(),
            final(self).dir_view() == old(self).dir_view(),
            match r {
                Ok(_) => {
                    &&& vm_find(old(self)@, key@) == -1
                    &&& final(self)@.len() == old(self)@.len() + 1
                    &&& forall|i: int| 0 <= i < old(self)@.len() ==> final(self)@[i] == old(
                        self,
                    )@[i]
                    &&& final(self)@.last().0 == key@
                    &&& {
                        let v = final(self)@.last().1;
                        &&& match with_keypair {
                            Some(kp) => v.keypair.public@ == kp.public@ && v.keypair.secret@
                                == kp.secret@,
                            None => keypair_wf(v.keypair),
                        }
                        &&& match with_allowed {
                            Some(a) => allowed_contents(v.allowed) == allowed_contents(a),
                            None => allowed_contents(v.allowed) == Set::<Seq<u8>>::empty(),
                        }
                        &&& match with_latest {
                            Some(h) => v.tip() == Some(h@),
                            None => v.tip() is None,
                        }
                    }
                },
                Err(e) => e == MapError::AlreadyExists && vm_find(old(self)@, key@) != -1
                    && final(self)@ == old(self)@,
            },
    {
        let ghost sv = self@;
        let n = self.verifiers.len();
        let mut idx: usize = 0;
        while idx < n
            invariant
                *self == *old(self),
                sv == self@,
                forall|p: int, q: int| 0 <= p < q < sv.len() ==> sv[p].0 != sv[q].0,
                n == sv.len(),
                0 <= idx <= n,
                forall|p: int| 0 <= p < idx ==> sv[p].0 != key@,
            decreases n - idx,
        {
            if str_eq(self.verifiers[idx].0.as_str(), key.as_str()) {
                proof {
                    assert(sv[idx as int].0 == key@);
                    lemma_vm_find_props(sv, key@);
                    assert(self.wf());
                }
                return Err(MapError::AlreadyExists);
            }
            idx = idx + 1;
        }
        proof {
            lemma_vm_find_props(sv, key@);
        }
        let v = Verifier::new(with_keypair, with_allowed, with_latest);
        self.verifiers.push((key, v));
        proof {
            assert(self@ =~= sv.push((key@, v)));
        }
        Ok(())
    }

    /// The named stream's current tip; a missing name reads as no tip,
    /// as does a stream that has no root yet.
    pub fn latest(&self, key: &str) -> (r: Option<BlockHash>)
        ensures
            ({
                let i = vm_find(self@, key@);
                match r {
                    Some(h) => i >= 0 && self@[i].1.tip() == Some(h@),
                    None => i == -1 || self@[i].1.tip() is None,
                }
            }),
    {
        let ghost sv = self@;
        let n = self.verifiers.len();
        let mut idx: usize = 0;
        while idx < n
            invariant
                sv == self@,
                n == sv.len(),
                0 <= idx <= n,
                forall|p: int| 0 <= p < idx ==> sv[p].0 != key@,
            decreases n - idx,
        {
            if str_eq(self.verifiers[idx].0.as_str(), key) {
                proof {
                    assert(sv[idx as int].0 == key@);
                    lemma_vm_find_props(sv, key@);
                    assert(vm_find(sv, key@) == idx as int);
                }
                return self.verifiers[idx].1.latest();
            }
            idx = idx + 1;
        }
        proof {
            lemma_vm_find_props(sv, key@);
        }
        None
    }

    /// Dispatch a signed update to the named verifier; a missing name is
    /// `NoVerifier`. On the named verifier the full ordered checks of
    /// `Verifier::verify` run against the clock.
    pub fn verify<T: Codec, C: Command<T>>(
        &mut self,
        store: &mut BlockStore,
        input: Signed,
        key: &str,
    ) -> (r: Result<BlockHash, VerifierError>)
        requires
            old(store).wf(),
            old(self).wf(),
        ensures
            final(store).wf(),
            final(self).wf(),
            final(self).dir_view() == old(self).dir_view(),
            ({
                let i = vm_find(old(self)@, key@);
                if i == -1 {
                    &&& r == Err::<BlockHash, VerifierError>(VerifierError::NoVerifier)
                    &&& final(self)@ == old(self)@
                    &&& final(store)@ == old(store)@
                } else {
                    &&& final(self)@.len() == old(self)@.len()
                    &&& forall|j: int| 0 <= j < old(self)@.len() && j != i ==> final(self)@[j]
                        == old(self)@[j]
                    &&& final(self)@[i].0 == old(self)@[i].0
                    &&& exists|now: u64|
                        #[trigger] verify_at_post::<T, C>(
                            old(self)@[i].1,
                            final(self)@[i].1,
                            old(store)@,
                            final(store)@,
                            input@,
                            now,
                            result_view(r),
                        )
                }
            }),
    {
        let ghost sv = self@;
        let n = self.verifiers.len();
        let mut idx: usize = 0;
        while idx < n
            invariant
                *self == *old(self),
                sv == self@,
                forall|p: int, q: int| 0 <= p < q < sv.len() ==> sv[p].0 != sv[q].0,
                old(store).wf(),
                *store == *old(store),
                n == sv.len(),
                0 <= idx <= n,
                forall|p: int| 0 <= p < idx ==> sv[p].0 != key@,
            decreases n - idx,
        {
            if str_eq(self.verifiers[idx].0.as_str(), key) {
                proof {
                    assert(sv[idx as int].0 == key@);
                    lemma_vm_find_props(sv, key@);
                    assert(vm_find(sv, key@) == idx as int);
                }
                let v = entry_mut(&mut self.verifiers, idx);
                let ghost v0 = *v;
                let r = v.verify::<T, C>(store, input);
                proof {
                    let ghost vnew = self.verifiers@[idx as int].1;
                    assert(self@ =~= sv.update(idx as int, (sv[idx as int].0, vnew)));
                    assert forall|p: int, q: int| 0 <= p < q < self@.len() implies self@[p].0
                        != self@[q].0 by {
                        assert(self@[p].0 == sv[p].0);
                        assert(self@[q].0 == sv[q].0);
                    }
                    assert(self.wf());
                    assert(v0 == sv[idx as int].1);
                    assert(self@[idx as int].1 == vnew);
                    assert(exists|now: u64|
                        #[trigger] verify_at_post::<T, C>(
                            sv[idx as int].1,
                            vnew,
                            old(store)@,
                            store@,
                            input@,
                            now,
                            result_view(r),
                        ));
                }
                return r;
            }
            idx = idx + 1;
        }
        proof {
            lemma_vm_find_props(sv, key@);
        }
        Err(VerifierError::NoVerifier)
    }
}


impl VerifierMap {
    /// Every verifier rendered to its file bytes, under its name, for
    /// the caller to write into the map's directory: each entry's bytes
    /// are the file encoding of its verifier, with the allow-list in
    /// the set's own order.
    pub fn to_entries(&self) -> (r: Vec<(String, Vec<u8>)>)
        ensures
            r@.len() == self@.len(),
            forall|i: int| 0 <= i < r@.len() ==> #[trigger] r@[i].0@ == self@[i].0,
            forall|i: int| 0 <= i < r@.len() ==> verifier_file_image(
                #[trigger] r@[i].1@,
                self@[i].1,
            ),
    {
        let n = self.verifiers.len();
        let mut out: Vec<(String, Vec<u8>)> = Vec::new();
        let mut i: usize = 0;
        while i < n
            invariant
                n == self.verifiers@.len(),
                self@.len() == n,
                0 <= i <= n,
                out@.len() == i,
                forall|k: int| 0 <= k < i ==> #[trigger] out@[k].0@ == self@[k].0,
                forall|j: int| 0 <= j < i ==> verifier_file_image(
                    #[trigger] out@[j].1@,
                    self@[j].1,
                ),
            decreases n - i,
        {
            let name = self.verifiers[i].0.clone();
            let bytes = emit_verifier(&self.verifiers[i].1);
            proof {
                assert(self.verifiers@[i as int].1 == self@[i as int].1);
            }
            out.push((name, bytes));
            i = i + 1;
        }
        out
    }
}

/// First-run bootstrap of the tile-library directory: write an empty
/// named-hash root signed by the map verifier's pair, then register the
/// stream `main` with that root as its tip and the root key as its only
/// allowed signer.
pub fn bootstrap_tile_libraries(
    store: &mut BlockStore,
    dir: String,
    kp: KeyPair,
    root_key: &PublicKey,
) -> (r: Result<VerifierMap, StoreError>)
    requires
        old(store).wf(),
    ensures
        final(store).wf(),
        ({
            let bytes = crate::verify::authored_block_enc::<NamedHash>(
                kp.public@,
                kp.secret@,
                crate::verify::VerifiedDataV {
                    value: Seq::<(Seq<char>, Seq<u8>)>::empty(),
                    update: None,
                },
            );
            match r {
                Ok(m) => {
                    &&& m.wf()
                    &&& m@.len() == 1
                    &&& m@[0].0 == "main"@
                    &&& m@[0].1.keypair.public@ == kp.public@
                    &&& m@[0].1.keypair.secret@ == kp.secret@
                    &&& allowed_contents(m@[0].1.allowed) == Set::<Seq<u8>>::empty().insert(
                        root_key@,
                    )
                    &&& m@[0].1.tip() == Some(sha256_of(bytes))
                    &&& final(store)@ == old(store)@.insert(sha256_of(bytes), bytes)
                },
                Err(_) => final(store)@ == old(store)@ || final(store)@ == old(store)@.insert(
                    sha256_of(bytes),
                    bytes,
                ),
            }
        }),
{
    let kp2 = kp.clone();
    let root_value = NamedHash::new();
    let h = match store_verified(store, root_value, &kp) {
        Ok(h) => h,
        Err(e) => {
            return Err(e);
        },
    };
    let mut vm = VerifierMap::new(dir);
    let allowed = AllowedKeys::empty().insert(root_key);
    match vm.add_new("main".to_owned(), Some(kp2), Some(allowed), Some(h)) {
        Ok(_) => Ok(vm),
        Err(_) => Err(StoreError::Io(String::new())),
    }
}

// ---------------------------------------------------------------------
// The wire vocabulary for map requests and responses.
// ---------------------------------------------------------------------

impl DeepView for VerifierError {
    type V = VerifierError;

    open spec fn deep_view(&self) -> VerifierError {
        *self
    }
}

/// One byte per error kind.
pub open spec fn enc_verifier_error(e: VerifierError) -> u8 {
    match e {
        VerifierError::DisallowedKey => 0,
        VerifierError::BadSignature => 1,
        VerifierError::DecodeFailed => 2,
        VerifierError::Stale => 3,
        VerifierError::NotLatest => 4,
        VerifierError::LastErr => 5,
        VerifierError::UpdateErr => 6,
        VerifierError::StoreErr => 7,
        VerifierError::NoVerifier => 8,
    }
}

pub open spec fn dec_verifier_error(tag: u8) -> Option<VerifierError> {
    if tag == 0 {
        Some(VerifierError::DisallowedKey)
    } else if tag == 1 {
        Some(VerifierError::BadSignature)
    } else if tag == 2 {
        Some(VerifierError::DecodeFailed)
    } else if tag == 3 {
        Some(VerifierError::Stale)
    } else if tag == 4 {
        Some(VerifierError::NotLatest)
    } else if tag == 5 {
        Some(VerifierError::LastErr)
    } else if tag == 6 {
        Some(VerifierError::UpdateErr)
    } else if tag == 7 {
        Some(VerifierError::StoreErr)
    } else if tag == 8 {
        Some(VerifierError::NoVerifier)
    } else {
        None
    }
}

impl Codec for VerifierError {
    open spec fn encv(v: VerifierError) -> Seq<u8> {
        enc_u8(enc_verifier_error(v))
    }

    open spec fn encv_wf(v: VerifierError) -> bool {
        true
    }

    open spec fn decv_at(b: Seq<u8>, i: int) -> Option<(VerifierError, int)> {
        match dec_u8_at(b, i) {
            Some((tag, j)) => match dec_verifier_error(tag) {
                Some(e) => Some((e, j)),
                None => None,
            },
            None => None,
        }
    }

    proof fn lemma_round_trip(v: VerifierError, b: Seq<u8>, i: int) {
        lemma_u8_round_trip(enc_verifier_error(v), b, i);
    }

    fn encode_to(&self, out: &mut Vec<u8>) {
        let tag: u8 = match self {
            VerifierError::DisallowedKey => 0,
            VerifierError::BadSignature => 1,
            VerifierError::DecodeFailed => 2,
            VerifierError::Stale => 3,
            VerifierError::NotLatest => 4,
            VerifierError::LastErr => 5,
            VerifierError::UpdateErr => 6,
            VerifierError::StoreErr => 7,
            VerifierError::NoVerifier => 8,
        };
        write_u8(out, tag);
    }

    fn decode_at(b: &[u8], i: usize) -> (r: Option<(VerifierError, usize)>) {
        match read_u8(b, i) {
            Some((tag, j)) => {
                if tag == 0 {
                    Some((VerifierError::DisallowedKey, j))
                } else if tag == 1 {
                    Some((VerifierError::BadSignature, j))
                } else if tag == 2 {
                    Some((VerifierError::DecodeFailed, j))
                } else if tag == 3 {
                    Some((VerifierError::Stale, j))
                } else if tag == 4 {
                    Some((VerifierError::NotLatest, j))
                } else if tag == 5 {
                    Some((VerifierError::LastErr, j))
                } else if tag == 6 {
                    Some((VerifierError::UpdateErr, j))
                } else if tag == 7 {
                    Some((VerifierError::StoreErr, j))
                } else if tag == 8 {
                    Some((VerifierError::NoVerifier, j))
                } else {
                    None
                }
            },
            None => None,
        }
    }
}

/// A request against one named verifier: read its tip, or push a signed
/// update.
#[derive(Debug)]
pub enum VerifierRequest {
    Latest,
    Update(Signed),
}

impl DeepView for VerifierRequest {
    type V = Option<SignedV>;

    open spec fn deep_view(&self) -> Option<SignedV> {
        match self {
            VerifierRequest::Latest => None,
            VerifierRequest::Update(s) => Some(s@),
        }
    }
}

impl Codec for VerifierRequest {
    open spec fn encv(v: Option<SignedV>) -> Seq<u8> {
        match v {
            None => enc_u8(0),
            Some(s) => enc_u8(1) + Signed::encv(s),
        }
    }

    open spec fn encv_wf(v: Option<SignedV>) -> bool {
        match v {
            None => true,
            Some(s) => Signed::encv_wf(s),
        }
    }

    open spec fn decv_at(b: Seq<u8>, i: int) -> Option<(Option<SignedV>, int)> {
        match dec_u8_at(b, i) {
            Some((tag, j)) => if tag == 0 {
                Some((None, j))
            } else if tag == 1 {
                match Signed::decv_at(b, j) {
                    Some((s, k)) => Some((Some(s), k)),
                    None => None,
                }
            } else {
                None
            },
            None => None,
        }
    }

    proof fn lemma_round_trip(v: Option<SignedV>, b: Seq<u8>, i: int) {
        match v {
            None => {
                lemma_u8_round_trip(0u8, b, i);
            },
            Some(s) => {
                lemma_concat_split(b, i, enc_u8(1), Signed::encv(s));
                lemma_u8_round_trip(1u8, b, i);
                Signed::lemma_round_trip(s, b, i + 1);
            },
        }
    }

    fn encode_to(&self, out: &mut Vec<u8>) {
        match self {
            VerifierRequest::Latest => {
                write_u8(out, 0);
            },
            VerifierRequest::Update(s) => {
                write_u8(out, 1);
                s.encode_to(out);
                assert(out@ =~= old(out)@ + Self::encv(self.deep_view()));
            },
        }
    }

    fn decode_at(b: &[u8], i: usize) -> (r: Option<(VerifierRequest, usize)>) {
        match read_u8(b, i) {
            Some((tag, j)) => if tag == 0 {
                Some((VerifierRequest::Latest, j))
            } else if tag == 1 {
                match Signed::decode_at(b, j) {
                    Some((s, k)) => Some((VerifierRequest::Update(s), k)),
                    None => None,
                }
            } else {
                None
            },
            None => None,
        }
    }
}

/// A routed request: which object family, which stream, what to do.
#[derive(Debug)]
pub enum Request {
    TileLibrary(String, VerifierRequest),
}

impl DeepView for Request {
    type V = (Seq<char>, Option<SignedV>);

    open spec fn deep_view(&self) -> (Seq<char>, Option<SignedV>) {
        match self {
            Request::TileLibrary(name, vreq) => (name@, vreq.deep_view()),
        }
    }
}

impl Codec for Request {
    open spec fn encv(v: (Seq<char>, Option<SignedV>)) -> Seq<u8> {
        enc_u8(0) + enc_str(v.0) + VerifierRequest::encv(v.1)
    }

    open spec fn encv_wf(v: (Seq<char>, Option<SignedV>)) -> bool {
        vstd::utf8::encode_utf8(v.0).len() <= u64::MAX && VerifierRequest::encv_wf(v.1)
    }

    open spec fn decv_at(b: Seq<u8>, i: int) -> Option<((Seq<char>, Option<SignedV>), int)> {
        match dec_u8_at(b, i) {
            Some((tag, j)) => if tag == 0 {
                match dec_str_at(b, j) {
                    Some((name, k)) => match VerifierRequest::decv_at(b, k) {
                        Some((vr, l)) => Some(((name, vr), l)),
                        None => None,
                    },
                    None => None,
                }
            } else {
                None
            },
            None => None,
        }
    }

    proof fn lemma_round_trip(v: (Seq<char>, Option<SignedV>), b: Seq<u8>, i: int) {
        let e1 = enc_u8(0);
        let e2 = enc_str(v.0);
        let e3 = VerifierRequest::encv(v.1);
        assert(Self::encv(v) =~= e1 + (e2 + e3));
        lemma_concat_split(b, i, e1, e2 + e3);
        lemma_u8_round_trip(0u8, b, i);
        lemma_concat_split(b, i + 1, e2, e3);
        lemma_str_round_trip(v.0, b, i + 1);
        VerifierRequest::lemma_round_trip(v.1, b, i + 1 + e2.len());
    }

    fn encode_to(&self, out: &mut Vec<u8>) {
        match self {
            Request::TileLibrary(name, vreq) => {
                write_u8(out, 0);
                write_str(out, name.as_str());
                vreq.encode_to(out);
                assert(out@ =~= old(out)@ + Self::encv(self.deep_view()));
            },
        }
    }

    fn decode_at(b: &[u8], i: usize) -> (r: Option<(Request, usize)>) {
        match read_u8(b, i) {
            Some((tag, j)) => if tag == 0 {
                match read_str(b, j) {
                    Some((name, k)) => match VerifierRequest::decode_at(b, k) {
                        Some((vr, l)) => Some((Request::TileLibrary(name, vr), l)),
                        None => None,
                    },
                    None => None,
                }
            } else {
                None
            },
            None => None,
        }
    }
}

/// Mathematical model of a `MapResponse`.
pub ghost enum MapResponseV {
    Latest(Option<Seq<u8>>),
    VerifierResult(Result<Seq<u8>, VerifierError>),
}

/// What the map answers: a tip read, or the outcome of an update.
#[derive(Debug)]
pub enum MapResponse {
    Latest(Option<BlockHash>),
    VerifierResult(Result<BlockHash, VerifierError>),
}

impl DeepView for MapResponse {
    type V = MapResponseV;

    open spec fn deep_view(&self) -> MapResponseV {
        match self {
            MapResponse::Latest(o) => MapResponseV::Latest(
                match o {
                    Some(h) => Some(h@),
                    None => None,
                },
            ),
            MapResponse::VerifierResult(res) => MapResponseV::VerifierResult(
                match res {
                    Ok(h) => Ok(h@),
                    Err(e) => Err(*e),
                },
            ),
        }
    }
}

impl Codec for MapResponse {
    open spec fn encv(v: MapResponseV) -> Seq<u8> {
        match v {
            MapResponseV::Latest(o) => enc_u8(0) + <Option<BlockHash> as Codec>::encv(o),
            MapResponseV::VerifierResult(res) => match res {
                Ok(h) => enc_u8(1) + (enc_u8(0) + h),
                Err(e) => enc_u8(1) + (enc_u8(1) + VerifierError::encv(e)),
            },
        }
    }

    open spec fn encv_wf(v: MapResponseV) -> bool {
        match v {
            MapResponseV::Latest(o) => <Option<BlockHash> as Codec>::encv_wf(o),
            MapResponseV::VerifierResult(res) => match res {
                Ok(h) => h.len() == 32,
                Err(e) => true,
            },
        }
    }

    open spec fn decv_at(b: Seq<u8>, i: int) -> Option<(MapResponseV, int)> {
        match dec_u8_at(b, i) {
            Some((tag, j)) => if tag == 0 {
                match <Option<BlockHash> as Codec>::decv_at(b, j) {
                    Some((o, k)) => Some((MapResponseV::Latest(o), k)),
                    None => None,
                }
            } else if tag == 1 {
                match dec_u8_at(b, j) {
                    Some((tag2, k)) => if tag2 == 0 {
                        match BlockHash::decv_at(b, k) {
                            Some((h, l)) => Some((MapResponseV::VerifierResult(Ok(h)), l)),
                            None => None,
                        }
                    } else if tag2 == 1 {
                        match VerifierError::decv_at(b, k) {
                            Some((e, l)) => Some((MapResponseV::VerifierResult(Err(e)), l)),
                            None => None,
                        }
                    } else {
                        None
                    },
                    None => None,
                }
            } else {
                None
            },
            None => None,
        }
    }

    proof fn lemma_round_trip(v: MapResponseV, b: Seq<u8>, i: int) {
        match v {
            MapResponseV::Latest(o) => {
                lemma_concat_split(b, i, enc_u8(0), <Option<BlockHash> as Codec>::encv(o));
                lemma_u8_round_trip(0u8, b, i);
                <Option<BlockHash> as Codec>::lemma_round_trip(o, b, i + 1);
            },
            MapResponseV::VerifierResult(res) => {
                match res {
                    Ok(h) => {
                        lemma_concat_split(b, i, enc_u8(1), enc_u8(0) + h);
                        lemma_u8_round_trip(1u8, b, i);
                        lemma_concat_split(b, i + 1, enc_u8(0), h);
                        lemma_u8_round_trip(0u8, b, i + 1);
                        assert(b.subrange(i + 2, i + 2 + 32) == h);
                    },
                    Err(e) => {
                        lemma_concat_split(b, i, enc_u8(1), enc_u8(1) + VerifierError::encv(e));
                        lemma_u8_round_trip(1u8, b, i);
                        lemma_concat_split(b, i + 1, enc_u8(1), VerifierError::encv(e));
                        lemma_u8_round_trip(1u8, b, i + 1);
                        VerifierError::lemma_round_trip(e, b, i + 2);
                    },
                }
            },
        }
    }

    fn encode_to(&self, out: &mut Vec<u8>) {
        match self {
            MapResponse::Latest(o) => {
                write_u8(out, 0);
                o.encode_to(out);
            },
            MapResponse::VerifierResult(res) => {
                write_u8(out, 1);
                match res {
                    Ok(h) => {
                        write_u8(out, 0);
                        h.encode_to(out);
                    },
                    Err(e) => {
                        write_u8(out, 1);
                        e.encode_to(out);
                    },
                }
            },
        }
        assert(out@ =~= old(out)@ + Self::encv(self.deep_view()));
    }

    fn decode_at(b: &[u8], i: usize) -> (r: Option<(MapResponse, usize)>) {
        match read_u8(b, i) {
            Some((tag, j)) => if tag == 0 {
                match <Option<BlockHash> as Codec>::decode_at(b, j) {
                    Some((o, k)) => Some((MapResponse::Latest(o), k)),
                    None => None,
                }
            } else if tag == 1 {
                match read_u8(b, j) {
                    Some((tag2, k)) => if tag2 == 0 {
                        match BlockHash::decode_at(b, k) {
                            Some((h, l)) => Some((MapResponse::VerifierResult(Ok(h)), l)),
                            None => None,
                        }
                    } else if tag2 == 1 {
                        match VerifierError::decode_at(b, k) {
                            Some((e, l)) => Some((MapResponse::VerifierResult(Err(e)), l)),
                            None => None,
                        }
                    } else {
                        None
                    },
                    None => None,
                }
            } else {
                None
            },
            None => None,
        }
    }
}

} // verus!
