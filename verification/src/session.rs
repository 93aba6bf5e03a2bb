//! The authenticated client session: a challenge-response handshake,
//! then tagged commands dispatched to the block store and the verifier
//! map. The socket I/O and threading live with the caller; this module
//! decides, for each incoming message, the reply and the next state.

use vstd::prelude::*;
use crate::codec::{Codec, decode_value, encode_value, enc_u8, dec_u8_at, lemma_u8_round_trip,
    lemma_concat_split, enc_bytes, dec_bytes_at, lemma_bytes_round_trip, write_bytes, read_bytes,
    enc_str, dec_str_at, lemma_str_round_trip, write_str, read_str, write_u8, read_u8, dec_exact};
use crate::block::{BlockHash, sha256_of};
use crate::signed::{Signed, SignedV, PublicKey, AllowedKeys, verify_of};
use crate::store::{BlockStore, StoreError};
use crate::update::{NamedHash, NamedHashCommand};
use crate::ltime::SerializableTime;
use crate::verify::{Verifier, VerifierError, verify_at_post};
use crate::vmap::{VerifierMap, VerifierRequest, Request, MapResponse, MapResponseV, vm_find};

verus! {

/// Length of the random challenge a server opens a connection with.
pub const CHALLENGE_BYTES: usize = 32;

/// A challenge or its response older than this many seconds is refused.
pub const CHALLENGE_STALE_SECONDS: u64 = 5;

/// Relies on `rand::random`: 32 bytes drawn from the thread-local
/// generator; nothing is promised of their value.
#[verifier::external_body]
fn random_challenge() -> (r: Vec<u8>)
    ensures
        r@.len() == CHALLENGE_BYTES,
{
    let bytes: [u8; 32] = rand::random();
    bytes.to_vec()
}

/// Relies on `sodiumoxide::crypto::verify::verify_32`: constant-time
/// equality of two 32-byte strings.
#[verifier::external_body]
fn ct_eq_32(a: &[u8], b: &[u8]) -> (r: bool)
    requires
        a@.len() == 32,
        b@.len() == 32,
    ensures
        r == (a@ == b@),
{
    let a32: &[u8; 32] = a.try_into().unwrap();
    let b32: &[u8; 32] = b.try_into().unwrap();
    sodiumoxide::crypto::verify::verify_32(a32, b32)
}

/// What the server sends on open: a timestamped random challenge, to be
/// echoed back signed by the client.
#[derive(Debug)]
pub struct ServerAuthChallenge {
    pub timestamp: SerializableTime,
    challenge: Vec<u8>,
}

/// Mathematical model of a challenge.
pub ghost struct AuthChallengeV {
    pub timestamp: u32,
    pub challenge: Seq<u8>,
}

impl DeepView for ServerAuthChallenge {
    type V = AuthChallengeV;

    closed spec fn deep_view(&self) -> AuthChallengeV {
        AuthChallengeV { timestamp: self.timestamp@, challenge: self.challenge@ }
    }
}

impl ServerAuthChallenge {
    #[verifier::type_invariant]
    pub open spec fn inv(self) -> bool {
        self.deep_view().challenge.len() == CHALLENGE_BYTES
    }

    /// A fresh challenge stamped with the given time.
    pub fn new_at(time: SerializableTime) -> (r: ServerAuthChallenge)
        ensures
            r.deep_view().timestamp == time@,
    {
        ServerAuthChallenge { timestamp: time, challenge: random_challenge() }
    }

    /// A challenge with given bytes; refused unless exactly 32.
    pub fn from_parts(time: SerializableTime, challenge: Vec<u8>) -> (r: Option<
        ServerAuthChallenge,
    >)
        ensures
            match r {
                Some(c) => challenge@.len() == CHALLENGE_BYTES && c.deep_view()
                    == (AuthChallengeV { timestamp: time@, challenge: challenge@ }),
                None => challenge@.len() != CHALLENGE_BYTES,
            },
    {
        if challenge.len() == CHALLENGE_BYTES {
            Some(ServerAuthChallenge { timestamp: time, challenge })
        } else {
            None
        }
    }
}

impl Codec for ServerAuthChallenge {
    open spec fn encv(v: AuthChallengeV) -> Seq<u8> {
        SerializableTime::encv(v.timestamp) + v.challenge
    }

    open spec fn encv_wf(v: AuthChallengeV) -> bool {
        v.challenge.len() == CHALLENGE_BYTES
    }

    open spec fn decv_at(b: Seq<u8>, i: int) -> Option<(AuthChallengeV, int)> {
        match SerializableTime::decv_at(b, i) {
            Some((ts, j)) => if j + CHALLENGE_BYTES <= b.len() {
                Some(
                    (
                        AuthChallengeV {
                            timestamp: ts,
                            challenge: b.subrange(j, j + CHALLENGE_BYTES),
                        },
                        j + CHALLENGE_BYTES,
                    ),
                )
            } else {
                None
            },
            None => None,
        }
    }

    proof fn lemma_round_trip(v: AuthChallengeV, b: Seq<u8>, i: int) {
        lemma_concat_split(b, i, SerializableTime::encv(v.timestamp), v.challenge);
        SerializableTime::lemma_round_trip(v.timestamp, b, i);
        assert(b.subrange(i + 4, i + 4 + CHALLENGE_BYTES) == v.challenge);
    }

    fn encode_to(&self, out: &mut Vec<u8>) {
        proof {
            use_type_invariant(self);
        }
        self.timestamp.encode_to(out);
        out.extend_from_slice(self.challenge.as_slice());
        assert(out@ =~= old(out)@ + Self::encv(self.deep_view()));
    }

    fn decode_at(b: &[u8], i: usize) -> (r: Option<(ServerAuthChallenge, usize)>) {
        match SerializableTime::decode_at(b, i) {
            Some((ts, j)) => {
                if b.len() >= CHALLENGE_BYTES && j <= b.len() - CHALLENGE_BYTES {
                    let challenge = vstd::slice::slice_to_vec(
                        vstd::slice::slice_subrange(b, j, j + CHALLENGE_BYTES),
                    );
                    Some((ServerAuthChallenge { timestamp: ts, challenge }, j + CHALLENGE_BYTES))
                } else {
                    None
                }
            },
            None => None,
        }
    }
}

/// The client's reply: the challenge bytes echoed back, freshly
/// timestamped, inside a signed envelope.
#[derive(Debug)]
pub struct ClientAuthResponse {
    pub timestamp: SerializableTime,
    challenge: Vec<u8>,
}

impl DeepView for ClientAuthResponse {
    type V = AuthChallengeV;

    closed spec fn deep_view(&self) -> AuthChallengeV {
        AuthChallengeV { timestamp: self.timestamp@, challenge: self.challenge@ }
    }
}

/// Both timestamps must sit within the freshness window of the server's
/// challenge: the reply must come soon after the challenge was made, and
/// must not claim a time far after it.
pub open spec fn auth_fresh(server_ts: u32, client_ts: u32, now: u64) -> bool {
    now <= server_ts + CHALLENGE_STALE_SECONDS && client_ts <= server_ts
        + CHALLENGE_STALE_SECONDS
}

impl ClientAuthResponse {
    #[verifier::type_invariant]
    pub open spec fn inv(self) -> bool {
        self.deep_view().challenge.len() == CHALLENGE_BYTES
    }

    /// A response with given bytes; refused unless exactly 32.
    pub fn from_parts(time: SerializableTime, challenge: Vec<u8>) -> (r: Option<
        ClientAuthResponse,
    >)
        ensures
            match r {
                Some(c) => challenge@.len() == CHALLENGE_BYTES && c.deep_view()
                    == (AuthChallengeV { timestamp: time@, challenge: challenge@ }),
                None => challenge@.len() != CHALLENGE_BYTES,
            },
    {
        if challenge.len() == CHALLENGE_BYTES {
            Some(ClientAuthResponse { timestamp: time, challenge })
        } else {
            None
        }
    }

    /// True exactly when the reply is fresh against the server's
    /// challenge and echoes its bytes; the byte comparison runs in
    /// constant time.
    pub fn check(&self, server: &ServerAuthChallenge, now: u64) -> (r: bool)
        ensures
            r == (auth_fresh(server.deep_view().timestamp, self.deep_view().timestamp, now)
                && self.deep_view().challenge == server.deep_view().challenge),
    {
        proof {
            use_type_invariant(self);
            use_type_invariant(server);
        }
        let server_ts = server.timestamp.to_u64();
        let client_ts = self.timestamp.to_u64();
        if now > server_ts && now - server_ts > CHALLENGE_STALE_SECONDS {
            return false;
        }
        if client_ts > server_ts && client_ts - server_ts > CHALLENGE_STALE_SECONDS {
            return false;
        }
        ct_eq_32(self.challenge.as_slice(), server.challenge.as_slice())
    }
}

impl Codec for ClientAuthResponse {
    open spec fn encv(v: AuthChallengeV) -> Seq<u8> {
        SerializableTime::encv(v.timestamp) + v.challenge
    }

    open spec fn encv_wf(v: AuthChallengeV) -> bool {
        v.challenge.len() == CHALLENGE_BYTES
    }

    open spec fn decv_at(b: Seq<u8>, i: int) -> Option<(AuthChallengeV, int)> {
        match SerializableTime::decv_at(b, i) {
            Some((ts, j)) => if j + CHALLENGE_BYTES <= b.len() {
                Some(
                    (
                        AuthChallengeV {
                            timestamp: ts,
                            challenge: b.subrange(j, j + CHALLENGE_BYTES),
                        },
                        j + CHALLENGE_BYTES,
                    ),
                )
            } else {
                None
            },
            None => None,
        }
    }

    proof fn lemma_round_trip(v: AuthChallengeV, b: Seq<u8>, i: int) {
        lemma_concat_split(b, i, SerializableTime::encv(v.timestamp), v.challenge);
        SerializableTime::lemma_round_trip(v.timestamp, b, i);
        assert(b.subrange(i + 4, i + 4 + CHALLENGE_BYTES) == v.challenge);
    }

    fn encode_to(&self, out: &mut Vec<u8>) {
        proof {
            use_type_invariant(self);
        }
        self.timestamp.encode_to(out);
        out.extend_from_slice(self.challenge.as_slice());
        assert(out@ =~= old(out)@ + Self::encv(self.deep_view()));
    }

    fn decode_at(b: &[u8], i: usize) -> (r: Option<(ClientAuthResponse, usize)>) {
        match SerializableTime::decode_at(b, i) {
            Some((ts, j)) => {
                if b.len() >= CHALLENGE_BYTES && j <= b.len() - CHALLENGE_BYTES {
                    let challenge = vstd::slice::slice_to_vec(
                        vstd::slice::slice_subrange(b, j, j + CHALLENGE_BYTES),
                    );
                    Some((ClientAuthResponse { timestamp: ts, challenge }, j + CHALLENGE_BYTES))
                } else {
                    None
                }
            },
            None => None,
        }
    }
}

/// Whether the handshake succeeded.
#[derive(Debug, Clone, Copy, PartialEq, Eq, Structural)]
pub enum AuthResponse {
    Accepted,
    Rejected,
}

impl DeepView for AuthResponse {
    type V = AuthResponse;

    open spec fn deep_view(&self) -> AuthResponse {
        *self
    }
}

impl Codec for AuthResponse {
    open spec fn encv(v: AuthResponse) -> Seq<u8> {
        match v {
            AuthResponse::Accepted => enc_u8(0),
            AuthResponse::Rejected => enc_u8(1),
        }
    }

    open spec fn encv_wf(v: AuthResponse) -> bool {
        true
    }

    open spec fn decv_at(b: Seq<u8>, i: int) -> Option<(AuthResponse, int)> {
        match dec_u8_at(b, i) {
            Some((tag, j)) => if tag == 0 {
                Some((AuthResponse::Accepted, j))
            } else if tag == 1 {
                Some((AuthResponse::Rejected, j))
            } else {
                None
            },
            None => None,
        }
    }

    proof fn lemma_round_trip(v: AuthResponse, b: Seq<u8>, i: int) {
        match v {
            AuthResponse::Accepted => {
                lemma_u8_round_trip(0u8, b, i);
            },
            AuthResponse::Rejected => {
                lemma_u8_round_trip(1u8, b, i);
            },
        }
    }

    fn encode_to(&self, out: &mut Vec<u8>) {
        match self {
            AuthResponse::Accepted => {
                write_u8(out, 0);
            },
            AuthResponse::Rejected => {
                write_u8(out, 1);
            },
        }
    }

    fn decode_at(b: &[u8], i: usize) -> (r: Option<(AuthResponse, usize)>) {
        match read_u8(b, i) {
            Some((tag, j)) => if tag == 0 {
                Some((AuthResponse::Accepted, j))
            } else if tag == 1 {
                Some((AuthResponse::Rejected, j))
            } else {
                None
            },
            None => None,
        }
    }
}

/// The answer to a raw upload: the stored block's hash, or why not.
#[derive(Debug)]
pub enum UploadResponse {
    Stored(BlockHash),
    Failed(String),
}

/// Mathematical model of an `UploadResponse`.
pub ghost enum UploadResponseV {
    Stored(Seq<u8>),
    Failed(Seq<char>),
}

impl DeepView for UploadResponse {
    type V = UploadResponseV;

    open spec fn deep_view(&self) -> UploadResponseV {
        match self {
            UploadResponse::Stored(h) => UploadResponseV::Stored(h@),
            UploadResponse::Failed(s) => UploadResponseV::Failed(s@),
        }
    }
}

impl UploadResponse {
    /// Fold a store outcome into the wire answer: the hash on success,
    /// the store's description of the failure otherwise.
    pub fn from_result(result: Result<BlockHash, StoreError>) -> (r: UploadResponse)
        ensures
            match result {
                Ok(h) => r.deep_view() == UploadResponseV::Stored(h@),
                Err(StoreError::NotFound) => r.deep_view() == UploadResponseV::Failed(
                    "block not found"@,
                ),
                Err(StoreError::Io(m)) => r.deep_view() == UploadResponseV::Failed(m@),
            },
    {
        match result {
            Ok(h) => UploadResponse::Stored(h),
            Err(StoreError::NotFound) => UploadResponse::Failed("block not found".to_owned()),
            Err(StoreError::Io(m)) => UploadResponse::Failed(m),
        }
    }
}

impl Codec for UploadResponse {
    open spec fn encv(v: UploadResponseV) -> Seq<u8> {
        match v {
            UploadResponseV::Stored(h) => enc_u8(0) + h,
            UploadResponseV::Failed(s) => enc_u8(1) + enc_str(s),
        }
    }

    open spec fn encv_wf(v: UploadResponseV) -> bool {
        match v {
            UploadResponseV::Stored(h) => h.len() == 32,
            UploadResponseV::Failed(s) => vstd::utf8::encode_utf8(s).len() <= u64::MAX,
        }
    }

    open spec fn decv_at(b: Seq<u8>, i: int) -> Option<(UploadResponseV, int)> {
        match dec_u8_at(b, i) {
            Some((tag, j)) => if tag == 0 {
                if j + 32 <= b.len() {
                    Some((UploadResponseV::Stored(b.subrange(j, j + 32)), j + 32))
                } else {
                    None
                }
            } else if tag == 1 {
                match dec_str_at(b, j) {
                    Some((s, k)) => Some((UploadResponseV::Failed(s), k)),
                    None => None,
                }
            } else {
                None
            },
            None => None,
        }
    }

    proof fn lemma_round_trip(v: UploadResponseV, b: Seq<u8>, i: int) {
        match v {
            UploadResponseV::Stored(h) => {
                lemma_concat_split(b, i, enc_u8(0), h);
                lemma_u8_round_trip(0u8, b, i);
                assert(b.subrange(i + 1, i + 1 + 32) == h);
            },
            UploadResponseV::Failed(s) => {
                lemma_concat_split(b, i, enc_u8(1), enc_str(s));
                lemma_u8_round_trip(1u8, b, i);
                lemma_str_round_trip(s, b, i + 1);
            },
        }
    }

    fn encode_to(&self, out: &mut Vec<u8>) {
        match self {
            UploadResponse::Stored(h) => {
                write_u8(out, 0);
                h.encode_to(out);
            },
            UploadResponse::Failed(s) => {
                write_u8(out, 1);
                write_str(out, s.as_str());
            },
        }
        assert(out@ =~= old(out)@ + Self::encv(self.deep_view()));
    }

    fn decode_at(b: &[u8], i: usize) -> (r: Option<(UploadResponse, usize)>) {
        match read_u8(b, i) {
            Some((tag, j)) => if tag == 0 {
                match BlockHash::decode_at(b, j) {
                    Some((h, k)) => Some((UploadResponse::Stored(h), k)),
                    None => None,
                }
            } else if tag == 1 {
                match read_str(b, j) {
                    Some((s, k)) => Some((UploadResponse::Failed(s), k)),
                    None => None,
                }
            } else {
                None
            },
            None => None,
        }
    }
}

/// A client's tagged command once authenticated: raw block upload, or a
/// map request.
#[derive(Debug)]
pub enum Command {
    UploadRaw(Vec<u8>),
    MapRequest(Request),
}

/// Mathematical model of a session `Command`.
pub ghost enum CommandV {
    UploadRaw(Seq<u8>),
    MapRequest((Seq<char>, Option<SignedV>)),
}

impl DeepView for Command {
    type V = CommandV;

    open spec fn deep_view(&self) -> CommandV {
        match self {
            Command::UploadRaw(bytes) => CommandV::UploadRaw(bytes@),
            Command::MapRequest(req) => CommandV::MapRequest(req.deep_view()),
        }
    }
}

impl Codec for Command {
    open spec fn encv(v: CommandV) -> Seq<u8> {
        match v {
            CommandV::UploadRaw(bytes) => enc_u8(0) + enc_bytes(bytes),
            CommandV::MapRequest(req) => enc_u8(1) + Request::encv(req),
        }
    }

    open spec fn encv_wf(v: CommandV) -> bool {
        match v {
            CommandV::UploadRaw(bytes) => bytes.len() <= u64::MAX,
            CommandV::MapRequest(req) => Request::encv_wf(req),
        }
    }

    open spec fn decv_at(b: Seq<u8>, i: int) -> Option<(CommandV, int)> {
        match dec_u8_at(b, i) {
            Some((tag, j)) => if tag == 0 {
                match dec_bytes_at(b, j) {
                    Some((bytes, k)) => Some((CommandV::UploadRaw(bytes), k)),
                    None => None,
                }
            } else if tag == 1 {
                match Request::decv_at(b, j) {
                    Some((req, k)) => Some((CommandV::MapRequest(req), k)),
                    None => None,
                }
            } else {
                None
            },
            None => None,
        }
    }

    proof fn lemma_round_trip(v: CommandV, b: Seq<u8>, i: int) {
        match v {
            CommandV::UploadRaw(bytes) => {
                lemma_concat_split(b, i, enc_u8(0), enc_bytes(bytes));
                lemma_u8_round_trip(0u8, b, i);
                lemma_bytes_round_trip(bytes, b, i + 1);
            },
            CommandV::MapRequest(req) => {
                lemma_concat_split(b, i, enc_u8(1), Request::encv(req));
                lemma_u8_round_trip(1u8, b, i);
                Request::lemma_round_trip(req, b, i + 1);
            },
        }
    }

    fn encode_to(&self, out: &mut Vec<u8>) {
        match self {
            Command::UploadRaw(bytes) => {
                write_u8(out, 0);
                let n: usize = bytes.len();
                write_bytes(out, bytes.as_slice());
            },
            Command::MapRequest(req) => {
                write_u8(out, 1);
                req.encode_to(out);
            },
        }
        assert(out@ =~= old(out)@ + Self::encv(self.deep_view()));
    }

    fn decode_at(b: &[u8], i: usize) -> (r: Option<(Command, usize)>) {
        match read_u8(b, i) {
            Some((tag, j)) => if tag == 0 {
                match read_bytes(b, j) {
                    Some((bytes, k)) => Some((Command::UploadRaw(bytes), k)),
                    None => None,
                }
            } else if tag == 1 {
                match Request::decode_at(b, j) {
                    Some((req, k)) => Some((Command::MapRequest(req), k)),
                    None => None,
                }
            } else {
                None
            },
            None => None,
        }
    }
}

/// Per-connection state: waiting for the signed challenge echo, or
/// ready to serve commands for an authenticated key.
#[derive(Debug)]
pub enum ClientState {
    AwaitingAuth(ServerAuthChallenge),
    Ready(PublicKey),
}

/// Dispatch one request to the named verifier, as the map thread does:
/// read the tip, or run a signed update through the full check chain.
/// Everything `dispatch` promises, over models: a tip read answers with
/// the named verifier's tip and changes nothing; an update runs the full
/// check chain on the named verifier alone, or is `NoVerifier`.
pub open spec fn dispatch_post(
    vm0: Seq<(Seq<char>, Verifier)>,
    vm1: Seq<(Seq<char>, Verifier)>,
    blocks0: Map<Seq<u8>, Seq<u8>>,
    blocks1: Map<Seq<u8>, Seq<u8>>,
    name: Seq<char>,
    vreq: Option<SignedV>,
    resp: MapResponseV,
) -> bool {
    match vreq {
        None => {
            &&& blocks1 == blocks0
            &&& vm1 == vm0
            &&& resp matches MapResponseV::Latest(o) && (match o {
                Some(h) => vm_find(vm0, name) >= 0 && vm0[vm_find(vm0, name)].1.tip() == Some(h),
                None => vm_find(vm0, name) == -1 || vm0[vm_find(vm0, name)].1.tip() is None,
            })
        },
        Some(sv) => resp matches MapResponseV::VerifierResult(res) && ({
            let i = vm_find(vm0, name);
            if i == -1 {
                &&& res == Err::<Seq<u8>, VerifierError>(VerifierError::NoVerifier)
                &&& vm1 == vm0
                &&& blocks1 == blocks0
            } else {
                &&& vm1.len() == vm0.len()
                &&& forall|j: int| 0 <= j < vm0.len() && j != i ==> vm1[j] == vm0[j]
                &&& vm1[i].0 == vm0[i].0
                &&& exists|now: u64|
                    #[trigger] verify_at_post::<NamedHash, NamedHashCommand>(
                        vm0[i].1,
                        vm1[i].1,
                        blocks0,
                        blocks1,
                        sv,
                        now,
                        res,
                    )
            }
        }),
    }
}

/// Dispatch one request to the named verifier, as the map thread does:
/// read the tip, or run a signed update through the full check chain.
pub fn dispatch(
    store: &mut BlockStore,
    vmap: &mut VerifierMap,
    name: &str,
    vreq: VerifierRequest,
) -> (r: MapResponse)
    requires
        old(store).wf(),
        old(vmap).wf(),
    ensures
        final(store).wf(),
        final(vmap).wf(),
        dispatch_post(
            old(vmap)@,
            final(vmap)@,
            old(store)@,
            final(store)@,
            name@,
            vreq.deep_view(),
            r.deep_view(),
        ),
{
    match vreq {
        VerifierRequest::Latest => MapResponse::Latest(vmap.latest(name)),
        VerifierRequest::Update(signed) => MapResponse::VerifierResult(
            vmap.verify::<NamedHash, NamedHashCommand>(store, signed, name),
        ),
    }
}

/// Serve one authenticated command: an upload goes to the block store,
/// a map request to the named verifier. The reply encodes the outcome:
/// a stored hash or the store's failure for an upload, and for a map
/// request exactly the response `dispatch` fixes.
pub fn handle_command(store: &mut BlockStore, vmap: &mut VerifierMap, cmd: Command) -> (r: Vec<u8>)
    requires
        old(store).wf(),
        old(vmap).wf(),
    ensures
        final(store).wf(),
        final(vmap).wf(),
        match cmd {
            Command::UploadRaw(bytes) => final(vmap)@ == old(vmap)@ && (exists|u: UploadResponseV|
                {
                    &&& r@ == #[trigger] UploadResponse::encv(u)
                    &&& match u {
                        UploadResponseV::Stored(h) => h == sha256_of(bytes@) && final(store)@
                            == old(store)@.insert(sha256_of(bytes@), bytes@),
                        UploadResponseV::Failed(m) => final(store)@ == old(store)@
                            || final(store)@ == old(store)@.insert(sha256_of(bytes@), bytes@),
                    }
                }),
            Command::MapRequest(req) => exists|m: MapResponseV|
                {
                    &&& r@ == #[trigger] MapResponse::encv(m)
                    &&& dispatch_post(
                        old(vmap)@,
                        final(vmap)@,
                        old(store)@,
                        final(store)@,
                        req.deep_view().0,
                        req.deep_view().1,
                        m,
                    )
                },
        },
{
    match cmd {
        Command::UploadRaw(bytes) => {
            let outcome = store.set(bytes.as_slice());
            let resp = UploadResponse::from_result(outcome);
            let r = encode_value(&resp);
            proof {
                assert(r@ == UploadResponse::encv(resp.deep_view()));
            }
            r
        },
        Command::MapRequest(req) => {
            let resp = match req {
                Request::TileLibrary(name, vreq) => dispatch(store, vmap, name.as_str(), vreq),
            };
            let r = encode_value(&resp);
            proof {
                assert(r@ == MapResponse::encv(resp.deep_view()));
            }
            r
        },
    }
}

/// Whether a handshake reply authenticates against a challenge at time
/// `now`: it must be a decodable signed envelope whose signature
/// verifies under its own declared key, carrying a fresh echo of the
/// challenge bytes.
pub open spec fn authenticates(challenge: AuthChallengeV, msg: Seq<u8>, now: u64) -> bool {
    &&& dec_exact::<Signed>(msg) matches Some(sv) && {
        &&& verify_of(sv.user, sv.data) matches Some(m) && dec_exact::<ClientAuthResponse>(m)
            matches Some(resp) && {
            &&& auth_fresh(challenge.timestamp, resp.timestamp, now)
            &&& resp.challenge == challenge.challenge
        }
    }
}

/// Judge a client's handshake reply: decode the signed envelope, verify
/// it under the client's own declared key, and check freshness and the
/// echoed bytes against the challenge. `Some(key)` authenticates the
/// session for exactly the replies `authenticates` admits; everything
/// else is refused.
pub fn check_auth(challenge: &ServerAuthChallenge, msg: &[u8], now: u64) -> (r: Option<PublicKey>)
    ensures
        match r {
            Some(key) => authenticates(challenge.deep_view(), msg@, now) && (dec_exact::<Signed>(
                msg@,
            ) matches Some(sv) && sv.user == key@),
            None => !authenticates(challenge.deep_view(), msg@, now),
        },
{
    let signed: Signed = match decode_value::<Signed>(msg) {
        Some(s) => s,
        None => {
            return None;
        },
    };
    let user = signed.user().clone();
    let allowed = AllowedKeys::empty().insert(&user);
    let resp: ClientAuthResponse = match signed.verify::<ClientAuthResponse>(&allowed) {
        Ok(x) => x,
        Err(_) => {
            return None;
        },
    };
    if resp.check(challenge, now) {
        Some(user)
    } else {
        None
    }
}

} // verus!
