//! Block identity: a 32-byte SHA-256 digest, addressable as raw bytes and
//! as URL-safe Base64 without padding.

use vstd::prelude::*;
use crate::codec::{Codec, bytes_eq};
use base64::Engine;
use sha2::Digest;

verus! {

/// SHA-256 digest of a byte sequence: a pure 32-byte function of the
/// input, computed by an outside crate and named here.
pub uninterp spec fn sha256_of(data: Seq<u8>) -> Seq<u8>;

/// URL-safe, unpadded Base64 text of a byte sequence.
pub uninterp spec fn b64url_of(data: Seq<u8>) -> Seq<char>;

/// The bytes a URL-safe, unpadded Base64 text decodes to, if it is valid.
pub uninterp spec fn b64url_dec(s: Seq<char>) -> Option<Seq<u8>>;

/// The facts the encoder guarantees of every text it produces, needed to
/// read an encoding back: the text decodes to the bytes, and its UTF-8
/// form holds no quote byte.
pub open spec fn b64_readable(data: Seq<u8>) -> bool {
    &&& b64url_dec(b64url_of(data)) == Some(data)
    &&& forall|i: int|
        0 <= i < vstd::utf8::encode_utf8(b64url_of(data)).len() ==> vstd::utf8::encode_utf8(
            b64url_of(data),
        )[i] != 34
}

/// Relies on `sha2::Sha256::digest`: the SHA-256 digest of the input, 32
/// bytes, depending on the input bytes alone.
#[verifier::external_body]
fn sha256(data: &[u8]) -> (r: Vec<u8>)
    ensures
        r@ == sha256_of(data@),
        r@.len() == 32,
{
    sha2::Sha256::digest(data).to_vec()
}

/// Relies on `base64`'s `URL_SAFE_NO_PAD` engine: encoding is a pure
/// function of the input bytes and decodes back to them; its alphabet
/// (letters, digits, `-` and `_`) holds no quote, so the text's UTF-8
/// bytes never contain one.
#[verifier::external_body]
pub(crate) fn b64_encode(data: &[u8]) -> (r: String)
    ensures
        r@ == b64url_of(data@),
        b64url_dec(r@) == Some(data@),
        forall|i: int|
            0 <= i < vstd::utf8::encode_utf8(r@).len() ==> vstd::utf8::encode_utf8(r@)[i] != 34,
{
    base64::engine::general_purpose::URL_SAFE_NO_PAD.encode(data)
}

/// Relies on the same engine's `decode`: succeeds exactly on texts that
/// are valid for this alphabet and returns the bytes they encode.
#[verifier::external_body]
pub(crate) fn b64_decode(s: &str) -> (r: Option<Vec<u8>>)
    ensures
        match r {
            Some(v) => b64url_dec(s@) == Some(v@),
            None => b64url_dec(s@) is None,
        },
{
    base64::engine::general_purpose::URL_SAFE_NO_PAD.decode(s).ok()
}

/// A fixed 32-byte SHA-256 digest; the identity of a block. Equality is
/// byte-equality on the digest.
#[derive(Debug, Eq, Hash)]
pub struct BlockHash {
    bytes: Vec<u8>,
}

impl View for BlockHash {
    type V = Seq<u8>;

    closed spec fn view(&self) -> Seq<u8> {
        self.bytes@
    }
}

impl DeepView for BlockHash {
    type V = Seq<u8>;

    open spec fn deep_view(&self) -> Seq<u8> {
        self.view()
    }
}

impl PartialEq for BlockHash {
    fn eq(&self, other: &BlockHash) -> (r: bool) {
        bytes_eq(self.bytes.as_slice(), other.bytes.as_slice())
    }
}

impl vstd::std_specs::cmp::PartialEqSpecImpl for BlockHash {
    open spec fn obeys_eq_spec() -> bool {
        true
    }

    open spec fn eq_spec(&self, other: &BlockHash) -> bool {
        self@ == other@
    }
}

impl Clone for BlockHash {
    fn clone(&self) -> (r: BlockHash)
        ensures
            r@ == self@,
    {
        proof {
            use_type_invariant(self);
        }
        BlockHash { bytes: vstd::slice::slice_to_vec(self.bytes.as_slice()) }
    }
}

impl BlockHash {
    /// A digest is always exactly 32 bytes.
    #[verifier::type_invariant]
    pub open spec fn inv(self) -> bool {
        self@.len() == 32
    }

    /// Wrap 32 digest bytes; any other length is refused.
    pub fn from_bytes(bytes: Vec<u8>) -> (r: Option<BlockHash>)
        ensures
            match r {
                Some(h) => bytes@.len() == 32 && h@ == bytes@,
                None => bytes@.len() != 32,
            },
    {
        if bytes.len() == 32 {
            Some(BlockHash { bytes })
        } else {
            None
        }
    }

    pub fn as_bytes(&self) -> (r: &[u8])
        ensures
            r@ == self@,
    {
        self.bytes.as_slice()
    }

    /// The digest of the given bytes, as a `BlockHash`.
    pub fn of_data(data: &[u8]) -> (r: BlockHash)
        ensures
            r@ == sha256_of(data@),
    {
        let bytes = sha256(data);
        BlockHash { bytes }
    }

    /// URL-safe unpadded Base64 form; `from_base64` inverts it.
    pub fn to_base64(&self) -> (r: String)
        ensures
            r@ == b64url_of(self@),
            b64url_dec(r@) == Some(self@),
    {
        b64_encode(self.bytes.as_slice())
    }

    /// Parse the Base64 form of a digest; texts that do not decode to
    /// exactly 32 bytes are refused.
    pub fn from_base64(s: &str) -> (r: Option<BlockHash>)
        ensures
            match r {
                Some(h) => b64url_dec(s@) == Some(h@),
                None => b64url_dec(s@) is None || (b64url_dec(s@) matches Some(v) && v.len()
                    != 32),
            },
    {
        match b64_decode(s) {
            Some(v) => if v.len() == 32 {
                Some(BlockHash { bytes: v })
            } else {
                None
            },
            None => None,
        }
    }
}

impl Codec for BlockHash {
    open spec fn encv(v: Seq<u8>) -> Seq<u8> {
        v
    }

    open spec fn encv_wf(v: Seq<u8>) -> bool {
        v.len() == 32
    }

    open spec fn decv_at(b: Seq<u8>, i: int) -> Option<(Seq<u8>, int)> {
        if 0 <= i && i + 32 <= b.len() {
            Some((b.subrange(i, i + 32), i + 32))
        } else {
            None
        }
    }

    proof fn lemma_round_trip(v: Seq<u8>, b: Seq<u8>, i: int) {
    }

    fn encode_to(&self, out: &mut Vec<u8>) {
        proof {
            use_type_invariant(self);
        }
        out.extend_from_slice(self.bytes.as_slice());
        assert(out@ =~= old(out)@ + self.deep_view());
    }

    fn decode_at(b: &[u8], i: usize) -> (r: Option<(BlockHash, usize)>) {
        if b.len() >= 32 && i <= b.len() - 32 {
            let bytes = vstd::slice::slice_to_vec(vstd::slice::slice_subrange(b, i, i + 32));
            Some((BlockHash { bytes }, i + 32))
        } else {
            None
        }
    }
}

} // verus!
