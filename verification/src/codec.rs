//! Canonical binary serialization.
//!
//! Every value that is signed, hashed or sent over the wire is encoded by
//! this module. The encoding of a value is a pure spec-level function of
//! the value, so signatures verify byte-for-byte and replaying a history
//! reproduces the same block bytes. Integers are big-endian and fixed
//! width; byte strings and text are length-prefixed; enum variants carry a
//! one-byte tag.

use vstd::prelude::*;
use vstd::string::StringSliceAdditionalSpecFns;

verus! {

// ---------------------------------------------------------------------
// Spec-level encoders.
// ---------------------------------------------------------------------

pub open spec fn enc_u8(x: u8) -> Seq<u8> {
    seq![x]
}

pub open spec fn enc_u32(x: u32) -> Seq<u8> {
    seq![
        ((x >> 24) & 0xff) as u8,
        ((x >> 16) & 0xff) as u8,
        ((x >> 8) & 0xff) as u8,
        (x & 0xff) as u8,
    ]
}

pub open spec fn enc_u64(x: u64) -> Seq<u8> {
    seq![
        ((x >> 56) & 0xff) as u8,
        ((x >> 48) & 0xff) as u8,
        ((x >> 40) & 0xff) as u8,
        ((x >> 32) & 0xff) as u8,
        ((x >> 24) & 0xff) as u8,
        ((x >> 16) & 0xff) as u8,
        ((x >> 8) & 0xff) as u8,
        (x & 0xff) as u8,
    ]
}

/// Length-prefixed byte string: eight length bytes, then the bytes.
pub open spec fn enc_bytes(s: Seq<u8>) -> Seq<u8> {
    enc_u64(s.len() as u64) + s
}

// ---------------------------------------------------------------------
// Spec-level decoders. Each takes the whole buffer and a start index and
// yields the decoded value with the index just past it, or `None`.
// ---------------------------------------------------------------------

pub open spec fn dec_u8_at(b: Seq<u8>, i: int) -> Option<(u8, int)> {
    if 0 <= i && i + 1 <= b.len() {
        Some((b[i], i + 1))
    } else {
        None
    }
}

pub open spec fn dec_u32_at(b: Seq<u8>, i: int) -> Option<(u32, int)> {
    if 0 <= i && i + 4 <= b.len() {
        Some(
            (
                ((b[i] as u32) << 24) | ((b[i + 1] as u32) << 16) | ((b[i + 2] as u32) << 8) | (b[
                    i + 3
                ] as u32),
                i + 4,
            ),
        )
    } else {
        None
    }
}

pub open spec fn dec_u64_at(b: Seq<u8>, i: int) -> Option<(u64, int)> {
    if 0 <= i && i + 8 <= b.len() {
        Some(
            (
                ((b[i] as u64) << 56) | ((b[i + 1] as u64) << 48) | ((b[i + 2] as u64) << 40) | ((
                b[i + 3] as u64) << 32) | ((b[i + 4] as u64) << 24) | ((b[i + 5] as u64) << 16) | ((
                b[i + 6] as u64) << 8) | (b[i + 7] as u64),
                i + 8,
            ),
        )
    } else {
        None
    }
}

pub open spec fn dec_bytes_at(b: Seq<u8>, i: int) -> Option<(Seq<u8>, int)> {
    match dec_u64_at(b, i) {
        Some((n, j)) => if j + n <= b.len() {
            Some((b.subrange(j, j + n), j + n))
        } else {
            None
        },
        None => None,
    }
}

// ---------------------------------------------------------------------
// Round-trip lemmas: decoding an encoding embedded in a larger buffer
// yields the encoded value and stops right after it.
// ---------------------------------------------------------------------

pub proof fn lemma_u8_round_trip(x: u8, b: Seq<u8>, i: int)
    requires
        0 <= i,
        i + 1 <= b.len(),
        b.subrange(i, i + 1) == enc_u8(x),
    ensures
        dec_u8_at(b, i) == Some((x, i + 1)),
{
    assert(b[i] == b.subrange(i, i + 1)[0]);
}

pub proof fn lemma_u32_round_trip(x: u32, b: Seq<u8>, i: int)
    requires
        0 <= i,
        i + 4 <= b.len(),
        b.subrange(i, i + 4) == enc_u32(x),
    ensures
        dec_u32_at(b, i) == Some((x, i + 4)),
{
    let e = enc_u32(x);
    assert(b[i] == b.subrange(i, i + 4)[0]);
    assert(b[i + 1] == b.subrange(i, i + 4)[1]);
    assert(b[i + 2] == b.subrange(i, i + 4)[2]);
    assert(b[i + 3] == b.subrange(i, i + 4)[3]);
    assert(((((x >> 24) & 0xff) as u8 as u32) << 24) | ((((x >> 16) & 0xff) as u8 as u32) << 16) | (
    (((x >> 8) & 0xff) as u8 as u32) << 8) | (((x & 0xff) as u8) as u32) == x) by (bit_vector);
}

pub proof fn lemma_u64_round_trip(x: u64, b: Seq<u8>, i: int)
    requires
        0 <= i,
        i + 8 <= b.len(),
        b.subrange(i, i + 8) == enc_u64(x),
    ensures
        dec_u64_at(b, i) == Some((x, i + 8)),
{
    let e = enc_u64(x);
    assert forall|k: int| 0 <= k < 8 implies b[i + k] == e[k] by {
        assert(b[i + k] == b.subrange(i, i + 8)[k]);
    }
    assert(b[i] == e[0]);
    assert(b[i + 1] == e[1]);
    assert(b[i + 2] == e[2]);
    assert(b[i + 3] == e[3]);
    assert(b[i + 4] == e[4]);
    assert(b[i + 5] == e[5]);
    assert(b[i + 6] == e[6]);
    assert(b[i + 7] == e[7]);
    assert(((((x >> 56) & 0xff) as u8 as u64) << 56) | ((((x >> 48) & 0xff) as u8 as u64) << 48) | (
    (((x >> 40) & 0xff) as u8 as u64) << 40) | ((((x >> 32) & 0xff) as u8 as u64) << 32) | ((((x
        >> 24) & 0xff) as u8 as u64) << 24) | ((((x >> 16) & 0xff) as u8 as u64) << 16) | ((((x
        >> 8) & 0xff) as u8 as u64) << 8) | (((x & 0xff) as u8) as u64) == x) by (bit_vector);
}

/// A buffer whose slice at `i` is `e1 + e2` has `e1` as its slice at `i`
/// and `e2` right after; the workhorse for decoding concatenations.
pub proof fn lemma_concat_split(b: Seq<u8>, i: int, e1: Seq<u8>, e2: Seq<u8>)
    requires
        0 <= i,
        i + e1.len() + e2.len() <= b.len(),
        b.subrange(i, i + e1.len() + e2.len()) == e1 + e2,
    ensures
        b.subrange(i, i + e1.len()) == e1,
        b.subrange(i + e1.len(), i + e1.len() + e2.len()) == e2,
{
    let whole = b.subrange(i, i + e1.len() + e2.len());
    assert forall|k: int| 0 <= k < e1.len() implies b.subrange(i, i + e1.len())[k] == e1[k] by {
        assert(whole[k] == (e1 + e2)[k]);
    }
    assert(b.subrange(i, i + e1.len()) =~= e1);
    assert forall|k: int| 0 <= k < e2.len() implies b.subrange(
        i + e1.len(),
        i + e1.len() + e2.len(),
    )[k] == e2[k] by {
        assert(whole[e1.len() + k] == (e1 + e2)[e1.len() + k]);
    }
    assert(b.subrange(i + e1.len(), i + e1.len() + e2.len()) =~= e2);
}

pub proof fn lemma_bytes_round_trip(s: Seq<u8>, b: Seq<u8>, i: int)
    requires
        0 <= i,
        s.len() <= u64::MAX,
        i + enc_bytes(s).len() <= b.len(),
        b.subrange(i, i + enc_bytes(s).len()) == enc_bytes(s),
    ensures
        dec_bytes_at(b, i) == Some((s, i + enc_bytes(s).len())),
{
    let n = s.len() as u64;
    lemma_concat_split(b, i, enc_u64(n), s);
    lemma_u64_round_trip(n, b, i);
    assert(b.subrange(i + 8, i + 8 + n) =~= s);
}

// ---------------------------------------------------------------------
// Exec-level writers and readers.
// ---------------------------------------------------------------------

pub fn write_u8(out: &mut Vec<u8>, x: u8)
    ensures
        final(out)@ == old(out)@ + enc_u8(x),
{
    out.push(x);
    assert(out@ =~= old(out)@ + enc_u8(x));
}

pub fn write_u32(out: &mut Vec<u8>, x: u32)
    ensures
        final(out)@ == old(out)@ + enc_u32(x),
{
    out.push(((x >> 24) & 0xff) as u8);
    out.push(((x >> 16) & 0xff) as u8);
    out.push(((x >> 8) & 0xff) as u8);
    out.push((x & 0xff) as u8);
    assert(out@ =~= old(out)@ + enc_u32(x));
}

pub fn write_u64(out: &mut Vec<u8>, x: u64)
    ensures
        final(out)@ == old(out)@ + enc_u64(x),
{
    out.push(((x >> 56) & 0xff) as u8);
    out.push(((x >> 48) & 0xff) as u8);
    out.push(((x >> 40) & 0xff) as u8);
    out.push(((x >> 32) & 0xff) as u8);
    out.push(((x >> 24) & 0xff) as u8);
    out.push(((x >> 16) & 0xff) as u8);
    out.push(((x >> 8) & 0xff) as u8);
    out.push((x & 0xff) as u8);
    assert(out@ =~= old(out)@ + enc_u64(x));
}

pub fn write_bytes(out: &mut Vec<u8>, s: &[u8])
    requires
        s@.len() <= u64::MAX,
    ensures
        final(out)@ == old(out)@ + enc_bytes(s@),
{
    write_u64(out, s.len() as u64);
    out.extend_from_slice(s);
    assert(out@ =~= old(out)@ + enc_bytes(s@));
}

pub fn read_u8(b: &[u8], i: usize) -> (r: Option<(u8, usize)>)
    ensures
        match r {
            Some((x, j)) => dec_u8_at(b@, i as int) == Some((x, j as int)) && j <= b@.len(),
            None => dec_u8_at(b@, i as int) is None,
        },
{
    if i < b.len() {
        Some((*vstd::slice::slice_index_get(b, i), i + 1))
    } else {
        None
    }
}

pub fn read_u32(b: &[u8], i: usize) -> (r: Option<(u32, usize)>)
    ensures
        match r {
            Some((x, j)) => dec_u32_at(b@, i as int) == Some((x, j as int)) && j <= b@.len(),
            None => dec_u32_at(b@, i as int) is None,
        },
{
    if b.len() >= 4 && i <= b.len() - 4 {
        let b0 = *vstd::slice::slice_index_get(b, i) as u32;
        let b1 = *vstd::slice::slice_index_get(b, i + 1) as u32;
        let b2 = *vstd::slice::slice_index_get(b, i + 2) as u32;
        let b3 = *vstd::slice::slice_index_get(b, i + 3) as u32;
        Some(((b0 << 24) | (b1 << 16) | (b2 << 8) | b3, i + 4))
    } else {
        None
    }
}

pub fn read_u64(b: &[u8], i: usize) -> (r: Option<(u64, usize)>)
    ensures
        match r {
            Some((x, j)) => dec_u64_at(b@, i as int) == Some((x, j as int)) && j <= b@.len(),
            None => dec_u64_at(b@, i as int) is None,
        },
{
    if b.len() >= 8 && i <= b.len() - 8 {
        let b0 = *vstd::slice::slice_index_get(b, i) as u64;
        let b1 = *vstd::slice::slice_index_get(b, i + 1) as u64;
        let b2 = *vstd::slice::slice_index_get(b, i + 2) as u64;
        let b3 = *vstd::slice::slice_index_get(b, i + 3) as u64;
        let b4 = *vstd::slice::slice_index_get(b, i + 4) as u64;
        let b5 = *vstd::slice::slice_index_get(b, i + 5) as u64;
        let b6 = *vstd::slice::slice_index_get(b, i + 6) as u64;
        let b7 = *vstd::slice::slice_index_get(b, i + 7) as u64;
        Some(
            (
                (b0 << 56) | (b1 << 48) | (b2 << 40) | (b3 << 32) | (b4 << 24) | (b5 << 16) | (b6
                    << 8) | b7,
                i + 8,
            ),
        )
    } else {
        None
    }
}

/// Text: the UTF-8 bytes of the characters, length-prefixed.
pub open spec fn enc_str(s: Seq<char>) -> Seq<u8> {
    enc_bytes(vstd::utf8::encode_utf8(s))
}

pub open spec fn dec_str_at(b: Seq<u8>, i: int) -> Option<(Seq<char>, int)> {
    match dec_bytes_at(b, i) {
        Some((bytes, j)) => if vstd::utf8::valid_utf8(bytes) {
            Some((vstd::utf8::decode_utf8(bytes), j))
        } else {
            None
        },
        None => None,
    }
}

pub proof fn lemma_str_round_trip(s: Seq<char>, b: Seq<u8>, i: int)
    requires
        0 <= i,
        vstd::utf8::encode_utf8(s).len() <= u64::MAX,
        i + enc_str(s).len() <= b.len(),
        b.subrange(i, i + enc_str(s).len()) == enc_str(s),
    ensures
        dec_str_at(b, i) == Some((s, i + enc_str(s).len())),
{
    lemma_bytes_round_trip(vstd::utf8::encode_utf8(s), b, i);
    vstd::utf8::encode_utf8_valid_utf8(s);
    vstd::utf8::encode_utf8_decode_utf8(s);
}

pub fn read_bytes(b: &[u8], i: usize) -> (r: Option<(Vec<u8>, usize)>)
    ensures
        match r {
            Some((s, j)) => dec_bytes_at(b@, i as int) == Some((s@, j as int)) && j <= b@.len(),
            None => dec_bytes_at(b@, i as int) is None,
        },
{
    match read_u64(b, i) {
        Some((n, j)) => {
            if n <= (b.len() - j) as u64 {
                let j2 = j + (n as usize);
                let s = vstd::slice::slice_to_vec(vstd::slice::slice_subrange(b, j, j2));
                Some((s, j2))
            } else {
                None
            }
        },
        None => None,
    }
}

/// Relies on `String::from_utf8`: it succeeds exactly on valid UTF-8 and
/// decodes the bytes to the characters they encode.
#[verifier::external_body]
pub(crate) fn string_from_utf8(v: Vec<u8>) -> (r: Option<String>)
    ensures
        match r {
            Some(s) => vstd::utf8::valid_utf8(v@) && s@ == vstd::utf8::decode_utf8(v@),
            None => !vstd::utf8::valid_utf8(v@),
        },
{
    String::from_utf8(v).ok()
}

pub fn write_str(out: &mut Vec<u8>, s: &str)
    ensures
        final(out)@ == old(out)@ + enc_str(s@),
        vstd::utf8::encode_utf8(s@).len() <= u64::MAX,
{
    let bytes: &[u8] = s.as_bytes();
    let n: usize = bytes.len();
    write_bytes(out, bytes);
}

pub fn read_str(b: &[u8], i: usize) -> (r: Option<(String, usize)>)
    ensures
        match r {
            Some((s, j)) => dec_str_at(b@, i as int) == Some((s@, j as int)) && j <= b@.len(),
            None => dec_str_at(b@, i as int) is None,
        },
{
    match read_bytes(b, i) {
        Some((bytes, j)) => match string_from_utf8(bytes) {
            Some(s) => Some((s, j)),
            None => None,
        },
        None => None,
    }
}


// ---------------------------------------------------------------------
// The `Codec` trait ties the levels together for each value type. A
// type's mathematical model is its `DeepView`; the spec encoder and
// decoder work on models, the proof obligation says the decoder inverts
// the encoder, and the exec forms are tied to the spec forms.
// ---------------------------------------------------------------------

pub trait Codec: Sized + DeepView {
    /// The canonical byte encoding, as a function of the model.
    spec fn encv(v: Self::V) -> Seq<u8>;

    /// Side conditions under which the encoding is faithful; they hold of
    /// every value that exists at run time (lengths fit in 64 bits).
    spec fn encv_wf(v: Self::V) -> bool;

    /// Decode one model out of `b` starting at `i`.
    spec fn decv_at(b: Seq<u8>, i: int) -> Option<(Self::V, int)>;

    /// Decoding inverts encoding, wherever the encoding sits in a buffer.
    proof fn lemma_round_trip(v: Self::V, b: Seq<u8>, i: int)
        requires
            Self::encv_wf(v),
            0 <= i,
            i + Self::encv(v).len() <= b.len(),
            b.subrange(i, i + Self::encv(v).len()) == Self::encv(v),
        ensures
            Self::decv_at(b, i) == Some((v, i + Self::encv(v).len())),
    ;

    fn encode_to(&self, out: &mut Vec<u8>)
        ensures
            final(out)@ == old(out)@ + Self::encv(self.deep_view()),
            Self::encv_wf(self.deep_view()),
    ;

    fn decode_at(b: &[u8], i: usize) -> (r: Option<(Self, usize)>)
        ensures
            match r {
                Some((v, j)) => Self::decv_at(b@, i as int) == Some((v.deep_view(), j as int))
                    && j <= b@.len(),
                None => Self::decv_at(b@, i as int) is None,
            },
    ;
}

/// Decode a whole buffer as one value; trailing bytes are a failure.
pub open spec fn dec_exact<T: Codec>(b: Seq<u8>) -> Option<T::V> {
    match T::decv_at(b, 0) {
        Some((v, j)) => if j == b.len() {
            Some(v)
        } else {
            None
        },
        None => None,
    }
}

pub fn encode_value<T: Codec>(t: &T) -> (r: Vec<u8>)
    ensures
        r@ == T::encv(t.deep_view()),
        T::encv_wf(t.deep_view()),
{
    let mut out: Vec<u8> = Vec::new();
    t.encode_to(&mut out);
    out
}

pub fn decode_value<T: Codec>(b: &[u8]) -> (r: Option<T>)
    ensures
        match r {
            Some(t) => dec_exact::<T>(b@) == Some(t.deep_view()),
            None => dec_exact::<T>(b@) is None,
        },
{
    match T::decode_at(b, 0) {
        Some((v, j)) => if j == b.len() {
            Some(v)
        } else {
            None
        },
        None => None,
    }
}

/// Decoding a model's own encoding, exactly, gives the model back.
pub proof fn lemma_dec_exact_round_trip<T: Codec>(v: T::V)
    requires
        T::encv_wf(v),
    ensures
        dec_exact::<T>(T::encv(v)) == Some(v),
{
    let b = T::encv(v);
    assert(b.subrange(0, b.len() as int) =~= b);
    T::lemma_round_trip(v, b, 0);
}

impl Codec for u32 {
    open spec fn encv(v: u32) -> Seq<u8> {
        enc_u32(v)
    }

    open spec fn encv_wf(v: u32) -> bool {
        true
    }

    open spec fn decv_at(b: Seq<u8>, i: int) -> Option<(u32, int)> {
        dec_u32_at(b, i)
    }

    proof fn lemma_round_trip(v: u32, b: Seq<u8>, i: int) {
        lemma_u32_round_trip(v, b, i);
    }

    fn encode_to(&self, out: &mut Vec<u8>) {
        write_u32(out, *self);
    }

    fn decode_at(b: &[u8], i: usize) -> (r: Option<(u32, usize)>) {
        read_u32(b, i)
    }
}

impl Codec for u64 {
    open spec fn encv(v: u64) -> Seq<u8> {
        enc_u64(v)
    }

    open spec fn encv_wf(v: u64) -> bool {
        true
    }

    open spec fn decv_at(b: Seq<u8>, i: int) -> Option<(u64, int)> {
        dec_u64_at(b, i)
    }

    proof fn lemma_round_trip(v: u64, b: Seq<u8>, i: int) {
        lemma_u64_round_trip(v, b, i);
    }

    fn encode_to(&self, out: &mut Vec<u8>) {
        write_u64(out, *self);
    }

    fn decode_at(b: &[u8], i: usize) -> (r: Option<(u64, usize)>) {
        read_u64(b, i)
    }
}

impl Codec for Vec<u8> {
    open spec fn encv(v: Seq<u8>) -> Seq<u8> {
        enc_bytes(v)
    }

    open spec fn encv_wf(v: Seq<u8>) -> bool {
        v.len() <= u64::MAX
    }

    open spec fn decv_at(b: Seq<u8>, i: int) -> Option<(Seq<u8>, int)> {
        dec_bytes_at(b, i)
    }

    proof fn lemma_round_trip(v: Seq<u8>, b: Seq<u8>, i: int) {
        lemma_bytes_round_trip(v, b, i);
    }

    fn encode_to(&self, out: &mut Vec<u8>) {
        let n: usize = self.len();
        write_bytes(out, self.as_slice());
    }

    fn decode_at(b: &[u8], i: usize) -> (r: Option<(Vec<u8>, usize)>) {
        read_bytes(b, i)
    }
}

impl Codec for String {
    open spec fn encv(v: Seq<char>) -> Seq<u8> {
        enc_str(v)
    }

    open spec fn encv_wf(v: Seq<char>) -> bool {
        vstd::utf8::encode_utf8(v).len() <= u64::MAX
    }

    open spec fn decv_at(b: Seq<u8>, i: int) -> Option<(Seq<char>, int)> {
        dec_str_at(b, i)
    }

    proof fn lemma_round_trip(v: Seq<char>, b: Seq<u8>, i: int) {
        lemma_str_round_trip(v, b, i);
    }

    fn encode_to(&self, out: &mut Vec<u8>) {
        write_str(out, self.as_str());
    }

    fn decode_at(b: &[u8], i: usize) -> (r: Option<(String, usize)>) {
        read_str(b, i)
    }
}

impl<T: Codec> Codec for Option<T> {
    open spec fn encv(v: Option<T::V>) -> Seq<u8> {
        match v {
            None => seq![0u8],
            Some(w) => seq![1u8] + T::encv(w),
        }
    }

    open spec fn encv_wf(v: Option<T::V>) -> bool {
        match v {
            None => true,
            Some(w) => T::encv_wf(w),
        }
    }

    open spec fn decv_at(b: Seq<u8>, i: int) -> Option<(Option<T::V>, int)> {
        match dec_u8_at(b, i) {
            Some((tag, j)) => if tag == 0 {
                Some((None, j))
            } else if tag == 1 {
                match T::decv_at(b, j) {
                    Some((w, k)) => Some((Some(w), k)),
                    None => None,
                }
            } else {
                None
            },
            None => None,
        }
    }

    proof fn lemma_round_trip(v: Option<T::V>, b: Seq<u8>, i: int) {
        match v {
            None => {
                lemma_u8_round_trip(0u8, b, i);
            },
            Some(w) => {
                lemma_concat_split(b, i, seq![1u8], T::encv(w));
                lemma_u8_round_trip(1u8, b, i);
                T::lemma_round_trip(w, b, i + 1);
            },
        }
    }

    fn encode_to(&self, out: &mut Vec<u8>) {
        match self {
            None => {
                write_u8(out, 0u8);
            },
            Some(w) => {
                write_u8(out, 1u8);
                w.encode_to(out);
                assert(out@ =~= old(out)@ + Self::encv(self.deep_view()));
            },
        }
    }

    fn decode_at(b: &[u8], i: usize) -> (r: Option<(Option<T>, usize)>) {
        match read_u8(b, i) {
            Some((tag, j)) => if tag == 0 {
                Some((None, j))
            } else if tag == 1 {
                match T::decode_at(b, j) {
                    Some((w, k)) => Some((Some(w), k)),
                    None => None,
                }
            } else {
                None
            },
            None => None,
        }
    }
}


// ---------------------------------------------------------------------
// Comparisons.
// ---------------------------------------------------------------------

/// Byte-for-byte comparison of two byte slices.
pub fn bytes_eq(a: &[u8], b: &[u8]) -> (r: bool)
    ensures
        r == (a@ == b@),
{
    if a.len() != b.len() {
        return false;
    }
    let n = a.len();
    let mut i: usize = 0;
    while i < n
        invariant
            n == a@.len() == b@.len(),
            0 <= i <= n,
            forall|k: int| 0 <= k < i ==> a@[k] == b@[k],
        decreases n - i,
    {
        if *vstd::slice::slice_index_get(a, i) != *vstd::slice::slice_index_get(b, i) {
            return false;
        }
        i = i + 1;
    }
    proof {
        assert(a@ =~= b@);
    }
    true
}

/// Character-for-character comparison of two texts, done on their UTF-8
/// bytes.
pub fn str_eq(a: &str, b: &str) -> (r: bool)
    ensures
        r == (a@ == b@),
{
    let r = bytes_eq(a.as_bytes(), b.as_bytes());
    proof {
        if a.spec_bytes() == b.spec_bytes() {
            vstd::utf8::encode_utf8_decode_utf8(a@);
            vstd::utf8::encode_utf8_decode_utf8(b@);
        }
    }
    r
}

// ---------------------------------------------------------------------
// Lists: an item count, then each item's encoding in order.
// ---------------------------------------------------------------------

pub open spec fn enc_items<T: Codec>(s: Seq<T::V>) -> Seq<u8>
    decreases s.len(),
{
    if s.len() == 0 {
        Seq::empty()
    } else {
        T::encv(s[0]) + enc_items::<T>(s.drop_first())
    }
}

pub open spec fn enc_list<T: Codec>(s: Seq<T::V>) -> Seq<u8> {
    enc_u64(s.len() as u64) + enc_items::<T>(s)
}

pub open spec fn items_wf<T: Codec>(s: Seq<T::V>) -> bool {
    forall|k: int| 0 <= k < s.len() ==> T::encv_wf(#[trigger] s[k])
}

pub open spec fn dec_items_at<T: Codec>(b: Seq<u8>, i: int, n: nat) -> Option<(Seq<T::V>, int)>
    decreases n,
{
    if n == 0 {
        if 0 <= i <= b.len() {
            Some((Seq::empty(), i))
        } else {
            None
        }
    } else {
        match T::decv_at(b, i) {
            Some((v, j)) => match dec_items_at::<T>(b, j, (n - 1) as nat) {
                Some((rest, k)) => Some((seq![v] + rest, k)),
                None => None,
            },
            None => None,
        }
    }
}

pub open spec fn dec_list_at<T: Codec>(b: Seq<u8>, i: int) -> Option<(Seq<T::V>, int)> {
    match dec_u64_at(b, i) {
        Some((n, j)) => dec_items_at::<T>(b, j, n as nat),
        None => None,
    }
}

/// Appending an item to a list appends its encoding.
pub proof fn lemma_enc_items_push<T: Codec>(s: Seq<T::V>, v: T::V)
    ensures
        enc_items::<T>(s.push(v)) == enc_items::<T>(s) + T::encv(v),
    decreases s.len(),
{
    if s.len() == 0 {
        assert(s.push(v)[0] == v);
        assert(s.push(v).drop_first() =~= Seq::<T::V>::empty());
        assert(enc_items::<T>(Seq::<T::V>::empty()) == Seq::<u8>::empty());
        assert(enc_items::<T>(s.push(v)) == T::encv(v) + Seq::<u8>::empty());
        assert(T::encv(v) + Seq::<u8>::empty() =~= T::encv(v));
        assert(enc_items::<T>(s) == Seq::<u8>::empty());
        assert(enc_items::<T>(s) + T::encv(v) =~= T::encv(v));
    } else {
        lemma_enc_items_push::<T>(s.drop_first(), v);
        assert(s.push(v).drop_first() =~= s.drop_first().push(v));
        assert(s.push(v)[0] == s[0]);
        assert(enc_items::<T>(s.push(v)) == T::encv(s[0]) + enc_items::<T>(s.drop_first().push(v)));
        assert(enc_items::<T>(s) == T::encv(s[0]) + enc_items::<T>(s.drop_first()));
        assert(T::encv(s[0]) + (enc_items::<T>(s.drop_first()) + T::encv(v)) =~= (T::encv(s[0])
            + enc_items::<T>(s.drop_first())) + T::encv(v));
    }
}

pub proof fn lemma_items_round_trip<T: Codec>(s: Seq<T::V>, b: Seq<u8>, i: int)
    requires
        items_wf::<T>(s),
        0 <= i,
        i + enc_items::<T>(s).len() <= b.len(),
        b.subrange(i, i + enc_items::<T>(s).len()) == enc_items::<T>(s),
    ensures
        dec_items_at::<T>(b, i, s.len()) == Some((s, i + enc_items::<T>(s).len())),
    decreases s.len(),
{
    if s.len() == 0 {
    } else {
        let e1 = T::encv(s[0]);
        let rest = s.drop_first();
        let e2 = enc_items::<T>(rest);
        lemma_concat_split(b, i, e1, e2);
        T::lemma_round_trip(s[0], b, i);
        assert(items_wf::<T>(rest)) by {
            assert(forall|k: int| 0 <= k < rest.len() ==> rest[k] == s[k + 1]);
        }
        lemma_items_round_trip::<T>(rest, b, i + e1.len());
        assert(seq![s[0]] + rest =~= s);
    }
}

pub proof fn lemma_list_round_trip<T: Codec>(s: Seq<T::V>, b: Seq<u8>, i: int)
    requires
        items_wf::<T>(s),
        s.len() <= u64::MAX,
        0 <= i,
        i + enc_list::<T>(s).len() <= b.len(),
        b.subrange(i, i + enc_list::<T>(s).len()) == enc_list::<T>(s),
    ensures
        dec_list_at::<T>(b, i) == Some((s, i + enc_list::<T>(s).len())),
{
    lemma_concat_split(b, i, enc_u64(s.len() as u64), enc_items::<T>(s));
    lemma_u64_round_trip(s.len() as u64, b, i);
    lemma_items_round_trip::<T>(s, b, i + 8);
}

pub fn write_list<T: Codec>(out: &mut Vec<u8>, items: &Vec<T>)
    ensures
        final(out)@ == old(out)@ + enc_list::<T>(items.deep_view()),
        items_wf::<T>(items.deep_view()),
{
    let ghost dv = items.deep_view();
    let n = items.len();
    write_u64(out, n as u64);
    let mut k: usize = 0;
    while k < n
        invariant
            n == items@.len(),
            dv == items.deep_view(),
            dv.len() == n,
            0 <= k <= n,
            out@ == old(out)@ + enc_u64(n as u64) + enc_items::<T>(dv.take(k as int)),
            forall|p: int| 0 <= p < k ==> T::encv_wf(#[trigger] dv[p]),
        decreases n - k,
    {
        items[k].encode_to(out);
        proof {
            assert(items@[k as int].deep_view() == dv[k as int]);
            lemma_enc_items_push::<T>(dv.take(k as int), dv[k as int]);
            assert(dv.take(k + 1) =~= dv.take(k as int).push(dv[k as int]));
            assert(out@ =~= old(out)@ + enc_u64(n as u64) + enc_items::<T>(dv.take(k + 1)));
        }
        k = k + 1;
    }
    proof {
        assert(dv.take(n as int) =~= dv);
        assert(out@ =~= old(out)@ + enc_list::<T>(dv));
    }
}

pub fn read_list<T: Codec>(b: &[u8], i: usize) -> (r: Option<(Vec<T>, usize)>)
    ensures
        match r {
            Some((v, j)) => dec_list_at::<T>(b@, i as int) == Some((v.deep_view(), j as int))
                && j <= b@.len(),
            None => dec_list_at::<T>(b@, i as int) is None,
        },
{
    match read_u64(b, i) {
        Some((n, j0)) => {
            let mut acc: Vec<T> = Vec::new();
            let mut pos: usize = j0;
            let mut k: u64 = 0;
            proof {
                assert(acc.deep_view() =~= Seq::<T::V>::empty());
                match dec_items_at::<T>(b@, j0 as int, n as nat) {
                    Some((rest, end)) => {
                        assert(acc.deep_view() + rest =~= rest);
                    },
                    None => {},
                }
            }
            loop
                invariant
                    dec_u64_at(b@, i as int) == Some((n, j0 as int)),
                    k <= n,
                    pos <= b@.len(),
                    acc.deep_view().len() == k,
                    dec_items_at::<T>(b@, j0 as int, n as nat) == (match dec_items_at::<T>(
                        b@,
                        pos as int,
                        (n - k) as nat,
                    ) {
                        Some((rest, end)) => Some((acc.deep_view() + rest, end)),
                        None => None::<(Seq<T::V>, int)>,
                    }),
                decreases n - k,
            {
                if k == n {
                    proof {
                        assert(dec_items_at::<T>(b@, pos as int, 0) == Some((
                            Seq::<T::V>::empty(),
                            pos as int,
                        )));
                        assert(acc.deep_view() + Seq::<T::V>::empty() =~= acc.deep_view());
                        assert(dec_items_at::<T>(b@, j0 as int, n as nat) == Some((
                            acc.deep_view(),
                            pos as int,
                        )));
                        assert(dec_list_at::<T>(b@, i as int) == Some((acc.deep_view(), pos as int)));
                    }
                    return Some((acc, pos));
                }
                let ghost acc0 = acc.deep_view();
                match T::decode_at(b, pos) {
                    Some((v, newpos)) => {
                        let ghost vd = v.deep_view();
                        acc.push(v);
                        pos = newpos;
                        k = k + 1;
                        proof {
                            let dv_new = acc.deep_view();
                            assert forall|p: int| 0 <= p < dv_new.len() implies dv_new[p]
                                == acc0.push(vd)[p] by {}
                            assert(dv_new =~= acc0.push(vd));
                            match dec_items_at::<T>(b@, pos as int, (n - k) as nat) {
                                Some((rest2, end)) => {
                                    assert(acc0 + (seq![vd] + rest2) =~= dv_new + rest2);
                                },
                                None => {},
                            }
                        }
                    },
                    None => {
                        proof {
                            assert(dec_items_at::<T>(b@, pos as int, (n - k) as nat) is None);
                            assert(dec_items_at::<T>(b@, j0 as int, n as nat) is None);
                            assert(dec_list_at::<T>(b@, i as int) is None);
                        }
                        return None;
                    },
                }
            }
        },
        None => None,
    }
}

} // verus!
