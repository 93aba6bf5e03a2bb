//! The on-disk envelope for secrets: one human-readable file per key
//! pair or verifier, with every key in URL-safe unpadded Base64. The
//! caller reads and writes the files; this module turns values into
//! file bytes and back.

use vstd::prelude::*;
use vstd::string::StringSliceAdditionalSpecFns;
use crate::block::{BlockHash, b64_encode, b64_decode, b64_readable, b64url_of, b64url_dec};
use crate::codec::{string_from_utf8, lemma_concat_split};
use crate::signed::{KeyPair, PublicKey, SecretKey, AllowedKeys, allowed_contents};
use crate::verify::Verifier;

verus! {

/// Append the text's bytes.
fn push_lit(out: &mut Vec<u8>, s: &str)
    ensures
        final(out)@ == old(out)@ + s.spec_bytes(),
{
    out.extend_from_slice(s.as_bytes());
    assert(out@ =~= old(out)@ + s.spec_bytes());
}

/// The file rendering of a byte string: its Base64 text between two
/// quote bytes.
pub open spec fn quoted_b64(data: Seq<u8>) -> Seq<u8> {
    seq![34u8] + vstd::utf8::encode_utf8(b64url_of(data)) + seq![34u8]
}

/// Append a quoted Base64 rendering of the bytes.
fn push_b64(out: &mut Vec<u8>, data: &[u8])
    ensures
        final(out)@ == old(out)@ + quoted_b64(data@),
        b64_readable(data@),
{
    out.push(34u8);
    let b64 = b64_encode(data);
    out.extend_from_slice(b64.as_str().as_bytes());
    out.push(34u8);
    assert(out@ =~= old(out)@ + quoted_b64(data@));
}

/// The exact bytes of a signing-pair file: a small object with the two
/// keys in Base64.
pub open spec fn keypair_file_enc(pk: Seq<u8>, sk: Seq<u8>) -> Seq<u8> {
    vstd::utf8::encode_utf8("{\"public\":"@) + quoted_b64(pk) + vstd::utf8::encode_utf8(
        ",\"secret\":"@,
    ) + quoted_b64(sk) + vstd::utf8::encode_utf8("}"@)
}

/// The file bytes for a signing pair; `parse_keypair` reads them back,
/// which the readability facts carried here make provable for a caller.
pub fn emit_keypair(kp: &KeyPair) -> (r: Vec<u8>)
    ensures
        r@ == keypair_file_enc(kp.public@, kp.secret@),
        b64_readable(kp.public@),
        b64_readable(kp.secret@),
{
    let mut out: Vec<u8> = Vec::new();
    push_lit(&mut out, "{\"public\":");
    push_b64(&mut out, kp.public.as_bytes());
    push_lit(&mut out, ",\"secret\":");
    push_b64(&mut out, kp.secret.as_bytes());
    push_lit(&mut out, "}");
    assert(out@ =~= keypair_file_enc(kp.public@, kp.secret@));
    out
}

/// The Base64 renderings of a key list, comma-separated.
pub open spec fn joined_keys(keys: Seq<Seq<u8>>) -> Seq<u8>
    decreases keys.len(),
{
    if keys.len() == 0 {
        Seq::empty()
    } else if keys.len() == 1 {
        quoted_b64(keys[0])
    } else {
        joined_keys(keys.drop_last()) + seq![44u8] + quoted_b64(keys.last())
    }
}

/// The bytes of the tip field: the hash quoted, or the word null.
pub open spec fn tip_bytes(tip: Option<Seq<u8>>) -> Seq<u8> {
    match tip {
        Some(h) => quoted_b64(h),
        None => seq![110u8, 117u8, 108u8, 108u8],
    }
}

/// The exact bytes of a verifier file: its pair, the allow-list in the
/// given order, and its tip or `null`.
pub open spec fn verifier_file_enc(
    pk: Seq<u8>,
    sk: Seq<u8>,
    keys: Seq<Seq<u8>>,
    tip: Option<Seq<u8>>,
) -> Seq<u8> {
    vstd::utf8::encode_utf8("{\"public\":"@) + quoted_b64(pk) + vstd::utf8::encode_utf8(
        ",\"secret\":"@,
    ) + quoted_b64(sk) + vstd::utf8::encode_utf8(",\"allowed\":["@) + joined_keys(keys)
        + seq![93u8] + vstd::utf8::encode_utf8(",\"latest\":"@) + tip_bytes(tip)
        + vstd::utf8::encode_utf8("}"@)
}

/// The readability side conditions under which a verifier file reads
/// back: every Base64 segment decodes to its bytes and is quote-free,
/// and the keys have their fixed widths. `emit_verifier` establishes
/// them for everything it writes.
pub open spec fn verifier_file_readable(
    pk: Seq<u8>,
    sk: Seq<u8>,
    keys: Seq<Seq<u8>>,
    tip: Option<Seq<u8>>,
) -> bool {
    &&& pk.len() == 32
    &&& sk.len() == 64
    &&& b64_readable(pk)
    &&& b64_readable(sk)
    &&& forall|i: int| 0 <= i < keys.len() ==> (#[trigger] keys[i]).len() == 32 && b64_readable(
        keys[i],
    )
    &&& tip matches Some(h) ==> h.len() == 32 && b64_readable(h)
}

/// Whether `bytes` is a file rendering of the verifier: the exact
/// encoding, readable back, for some ordering of exactly its allowed
/// keys.
pub open spec fn verifier_file_image(bytes: Seq<u8>, v: Verifier) -> bool {
    exists|keys: Seq<Seq<u8>>|
        {
            &&& bytes == #[trigger] verifier_file_enc(
                v.keypair.public@,
                v.keypair.secret@,
                keys,
                v.tip(),
            )
            &&& verifier_file_readable(v.keypair.public@, v.keypair.secret@, keys, v.tip())
            &&& forall|i: int| 0 <= i < keys.len() ==> allowed_contents(v.allowed).contains(
                #[trigger] keys[i],
            )
            &&& forall|k: Seq<u8>| allowed_contents(v.allowed).contains(k) ==> keys.contains(k)
        }
}

/// The file bytes for a verifier; `parse_verifier` reads them back. The
/// allow-list appears in the set's own iteration order, so the ensured
/// ordering is only that the listed keys are exactly the allowed ones.
pub fn emit_verifier(v: &Verifier) -> (r: Vec<u8>)
    ensures
        verifier_file_image(r@, *v),
{
    let mut out: Vec<u8> = Vec::new();
    push_lit(&mut out, "{\"public\":");
    push_b64(&mut out, v.keypair.public.as_bytes());
    push_lit(&mut out, ",\"secret\":");
    push_b64(&mut out, v.keypair.secret.as_bytes());
    push_lit(&mut out, ",\"allowed\":[");
    let keys = v.allowed.elements();
    let ghost kv = keys.deep_view();
    let ghost head = out@;
    let n = keys.len();
    let mut i: usize = 0;
    proof {
        assert(kv.take(0) =~= Seq::<Seq<u8>>::empty());
    }
    while i < n
        invariant
            n == keys@.len(),
            kv == keys.deep_view(),
            kv.len() == n,
            0 <= i <= n,
            out@ == head + joined_keys(kv.take(i as int)),
            forall|p: int| #![trigger keys@[p]] 0 <= p < n ==> keys@[p]@.len() == 32,
            forall|p: int| 0 <= p < i ==> b64_readable(#[trigger] kv[p]) && kv[p].len() == 32,
        decreases n - i,
    {
        if i > 0 {
            out.push(44u8);
        }
        push_b64(&mut out, keys[i].as_bytes());
        proof {
            assert(keys@[i as int]@ == kv[i as int]);
            assert(b64_readable(kv[i as int]));
            assert(kv[i as int].len() == 32);
            assert(kv.take(i + 1).drop_last() =~= kv.take(i as int));
            assert(kv.take(i + 1).last() == kv[i as int]);
            assert(out@ =~= head + joined_keys(kv.take(i + 1)));
        }
        i = i + 1;
    }
    proof {
        assert(kv.take(n as int) =~= kv);
    }
    out.push(93u8);
    push_lit(&mut out, ",\"latest\":");
    match &v.latest {
        Some(h) => {
            proof {
                use_type_invariant(h);
            }
            push_b64(&mut out, h.as_bytes());
        },
        None => {
            out.push(110u8);
            out.push(117u8);
            out.push(108u8);
            out.push(108u8);
        },
    }
    push_lit(&mut out, "}");
    proof {
        use_type_invariant(&v.keypair.public);
        use_type_invariant(&v.keypair.secret);
        assert(out@ =~= verifier_file_enc(v.keypair.public@, v.keypair.secret@, kv, v.tip()));
        assert(verifier_file_readable(v.keypair.public@, v.keypair.secret@, kv, v.tip()));
        assert forall|p: int| 0 <= p < kv.len() implies allowed_contents(v.allowed).contains(
            #[trigger] kv[p],
        ) by {
            assert(keys@[p]@ == kv[p]);
        }
        assert forall|k: Seq<u8>| allowed_contents(v.allowed).contains(k) implies kv.contains(
            k,
        ) by {
            let w = choose|j: int| 0 <= j < keys@.len() && keys@[j]@ == k;
            assert(kv[w] == k);
        }
    }
    out
}

/// Whether the bytes at `i` are exactly the text's bytes, and the index
/// after them.
fn expect_lit(b: &[u8], i: usize, s: &str) -> (r: Option<usize>)
    ensures
        match r {
            Some(j) => {
                &&& j == i + s.spec_bytes().len()
                &&& j <= b@.len()
                &&& b@.subrange(i as int, j as int) == s.spec_bytes()
            },
            None => i + s.spec_bytes().len() > b@.len() || b@.subrange(
                i as int,
                i + s.spec_bytes().len(),
            ) != s.spec_bytes(),
        },
{
    let lit = s.as_bytes();
    let m = lit.len();
    let n = b.len();
    if i > n || m > n - i {
        return None;
    }
    let mut k: usize = 0;
    while k < m
        invariant
            lit@ == s.spec_bytes(),
            m == lit@.len(),
            n == b@.len(),
            i + m <= n,
            0 <= k <= m,
            forall|p: int| 0 <= p < k ==> b@[i + p] == lit@[p],
        decreases m - k,
    {
        if *vstd::slice::slice_index_get(b, i + k) != *vstd::slice::slice_index_get(lit, k) {
            proof {
                assert(b@.subrange(i as int, i + m)[k as int] != s.spec_bytes()[k as int]);
            }
            return None;
        }
        k = k + 1;
    }
    proof {
        assert(b@.subrange(i as int, i + m) =~= s.spec_bytes());
    }
    Some(i + m)
}

/// The bytes at `i` hold the quoted rendering of `x`: the buffer is
/// long enough and carries exactly `quoted_b64(x)` there.
pub open spec fn quoted_at(b: Seq<u8>, i: int, x: Seq<u8>) -> bool {
    &&& 0 <= i
    &&& i + quoted_b64(x).len() <= b.len()
    &&& b.subrange(i, i + quoted_b64(x).len()) == quoted_b64(x)
}

/// Read a quoted Base64 segment starting at `i`: the decoded bytes and
/// the index after the closing quote. Wherever the buffer holds the
/// quoted rendering of some readable bytes, it reads exactly them.
fn read_b64_seg(b: &[u8], i: usize) -> (r: Option<(Vec<u8>, usize)>)
    ensures
        match r {
            Some((v, j)) => i <= j <= b@.len(),
            None => true,
        },
        forall|x: Seq<u8>|
            #![trigger quoted_b64(x)]
            (b64_readable(x) && quoted_at(b@, i as int, x)) ==> (r matches Some(p) && p.0@ == x
                && p.1 == i + quoted_b64(x).len()),
{
    let n = b.len();
    if i >= n || *vstd::slice::slice_index_get(b, i) != 34u8 {
        proof {
            assert forall|x: Seq<u8>|
                b64_readable(x) && quoted_at(b@, i as int, x) implies false by {
                assert(b@.subrange(i as int, i + quoted_b64(x).len())[0] == 34u8);
            }
        }
        return None;
    }
    let i2 = i + 1;
    let mut j: usize = i2;
    while j < n
        invariant
            i + 1 == i2,
            i2 <= j <= n,
            n == b@.len(),
            b@[i as int] == 34u8,
            forall|k: int| i2 <= k < j ==> b@[k] != 34u8,
        decreases n - j,
    {
        if *vstd::slice::slice_index_get(b, j) == 34u8 {
            let ghost jg = j as int;
            proof {
                assert forall|x: Seq<u8>|
                    b64_readable(x) && quoted_at(b@, i as int, x) implies jg == i + 1
                    + vstd::utf8::encode_utf8(b64url_of(x)).len() by {
                    let e = vstd::utf8::encode_utf8(b64url_of(x));
                    let q = quoted_b64(x);
                    assert forall|k: int| 0 <= k < e.len() implies b@[i + 1 + k] == e[k] by {
                        assert(b@.subrange(i as int, i + q.len())[1 + k] == q[1 + k]);
                        assert(q[1 + k] == e[k]);
                    }
                    assert(b@[i + 1 + e.len()] == b@.subrange(i as int, i + q.len())[
                        1 + e.len() as int
                    ]);
                    assert(b@[i + 1 + e.len()] == 34u8);
                    if jg < i + 1 + e.len() {
                        assert(b@[jg] == e[jg - (i + 1)]);
                        assert(e[jg - (i + 1)] != 34u8);
                        assert(false);
                    }
                    if jg > i + 1 + e.len() {
                        assert(b@[i + 1 + e.len()] != 34u8);
                        assert(false);
                    }
                }
            }
            let seg = vstd::slice::slice_to_vec(vstd::slice::slice_subrange(b, i2, j));
            proof {
                assert forall|x: Seq<u8>|
                    b64_readable(x) && quoted_at(b@, i as int, x) implies seg@
                    == vstd::utf8::encode_utf8(b64url_of(x)) && vstd::utf8::valid_utf8(seg@) by {
                    let e = vstd::utf8::encode_utf8(b64url_of(x));
                    let q = quoted_b64(x);
                    assert forall|k: int| 0 <= k < e.len() implies b@[i + 1 + k] == e[k] by {
                        assert(b@.subrange(i as int, i + q.len())[1 + k] == q[1 + k]);
                        assert(q[1 + k] == e[k]);
                    }
                    assert(seg@ =~= e);
                    vstd::utf8::encode_utf8_valid_utf8(b64url_of(x));
                }
            }
            let text = match string_from_utf8(seg) {
                Some(t) => t,
                None => {
                    return None;
                },
            };
            let bytes = match b64_decode(text.as_str()) {
                Some(v) => v,
                None => {
                    proof {
                        assert forall|x: Seq<u8>|
                            b64_readable(x) && quoted_at(b@, i as int, x) implies false by {
                            vstd::utf8::encode_utf8_decode_utf8(b64url_of(x));
                            assert(text@ == b64url_of(x));
                        }
                    }
                    return None;
                },
            };
            proof {
                assert(j + 1 <= b@.len());
                assert forall|x: Seq<u8>|
                    b64_readable(x) && quoted_at(b@, i as int, x) implies bytes@ == x && j + 1
                    == i + quoted_b64(x).len() by {
                    vstd::utf8::encode_utf8_decode_utf8(b64url_of(x));
                    assert(text@ == b64url_of(x));
                    assert(b64url_dec(text@) == Some(x));
                }
            }
            return Some((bytes, j + 1));
        }
        j = j + 1;
    }
    proof {
        assert forall|x: Seq<u8>| b64_readable(x) && quoted_at(b@, i as int, x) implies false by {
            let e = vstd::utf8::encode_utf8(b64url_of(x));
            let q = quoted_b64(x);
            assert(b@[i + 1 + e.len()] == b@.subrange(i as int, i + q.len())[1 + e.len() as int]);
            assert(b@[i + 1 + e.len()] == 34u8);
        }
    }
    None
}

/// Decompose a signing-pair file into its five pieces in place.
proof fn lemma_keypair_file_split(b: Seq<u8>, pk: Seq<u8>, sk: Seq<u8>)
    requires
        b == keypair_file_enc(pk, sk),
    ensures
        ({
            let a = vstd::utf8::encode_utf8("{\"public\":"@);
            let m = vstd::utf8::encode_utf8(",\"secret\":"@);
            let c = vstd::utf8::encode_utf8("}"@);
            let p1 = a.len() as int;
            let p2 = p1 + quoted_b64(pk).len();
            let p3 = p2 + m.len();
            let p4 = p3 + quoted_b64(sk).len();
            &&& b.len() == p4 + c.len()
            &&& b.subrange(0, p1) == a
            &&& quoted_at(b, p1, pk)
            &&& b.subrange(p2, p3) == m
            &&& quoted_at(b, p3, sk)
            &&& b.subrange(p4, p4 + c.len()) == c
        }),
{
    let a = vstd::utf8::encode_utf8("{\"public\":"@);
    let m = vstd::utf8::encode_utf8(",\"secret\":"@);
    let c = vstd::utf8::encode_utf8("}"@);
    let qp = quoted_b64(pk);
    let qs = quoted_b64(sk);
    assert(b.subrange(0, b.len() as int) =~= b);
    assert(b =~= a + (qp + (m + (qs + c))));
    lemma_concat_split(b, 0, a, qp + (m + (qs + c)));
    lemma_concat_split(b, a.len() as int, qp, m + (qs + c));
    lemma_concat_split(b, a.len() + qp.len() as int, m, qs + c);
    lemma_concat_split(b, a.len() + qp.len() + m.len() as int, qs, c);
}

/// Parse a signing-pair file; texts of any other shape, and keys of the
/// wrong length, are refused. A file `emit_keypair` produced reads back
/// to exactly its keys: the hypotheses below are what `emit_keypair`
/// ensures of them.
pub fn parse_keypair(b: &[u8]) -> (r: Option<KeyPair>)
    ensures
        forall|pk: Seq<u8>, sk: Seq<u8>|
            #![trigger keypair_file_enc(pk, sk)]
            (b@ == keypair_file_enc(pk, sk) && pk.len() == 32 && sk.len() == 64 && b64_readable(
                pk,
            ) && b64_readable(sk)) ==> (r matches Some(kp) && kp.public@ == pk && kp.secret@
                == sk),
{
    let i = match expect_lit(b, 0, "{\"public\":") {
        Some(j) => j,
        None => {
            proof {
                assert forall|pk: Seq<u8>, sk: Seq<u8>|
                    b@ == keypair_file_enc(pk, sk) && pk.len() == 32 && sk.len() == 64
                        && b64_readable(pk) && b64_readable(sk) implies false by {
                    lemma_keypair_file_split(b@, pk, sk);
                }
            }
            return None;
        },
    };
    let (pk_bytes, i) = match read_b64_seg(b, i) {
        Some(x) => x,
        None => {
            proof {
                assert forall|pk: Seq<u8>, sk: Seq<u8>|
                    b@ == keypair_file_enc(pk, sk) && pk.len() == 32 && sk.len() == 64
                        && b64_readable(pk) && b64_readable(sk) implies false by {
                    lemma_keypair_file_split(b@, pk, sk);
                }
            }
            return None;
        },
    };
    let i = match expect_lit(b, i, ",\"secret\":") {
        Some(j) => j,
        None => {
            proof {
                assert forall|pk: Seq<u8>, sk: Seq<u8>|
                    b@ == keypair_file_enc(pk, sk) && pk.len() == 32 && sk.len() == 64
                        && b64_readable(pk) && b64_readable(sk) implies false by {
                    lemma_keypair_file_split(b@, pk, sk);
                }
            }
            return None;
        },
    };
    let (sk_bytes, i) = match read_b64_seg(b, i) {
        Some(x) => x,
        None => {
            proof {
                assert forall|pk: Seq<u8>, sk: Seq<u8>|
                    b@ == keypair_file_enc(pk, sk) && pk.len() == 32 && sk.len() == 64
                        && b64_readable(pk) && b64_readable(sk) implies false by {
                    lemma_keypair_file_split(b@, pk, sk);
                }
            }
            return None;
        },
    };
    if expect_lit(b, i, "}").is_none() {
        proof {
            assert forall|pk: Seq<u8>, sk: Seq<u8>|
                b@ == keypair_file_enc(pk, sk) && pk.len() == 32 && sk.len() == 64
                    && b64_readable(pk) && b64_readable(sk) implies false by {
                lemma_keypair_file_split(b@, pk, sk);
            }
        }
        return None;
    }
    let public = match PublicKey::from_bytes(pk_bytes) {
        Some(k) => k,
        None => {
            proof {
                assert forall|pk: Seq<u8>, sk: Seq<u8>|
                    b@ == keypair_file_enc(pk, sk) && pk.len() == 32 && sk.len() == 64
                        && b64_readable(pk) && b64_readable(sk) implies false by {
                    lemma_keypair_file_split(b@, pk, sk);
                }
            }
            return None;
        },
    };
    let secret = match SecretKey::from_bytes(sk_bytes) {
        Some(k) => k,
        None => {
            proof {
                assert forall|pk: Seq<u8>, sk: Seq<u8>|
                    b@ == keypair_file_enc(pk, sk) && pk.len() == 32 && sk.len() == 64
                        && b64_readable(pk) && b64_readable(sk) implies false by {
                    lemma_keypair_file_split(b@, pk, sk);
                }
            }
            return None;
        },
    };
    let r = Some(KeyPair { public, secret });
    proof {
        assert forall|pk: Seq<u8>, sk: Seq<u8>|
            b@ == keypair_file_enc(pk, sk) && pk.len() == 32 && sk.len() == 64 && b64_readable(
                pk,
            ) && b64_readable(sk) implies (r matches Some(kp) && kp.public@ == pk && kp.secret@
            == sk) by {
            lemma_keypair_file_split(b@, pk, sk);
        }
    }
    r
}

/// The comma-or-nothing that precedes the key at `t` in a joined list.
pub open spec fn key_sep(t: int) -> Seq<u8> {
    if t == 0 {
        Seq::empty()
    } else {
        seq![44u8]
    }
}

/// One step of the joined list: the next prefix adds the separator and
/// the quoted key.
proof fn lemma_joined_take_step(keys: Seq<Seq<u8>>, t: int)
    requires
        0 <= t < keys.len(),
    ensures
        joined_keys(keys.take(t + 1)) == joined_keys(keys.take(t)) + key_sep(t) + quoted_b64(
            keys[t],
        ),
{
    assert(keys.take(t + 1).drop_last() =~= keys.take(t));
    assert(keys.take(t + 1).last() == keys[t]);
    if t == 0 {
        assert(keys.take(1).len() == 1);
        assert(keys.take(1)[0] == keys[0]);
        assert(joined_keys(keys.take(1)) == quoted_b64(keys[0]));
        assert(joined_keys(keys.take(0)) + key_sep(0) + quoted_b64(keys[0]) =~= quoted_b64(
            keys[0],
        ));
    } else {
        assert(keys.take(t + 1).len() >= 2);
    }
}

/// Every prefix of the joined list sits at the front of the whole.
proof fn lemma_joined_take_prefix(keys: Seq<Seq<u8>>, t: int)
    requires
        0 <= t <= keys.len(),
    ensures
        joined_keys(keys.take(t)).len() <= joined_keys(keys).len(),
        joined_keys(keys).subrange(0, joined_keys(keys.take(t)).len() as int) == joined_keys(
            keys.take(t),
        ),
    decreases keys.len() - t,
{
    if t == keys.len() {
        assert(keys.take(t) =~= keys);
        assert(joined_keys(keys).subrange(0, joined_keys(keys).len() as int) =~= joined_keys(
            keys,
        ));
    } else {
        lemma_joined_take_prefix(keys, t + 1);
        lemma_joined_take_step(keys, t);
        let jt = joined_keys(keys.take(t));
        let jt1 = joined_keys(keys.take(t + 1));
        let chunk = key_sep(t) + quoted_b64(keys[t]);
        assert(jt1 =~= jt + chunk);
        assert(jt1.subrange(0, jt1.len() as int) =~= jt1);
        lemma_concat_split(jt1, 0, jt, chunk);
        assert forall|k: int| 0 <= k < jt.len() implies joined_keys(keys)[k] == jt[k] by {
            assert(joined_keys(keys).subrange(0, jt1.len() as int)[k] == jt1[k]);
            assert(jt1.subrange(0, jt.len() as int)[k] == jt[k]);
        }
        assert(joined_keys(keys).subrange(0, jt.len() as int) =~= jt);
    }
}

/// The bytes of the joined list between two successive prefixes are the
/// separator and the quoted key.
proof fn lemma_joined_chunk(keys: Seq<Seq<u8>>, t: int)
    requires
        0 <= t < keys.len(),
    ensures
        ({
            let jt = joined_keys(keys.take(t)).len() as int;
            let chunk = key_sep(t) + quoted_b64(keys[t]);
            &&& joined_keys(keys.take(t + 1)).len() == jt + chunk.len()
            &&& jt + chunk.len() <= joined_keys(keys).len()
            &&& joined_keys(keys).subrange(jt, jt + chunk.len()) == chunk
        }),
{
    lemma_joined_take_step(keys, t);
    lemma_joined_take_prefix(keys, t + 1);
    let jt = joined_keys(keys.take(t));
    let chunk = key_sep(t) + quoted_b64(keys[t]);
    assert(joined_keys(keys.take(t + 1)) =~= jt + chunk);
    lemma_concat_split(joined_keys(keys), 0, jt, chunk);
}

/// Where the allow-list's bytes begin inside a verifier file.
pub open spec fn vf_list_start(pk: Seq<u8>, sk: Seq<u8>) -> int {
    (vstd::utf8::encode_utf8("{\"public\":"@).len() + quoted_b64(pk).len()
        + vstd::utf8::encode_utf8(",\"secret\":"@).len() + quoted_b64(sk).len()
        + vstd::utf8::encode_utf8(",\"allowed\":["@).len()) as int
}

/// Decompose a verifier file into its pieces in place.
#[verifier::rlimit(100)]
#[verifier::spinoff_prover]
proof fn lemma_verifier_file_split(
    b: Seq<u8>,
    pk: Seq<u8>,
    sk: Seq<u8>,
    keys: Seq<Seq<u8>>,
    tip: Option<Seq<u8>>,
)
    requires
        b == verifier_file_enc(pk, sk, keys, tip),
    ensures
        ({
            let a = vstd::utf8::encode_utf8("{\"public\":"@);
            let m = vstd::utf8::encode_utf8(",\"secret\":"@);
            let d = vstd::utf8::encode_utf8(",\"allowed\":["@);
            let l = vstd::utf8::encode_utf8(",\"latest\":"@);
            let f = vstd::utf8::encode_utf8("}"@);
            let p1 = a.len() as int;
            let p2 = p1 + quoted_b64(pk).len();
            let p3 = p2 + m.len();
            let p4 = p3 + quoted_b64(sk).len();
            let p5 = p4 + d.len();
            let p6 = p5 + joined_keys(keys).len();
            let p7 = p6 + 1;
            let p8 = p7 + l.len();
            let p9 = p8 + tip_bytes(tip).len();
            &&& b.len() == p9 + f.len()
            &&& vf_list_start(pk, sk) == p5
            &&& b.subrange(0, p1) == a
            &&& quoted_at(b, p1, pk)
            &&& b.subrange(p2, p3) == m
            &&& quoted_at(b, p3, sk)
            &&& b.subrange(p4, p5) == d
            &&& b.subrange(p5, p6) == joined_keys(keys)
            &&& b[p6] == 93u8
            &&& b.subrange(p7, p8) == l
            &&& b.subrange(p8, p9) == tip_bytes(tip)
            &&& b.subrange(p9, p9 + f.len()) == f
        }),
{
    let a = vstd::utf8::encode_utf8("{\"public\":"@);
    let m = vstd::utf8::encode_utf8(",\"secret\":"@);
    let d = vstd::utf8::encode_utf8(",\"allowed\":["@);
    let l = vstd::utf8::encode_utf8(",\"latest\":"@);
    let f = vstd::utf8::encode_utf8("}"@);
    let qp = quoted_b64(pk);
    let qs = quoted_b64(sk);
    let jk = joined_keys(keys);
    let rb = seq![93u8];
    let tb = tip_bytes(tip);
    assert(b.subrange(0, b.len() as int) =~= b);
    assert(b =~= a + (qp + (m + (qs + (d + (jk + (rb + (l + (tb + f)))))))));
    lemma_concat_split(b, 0, a, qp + (m + (qs + (d + (jk + (rb + (l + (tb + f))))))));
    let p1 = a.len() as int;
    lemma_concat_split(b, p1, qp, m + (qs + (d + (jk + (rb + (l + (tb + f)))))));
    let p2 = p1 + qp.len();
    lemma_concat_split(b, p2, m, qs + (d + (jk + (rb + (l + (tb + f))))));
    let p3 = p2 + m.len();
    lemma_concat_split(b, p3, qs, d + (jk + (rb + (l + (tb + f)))));
    let p4 = p3 + qs.len();
    lemma_concat_split(b, p4, d, jk + (rb + (l + (tb + f))));
    let p5 = p4 + d.len();
    lemma_concat_split(b, p5, jk, rb + (l + (tb + f)));
    let p6 = p5 + jk.len();
    lemma_concat_split(b, p6, rb, l + (tb + f));
    assert(b[p6] == b.subrange(p6, p6 + 1)[0]);
    let p7 = p6 + 1;
    lemma_concat_split(b, p7, l, tb + f);
    let p8 = p7 + l.len();
    lemma_concat_split(b, p8, tb, f);
}

/// A prefix one longer holds a key exactly when the shorter prefix holds
/// it or it is the key at that spot.
proof fn lemma_take_push_contains(keys: Seq<Seq<u8>>, t: int, k: Seq<u8>)
    requires
        0 <= t < keys.len(),
    ensures
        keys.take(t + 1).contains(k) <==> (keys.take(t).contains(k) || k == keys[t]),
{
    assert(keys.take(t + 1) =~= keys.take(t).push(keys[t]));
    if keys.take(t + 1).contains(k) {
        let w = choose|w: int| 0 <= w < keys.take(t + 1).len() && #[trigger] keys.take(t + 1)[w]
            == k;
        if w < t {
            assert(keys.take(t)[w] == k);
        }
    }
    if keys.take(t).contains(k) {
        let w = choose|w: int| 0 <= w < keys.take(t).len() && #[trigger] keys.take(t)[w] == k;
        assert(keys.take(t + 1)[w] == k);
    }
    if k == keys[t] {
        assert(keys.take(t + 1)[t as int] == k);
    }
}

/// Where the tip field's label begins: just after the list's closing
/// bracket.
pub open spec fn vf_tail_start(pk: Seq<u8>, sk: Seq<u8>, keys: Seq<Seq<u8>>) -> int {
    vf_list_start(pk, sk) + joined_keys(keys).len() + 1
}

/// The loop hypotheses of the list parser: a matching reading of the
/// file has `t` keys consumed, the position at the next separator, and
/// the set holding exactly the consumed keys.
pub open spec fn vf_list_hyp(
    b: Seq<u8>,
    pk: Seq<u8>,
    sk: Seq<u8>,
    keys: Seq<Seq<u8>>,
    tip: Option<Seq<u8>>,
    t: int,
    i: int,
    first: bool,
    allowed: AllowedKeys,
) -> bool {
    &&& b == verifier_file_enc(pk, sk, keys, tip)
    &&& verifier_file_readable(pk, sk, keys, tip)
    &&& 0 <= t <= keys.len()
    &&& i == vf_list_start(pk, sk) + joined_keys(keys.take(t)).len()
    &&& first == (t == 0)
    &&& forall|k: Seq<u8>| allowed_contents(allowed).contains(k) <==> keys.take(t).contains(k)
}

/// Under a matching reading with `t` keys still short of the end, the
/// bytes at the parser's position are the separator and the quoted key.
proof fn lemma_key_chunk_in_place(
    b: Seq<u8>,
    pk: Seq<u8>,
    sk: Seq<u8>,
    keys: Seq<Seq<u8>>,
    tip: Option<Seq<u8>>,
    t: int,
    i: int,
)
    requires
        b == verifier_file_enc(pk, sk, keys, tip),
        0 <= t < keys.len(),
        i == vf_list_start(pk, sk) + joined_keys(keys.take(t)).len(),
    ensures
        ({
            let chunk = key_sep(t) + quoted_b64(keys[t]);
            &&& i + chunk.len() + 1 <= b.len()
            &&& forall|o: int| 0 <= o < chunk.len() ==> b[i + o] == chunk[o]
            &&& quoted_at(b, i + key_sep(t).len(), keys[t])
            &&& vf_list_start(pk, sk) + joined_keys(keys.take(t + 1)).len() == i + chunk.len()
        }),
{
    lemma_verifier_file_split(b, pk, sk, keys, tip);
    lemma_joined_chunk(keys, t);
    let p5 = vf_list_start(pk, sk);
    let jk = joined_keys(keys);
    let jt = joined_keys(keys.take(t)).len() as int;
    let chunk = key_sep(t) + quoted_b64(keys[t]);
    assert forall|o: int| 0 <= o < chunk.len() implies b[i + o] == chunk[o] by {
        assert(b[p5 + (jt + o)] == b.subrange(p5, p5 + jk.len())[jt + o]);
        assert(jk[jt + o] == jk.subrange(jt, jt + chunk.len())[o]);
    }
    let s = key_sep(t).len() as int;
    assert forall|o: int| 0 <= o < quoted_b64(keys[t]).len() implies b.subrange(
        i + s,
        i + s + quoted_b64(keys[t]).len(),
    )[o] == quoted_b64(keys[t])[o] by {
        assert(b[i + (s + o)] == chunk[s + o]);
        assert(chunk[s + o] == quoted_b64(keys[t])[o]);
    }
    assert(b.subrange(i + s, i + s + quoted_b64(keys[t]).len()) =~= quoted_b64(keys[t]));
}

/// Consume one separator-and-key step of the allow-list.
#[verifier::rlimit(100)]
#[verifier::spinoff_prover]
fn parse_list_key(b: &[u8], i: usize, first: bool, allowed: AllowedKeys) -> (r: Option<
    (AllowedKeys, usize),
>)
    ensures
        match r {
            Some(p) => i < p.1 <= b@.len(),
            None => true,
        },
        forall|pk: Seq<u8>, sk: Seq<u8>, keys: Seq<Seq<u8>>, tip: Option<Seq<u8>>, t: int|
            #![trigger vf_list_hyp(b@, pk, sk, keys, tip, t, i as int, first, allowed)]
            (vf_list_hyp(b@, pk, sk, keys, tip, t, i as int, first, allowed) && t < keys.len())
                ==> (r matches Some(p) && {
                &&& p.1 == vf_list_start(pk, sk) + joined_keys(keys.take(t + 1)).len()
                &&& forall|k: Seq<u8>| allowed_contents(p.0).contains(k) <==> keys.take(
                    t + 1,
                ).contains(k)
            }),
{
    let n = b.len();
    let mut pos = i;
    if !first {
        if pos < n && *vstd::slice::slice_index_get(b, pos) == 44u8 {
            pos = pos + 1;
        } else {
            proof {
                assert forall|
                    pk: Seq<u8>,
                    sk: Seq<u8>,
                    keys: Seq<Seq<u8>>,
                    tip: Option<Seq<u8>>,
                    t: int,
                |
                    vf_list_hyp(b@, pk, sk, keys, tip, t, i as int, first, allowed) && t
                        < keys.len() implies false by {
                    lemma_key_chunk_in_place(b@, pk, sk, keys, tip, t, i as int);
                    assert(b@[i as int] == (key_sep(t) + quoted_b64(keys[t]))[0]);
                }
            }
            return None;
        }
    }
    let (key_bytes, j) = match read_b64_seg(b, pos) {
        Some(x) => x,
        None => {
            proof {
                assert forall|
                    pk: Seq<u8>,
                    sk: Seq<u8>,
                    keys: Seq<Seq<u8>>,
                    tip: Option<Seq<u8>>,
                    t: int,
                |
                    vf_list_hyp(b@, pk, sk, keys, tip, t, i as int, first, allowed) && t
                        < keys.len() implies false by {
                    lemma_key_chunk_in_place(b@, pk, sk, keys, tip, t, i as int);
                }
            }
            return None;
        },
    };
    if j <= i {
        proof {
            assert forall|
                pk: Seq<u8>,
                sk: Seq<u8>,
                keys: Seq<Seq<u8>>,
                tip: Option<Seq<u8>>,
                t: int,
            |
                vf_list_hyp(b@, pk, sk, keys, tip, t, i as int, first, allowed) && t
                    < keys.len() implies false by {
                lemma_key_chunk_in_place(b@, pk, sk, keys, tip, t, i as int);
            }
        }
        return None;
    }
    let key = match PublicKey::from_bytes(key_bytes) {
        Some(k) => k,
        None => {
            proof {
                assert forall|
                    pk: Seq<u8>,
                    sk: Seq<u8>,
                    keys: Seq<Seq<u8>>,
                    tip: Option<Seq<u8>>,
                    t: int,
                |
                    vf_list_hyp(b@, pk, sk, keys, tip, t, i as int, first, allowed) && t
                        < keys.len() implies false by {
                    lemma_key_chunk_in_place(b@, pk, sk, keys, tip, t, i as int);
                }
            }
            return None;
        },
    };
    let out = allowed.insert(&key);
    let r = Some((out, j));
    proof {
        assert forall|pk: Seq<u8>, sk: Seq<u8>, keys: Seq<Seq<u8>>, tip: Option<Seq<u8>>, t: int|
            vf_list_hyp(b@, pk, sk, keys, tip, t, i as int, first, allowed) && t
                < keys.len() implies (r matches Some(p) && {
            &&& p.1 == vf_list_start(pk, sk) + joined_keys(keys.take(t + 1)).len()
            &&& forall|k: Seq<u8>| allowed_contents(p.0).contains(k) <==> keys.take(
                t + 1,
            ).contains(k)
        }) by {
            lemma_key_chunk_in_place(b@, pk, sk, keys, tip, t, i as int);
            assert(key_bytes@ == keys[t]);
            assert forall|k: Seq<u8>|
                allowed_contents(out).contains(k) <==> keys.take(t + 1).contains(k) by {
                lemma_take_push_contains(keys, t, k);
            }
        }
    }
    r
}

/// Parse the tip field and closing brace of a verifier file and build
/// the verifier from the already-parsed pieces. The hypotheses say the
/// pieces came from a matching reading of the file up to this point.
#[verifier::rlimit(100)]
#[verifier::spinoff_prover]
fn parse_verifier_tail(
    b: &[u8],
    i2: usize,
    pk_bytes: Vec<u8>,
    sk_bytes: Vec<u8>,
    allowed: AllowedKeys,
) -> (r: Option<Verifier>)
    ensures
        forall|pk: Seq<u8>, sk: Seq<u8>, keys: Seq<Seq<u8>>, tip: Option<Seq<u8>>|
            #![trigger verifier_file_enc(pk, sk, keys, tip)]
            (b@ == verifier_file_enc(pk, sk, keys, tip) && verifier_file_readable(
                pk,
                sk,
                keys,
                tip,
            ) && pk_bytes@ == pk && sk_bytes@ == sk && i2 == vf_tail_start(pk, sk, keys) && (
            forall|k: Seq<u8>|
                allowed_contents(allowed).contains(k) <==> keys.contains(k))) ==> (r matches Some(
                v,
            ) && {
                &&& v.keypair.public@ == pk
                &&& v.keypair.secret@ == sk
                &&& forall|k: Seq<u8>| allowed_contents(v.allowed).contains(k) <==> keys.contains(
                    k,
                )
                &&& v.tip() == tip
            }),
{
    let n = b.len();
    let i3 = match expect_lit(b, i2, ",\"latest\":") {
        Some(j) => j,
        None => {
            proof {
                assert forall|pk: Seq<u8>, sk: Seq<u8>, keys: Seq<Seq<u8>>, tip: Option<Seq<u8>>|
                    b@ == verifier_file_enc(pk, sk, keys, tip) && verifier_file_readable(
                        pk,
                        sk,
                        keys,
                        tip,
                    ) && pk_bytes@ == pk && sk_bytes@ == sk && i2 == vf_tail_start(
                        pk,
                        sk,
                        keys,
                    ) implies false by {
                    lemma_verifier_file_split(b@, pk, sk, keys, tip);
                }
            }
            return None;
        },
    };
    let latest: Option<BlockHash>;
    let i4: usize;
    if i3 < n && *vstd::slice::slice_index_get(b, i3) == 34u8 {
        let (h_bytes, j) = match read_b64_seg(b, i3) {
            Some(x) => x,
            None => {
                proof {
                    assert forall|
                        pk: Seq<u8>,
                        sk: Seq<u8>,
                        keys: Seq<Seq<u8>>,
                        tip: Option<Seq<u8>>,
                    |
                        b@ == verifier_file_enc(pk, sk, keys, tip) && verifier_file_readable(
                            pk,
                            sk,
                            keys,
                            tip,
                        ) && pk_bytes@ == pk && sk_bytes@ == sk && i2 == vf_tail_start(
                            pk,
                            sk,
                            keys,
                        ) implies false by {
                        lemma_verifier_file_split(b@, pk, sk, keys, tip);
                        match tip {
                            Some(h) => {},
                            None => {
                                assert(b@[i3 as int] == tip_bytes(tip)[0]);
                            },
                        }
                    }
                }
                return None;
            },
        };
        let h = match BlockHash::from_bytes(h_bytes) {
            Some(h) => h,
            None => {
                proof {
                    assert forall|
                        pk: Seq<u8>,
                        sk: Seq<u8>,
                        keys: Seq<Seq<u8>>,
                        tip: Option<Seq<u8>>,
                    |
                        b@ == verifier_file_enc(pk, sk, keys, tip) && verifier_file_readable(
                            pk,
                            sk,
                            keys,
                            tip,
                        ) && pk_bytes@ == pk && sk_bytes@ == sk && i2 == vf_tail_start(
                            pk,
                            sk,
                            keys,
                        ) implies false by {
                        lemma_verifier_file_split(b@, pk, sk, keys, tip);
                        match tip {
                            Some(h2) => {},
                            None => {
                                assert(b@[i3 as int] == tip_bytes(tip)[0]);
                            },
                        }
                    }
                }
                return None;
            },
        };
        latest = Some(h);
        i4 = j;
    } else {
        let null_ok = i3 < n && n - i3 >= 4 && *vstd::slice::slice_index_get(b, i3) == 110u8
            && *vstd::slice::slice_index_get(b, i3 + 1) == 117u8 && *vstd::slice::slice_index_get(
            b,
            i3 + 2,
        ) == 108u8 && *vstd::slice::slice_index_get(b, i3 + 3) == 108u8;
        if !null_ok {
            proof {
                assert forall|pk: Seq<u8>, sk: Seq<u8>, keys: Seq<Seq<u8>>, tip: Option<Seq<u8>>|
                    b@ == verifier_file_enc(pk, sk, keys, tip) && verifier_file_readable(
                        pk,
                        sk,
                        keys,
                        tip,
                    ) && pk_bytes@ == pk && sk_bytes@ == sk && i2 == vf_tail_start(
                        pk,
                        sk,
                        keys,
                    ) implies false by {
                    lemma_verifier_file_split(b@, pk, sk, keys, tip);
                    match tip {
                        Some(h) => {
                            assert(b@[i3 as int] == tip_bytes(tip)[0]);
                        },
                        None => {
                            assert forall|p: int| 0 <= p < 4 implies b@[i3 + p] == tip_bytes(
                                tip,
                            )[p] by {}
                        },
                    }
                }
            }
            return None;
        }
        latest = None;
        i4 = i3 + 4;
    }
    if expect_lit(b, i4, "}").is_none() {
        proof {
            assert forall|pk: Seq<u8>, sk: Seq<u8>, keys: Seq<Seq<u8>>, tip: Option<Seq<u8>>|
                b@ == verifier_file_enc(pk, sk, keys, tip) && verifier_file_readable(
                    pk,
                    sk,
                    keys,
                    tip,
                ) && pk_bytes@ == pk && sk_bytes@ == sk && i2 == vf_tail_start(
                    pk,
                    sk,
                    keys,
                ) implies false by {
                lemma_verifier_file_split(b@, pk, sk, keys, tip);
                match tip {
                    Some(h) => {},
                    None => {
                        assert(b@[i3 as int] == tip_bytes(tip)[0]);
                    },
                }
            }
        }
        return None;
    }
    let public = match PublicKey::from_bytes(pk_bytes) {
        Some(k) => k,
        None => {
            proof {
                assert forall|pk: Seq<u8>, sk: Seq<u8>, keys: Seq<Seq<u8>>, tip: Option<Seq<u8>>|
                    b@ == verifier_file_enc(pk, sk, keys, tip) && verifier_file_readable(
                        pk,
                        sk,
                        keys,
                        tip,
                    ) && pk_bytes@ == pk implies false by {}
            }
            return None;
        },
    };
    let secret = match SecretKey::from_bytes(sk_bytes) {
        Some(k) => k,
        None => {
            proof {
                assert forall|pk: Seq<u8>, sk: Seq<u8>, keys: Seq<Seq<u8>>, tip: Option<Seq<u8>>|
                    b@ == verifier_file_enc(pk, sk, keys, tip) && verifier_file_readable(
                        pk,
                        sk,
                        keys,
                        tip,
                    ) && sk_bytes@ == sk implies false by {}
            }
            return None;
        },
    };
    let r = Some(Verifier { keypair: KeyPair { public, secret }, allowed, latest });
    proof {
        assert forall|pk: Seq<u8>, sk: Seq<u8>, keys: Seq<Seq<u8>>, tip: Option<Seq<u8>>|
            b@ == verifier_file_enc(pk, sk, keys, tip) && verifier_file_readable(
                pk,
                sk,
                keys,
                tip,
            ) && pk_bytes@ == pk && sk_bytes@ == sk && i2 == vf_tail_start(pk, sk, keys) && (
        forall|k: Seq<u8>|
            allowed_contents(allowed).contains(k) <==> keys.contains(k)) implies (r matches Some(
            v,
        ) && {
            &&& v.keypair.public@ == pk
            &&& v.keypair.secret@ == sk
            &&& forall|k: Seq<u8>| allowed_contents(v.allowed).contains(k) <==> keys.contains(k)
            &&& v.tip() == tip
        }) by {
            lemma_verifier_file_split(b@, pk, sk, keys, tip);
            match tip {
                Some(h) => {},
                None => {
                    assert(b@[i3 as int] == tip_bytes(tip)[0]);
                },
            }
        }
    }
    r
}

/// Parse a verifier file; texts of any other shape are refused. A file
/// `emit_verifier` produced reads back to its pair, its tip and exactly
/// its allowed keys: the hypotheses below are what `emit_verifier`
/// ensures of them.
#[verifier::rlimit(100)]
pub fn parse_verifier(b: &[u8]) -> (r: Option<Verifier>)
    ensures
        forall|pk: Seq<u8>, sk: Seq<u8>, keys: Seq<Seq<u8>>, tip: Option<Seq<u8>>|
            #![trigger verifier_file_enc(pk, sk, keys, tip)]
            (b@ == verifier_file_enc(pk, sk, keys, tip) && verifier_file_readable(
                pk,
                sk,
                keys,
                tip,
            )) ==> (r matches Some(v) && {
                &&& v.keypair.public@ == pk
                &&& v.keypair.secret@ == sk
                &&& forall|k: Seq<u8>| allowed_contents(v.allowed).contains(k) <==> keys.contains(
                    k,
                )
                &&& v.tip() == tip
            }),
{
    let i = match expect_lit(b, 0, "{\"public\":") {
        Some(j) => j,
        None => {
            proof {
                assert forall|pk: Seq<u8>, sk: Seq<u8>, keys: Seq<Seq<u8>>, tip: Option<Seq<u8>>|
                    b@ == verifier_file_enc(pk, sk, keys, tip) && verifier_file_readable(
                        pk,
                        sk,
                        keys,
                        tip,
                    ) implies false by {
                    lemma_verifier_file_split(b@, pk, sk, keys, tip);
                }
            }
            return None;
        },
    };
    let (pk_bytes, i) = match read_b64_seg(b, i) {
        Some(x) => x,
        None => {
            proof {
                assert forall|pk: Seq<u8>, sk: Seq<u8>, keys: Seq<Seq<u8>>, tip: Option<Seq<u8>>|
                    b@ == verifier_file_enc(pk, sk, keys, tip) && verifier_file_readable(
                        pk,
                        sk,
                        keys,
                        tip,
                    ) implies false by {
                    lemma_verifier_file_split(b@, pk, sk, keys, tip);
                }
            }
            return None;
        },
    };
    let i = match expect_lit(b, i, ",\"secret\":") {
        Some(j) => j,
        None => {
            proof {
                assert forall|pk: Seq<u8>, sk: Seq<u8>, keys: Seq<Seq<u8>>, tip: Option<Seq<u8>>|
                    b@ == verifier_file_enc(pk, sk, keys, tip) && verifier_file_readable(
                        pk,
                        sk,
                        keys,
                        tip,
                    ) implies false by {
                    lemma_verifier_file_split(b@, pk, sk, keys, tip);
                }
            }
            return None;
        },
    };
    let (sk_bytes, i) = match read_b64_seg(b, i) {
        Some(x) => x,
        None => {
            proof {
                assert forall|pk: Seq<u8>, sk: Seq<u8>, keys: Seq<Seq<u8>>, tip: Option<Seq<u8>>|
                    b@ == verifier_file_enc(pk, sk, keys, tip) && verifier_file_readable(
                        pk,
                        sk,
                        keys,
                        tip,
                    ) implies false by {
                    lemma_verifier_file_split(b@, pk, sk, keys, tip);
                }
            }
            return None;
        },
    };
    let mut i = match expect_lit(b, i, ",\"allowed\":[") {
        Some(j) => j,
        None => {
            proof {
                assert forall|pk: Seq<u8>, sk: Seq<u8>, keys: Seq<Seq<u8>>, tip: Option<Seq<u8>>|
                    b@ == verifier_file_enc(pk, sk, keys, tip) && verifier_file_readable(
                        pk,
                        sk,
                        keys,
                        tip,
                    ) implies false by {
                    lemma_verifier_file_split(b@, pk, sk, keys, tip);
                }
            }
            return None;
        },
    };
    let mut allowed = AllowedKeys::empty();
    let mut first = true;
    proof {
        assert forall|pk: Seq<u8>, sk: Seq<u8>, keys: Seq<Seq<u8>>, tip: Option<Seq<u8>>|
            b@ == verifier_file_enc(pk, sk, keys, tip) && verifier_file_readable(
                pk,
                sk,
                keys,
                tip,
            ) implies pk_bytes@ == pk && sk_bytes@ == sk && vf_list_hyp(
            b@,
            pk,
            sk,
            keys,
            tip,
            0,
            i as int,
            first,
            allowed,
        ) by {
            lemma_verifier_file_split(b@, pk, sk, keys, tip);
            assert(keys.take(0) =~= Seq::<Seq<u8>>::empty());
            assert forall|k: Seq<u8>|
                allowed_contents(allowed).contains(k) <==> keys.take(0).contains(k) by {
                assert(!keys.take(0).contains(k));
            }
        }
    }
    loop
        invariant
            i <= b@.len(),
            forall|pk: Seq<u8>, sk: Seq<u8>, keys: Seq<Seq<u8>>, tip: Option<Seq<u8>>|
                #![trigger verifier_file_enc(pk, sk, keys, tip)]
                (b@ == verifier_file_enc(pk, sk, keys, tip) && verifier_file_readable(
                    pk,
                    sk,
                    keys,
                    tip,
                )) ==> (pk_bytes@ == pk && sk_bytes@ == sk && exists|t: int|
                    vf_list_hyp(b@, pk, sk, keys, tip, t, i as int, first, allowed)),
        decreases b@.len() - i,
    {
        let n = b.len();
        if i < n && *vstd::slice::slice_index_get(b, i) == 93u8 {
            proof {
                assert forall|pk: Seq<u8>, sk: Seq<u8>, keys: Seq<Seq<u8>>, tip: Option<Seq<u8>>|
                    b@ == verifier_file_enc(pk, sk, keys, tip) && verifier_file_readable(
                        pk,
                        sk,
                        keys,
                        tip,
                    ) implies (i + 1 == vf_tail_start(pk, sk, keys) && (forall|k: Seq<u8>|
                    allowed_contents(allowed).contains(k) <==> keys.contains(k))) by {
                    let t = choose|t: int|
                        vf_list_hyp(b@, pk, sk, keys, tip, t, i as int, first, allowed);
                    if t < keys.len() {
                        lemma_key_chunk_in_place(b@, pk, sk, keys, tip, t, i as int);
                        assert(b@[i as int] == (key_sep(t) + quoted_b64(keys[t]))[0]);
                        assert(false);
                    }
                    assert(keys.take(t) =~= keys);
                }
            }
            let r = parse_verifier_tail(b, i + 1, pk_bytes, sk_bytes, allowed);
            proof {
                assert forall|pk: Seq<u8>, sk: Seq<u8>, keys: Seq<Seq<u8>>, tip: Option<Seq<u8>>|
                    b@ == verifier_file_enc(pk, sk, keys, tip) && verifier_file_readable(
                        pk,
                        sk,
                        keys,
                        tip,
                    ) implies (r matches Some(v) && {
                    &&& v.keypair.public@ == pk
                    &&& v.keypair.secret@ == sk
                    &&& forall|k: Seq<u8>| allowed_contents(v.allowed).contains(k)
                        <==> keys.contains(k)
                    &&& v.tip() == tip
                }) by {}
            }
            return r;
        }
        let step = parse_list_key(b, i, first, allowed);
        match step {
            Some(p) => {
                proof {
                    assert forall|
                        pk: Seq<u8>,
                        sk: Seq<u8>,
                        keys: Seq<Seq<u8>>,
                        tip: Option<Seq<u8>>,
                    |
                        b@ == verifier_file_enc(pk, sk, keys, tip) && verifier_file_readable(
                            pk,
                            sk,
                            keys,
                            tip,
                        ) implies exists|t2: int|
                        vf_list_hyp(b@, pk, sk, keys, tip, t2, p.1 as int, false, p.0) by {
                        let t = choose|t: int|
                            vf_list_hyp(b@, pk, sk, keys, tip, t, i as int, first, allowed);
                        if t == keys.len() {
                            lemma_verifier_file_split(b@, pk, sk, keys, tip);
                            assert(keys.take(t) =~= keys);
                            assert(b@[i as int] == 93u8);
                            assert(false);
                        }
                        assert(vf_list_hyp(b@, pk, sk, keys, tip, t + 1, p.1 as int, false, p.0));
                    }
                }
                allowed = p.0;
                i = p.1;
                first = false;
            },
            None => {
                proof {
                    assert forall|
                        pk: Seq<u8>,
                        sk: Seq<u8>,
                        keys: Seq<Seq<u8>>,
                        tip: Option<Seq<u8>>,
                    |
                        b@ == verifier_file_enc(pk, sk, keys, tip) && verifier_file_readable(
                            pk,
                            sk,
                            keys,
                            tip,
                        ) implies false by {
                        let t = choose|t: int|
                            vf_list_hyp(b@, pk, sk, keys, tip, t, i as int, first, allowed);
                        if t == keys.len() {
                            lemma_verifier_file_split(b@, pk, sk, keys, tip);
                            assert(keys.take(t) =~= keys);
                            assert(b@[i as int] == 93u8);
                            assert(false);
                        }
                    }
                }
                return None;
            },
        }
    }
}

} // verus!
