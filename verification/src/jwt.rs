use vstd::prelude::*;
use vstd::string::{StrSliceExecFns, StringSliceAdditionalSpecFns};
use vstd::utf8::{encode_utf8, is_ascii_chars, is_ascii_chars_encode_utf8};

use crate::b64::{b64u_decode, b64u_encode, b64u_of, lemma_b64u_alphabet, lemma_b64u_injective};
use crate::bytes::{
    ascii_of, ascii_string, find_byte, jtext_wf, lemma_ascii_of_roundtrip, push_all, sub_vec,
};
use crate::claims_json::{cj, format_claims, lemma_cj_injective, parse_claims};
use crate::errors::AuthError;

verus! {

/// The token's decoded payload: subject id, role, and expiry in seconds
/// since the epoch.
#[derive(Debug)]
pub struct Claims {
    pub sub: String,
    pub role: String,
    pub exp: usize,
}

impl Claims {
    /// The subject field as ASCII bytes.
    pub open spec fn sub_bytes(&self) -> Seq<u8> {
        ascii_of(self.sub@)
    }

    /// The role field as ASCII bytes.
    pub open spec fn role_bytes(&self) -> Seq<u8> {
        ascii_of(self.role@)
    }
}

/// The bytes of the fixed token header `{"alg":"HS256","typ":"JWT"}`.
pub open spec fn header_json() -> Seq<u8> {
    seq![
        123u8, 34, 97, 108, 103, 34, 58, 34, 72, 83, 50, 53, 54, 34, 44, 34, 116, 121, 112, 34,
        58, 34, 74, 87, 84, 34, 125,
    ]
}

/// The base64url HMAC-SHA256 tag of a message under a secret, as produced by
/// jsonwebtoken; a function of message and secret alone.
pub uninterp spec fn hmac_sig_of(msg: Seq<u8>, secret: Seq<u8>) -> Seq<u8>;

/// The part of a token that is signed: encoded header, dot, encoded claims.
pub open spec fn signing_input(sub: Seq<u8>, role: Seq<u8>, exp: nat) -> Seq<u8> {
    b64u_of(header_json()) + seq![46u8] + b64u_of(cj(sub, role, exp))
}

/// A whole token: signing input, dot, signature.
pub open spec fn token_of(sub: Seq<u8>, role: Seq<u8>, exp: nat, secret: Seq<u8>) -> Seq<u8> {
    signing_input(sub, role, exp) + seq![46u8] + hmac_sig_of(
        signing_input(sub, role, exp),
        secret,
    )
}

/// Relies on jsonwebtoken's `crypto::sign` with HS256: returns the base64url
/// HMAC-SHA256 tag of the message under the secret, ASCII text; signing with
/// an HMAC algorithm never fails.
#[verifier::external_body]
fn hmac_sign(msg: &Vec<u8>, secret: &str) -> (r: Vec<u8>)
    ensures
        r@ == hmac_sig_of(msg@, secret.spec_bytes()),
        forall|i: int| 0 <= i < r@.len() ==> r@[i] < 128,
{
    let key = jsonwebtoken::EncodingKey::from_secret(secret.as_bytes());
    jsonwebtoken::crypto::sign(msg.as_slice(), &key, jsonwebtoken::Algorithm::HS256)
        .unwrap()
        .into_bytes()
}

/// Relies on jsonwebtoken's `crypto::verify` with HS256: true exactly when
/// the given signature equals the recomputed tag for the message, compared in
/// constant time; a signature that is not ASCII text can never equal the tag.
#[verifier::external_body]
fn hmac_check(sig: &Vec<u8>, msg: &Vec<u8>, secret: &str) -> (r: bool)
    ensures
        r == (sig@ == hmac_sig_of(msg@, secret.spec_bytes())),
{
    let key = jsonwebtoken::DecodingKey::from_secret(secret.as_bytes());
    match core::str::from_utf8(sig.as_slice()) {
        Ok(s) => jsonwebtoken::crypto::verify(
            s,
            msg.as_slice(),
            &key,
            jsonwebtoken::Algorithm::HS256,
        ).unwrap_or(false),
        Err(_) => false,
    }
}

/// Relies on chrono's `Utc::now`: the clock's seconds since the epoch;
/// nothing is assumed of the value.
#[verifier::external_body]
pub(crate) fn now_timestamp() -> (r: i64) {
    chrono::Utc::now().timestamp()
}

fn header_json_vec() -> (r: Vec<u8>)
    ensures
        r@ == header_json(),
{
    let r: Vec<u8> = vec![
        123u8, 34, 97, 108, 103, 34, 58, 34, 72, 83, 50, 53, 54, 34, 44, 34, 116, 121, 112, 34,
        58, 34, 74, 87, 84, 34, 125,
    ];
    proof {
        assert(r@ =~= header_json());
    }
    r
}

/// The regions of a three-part sequence separated by dots.
proof fn lemma_tok_regions(x: Seq<u8>, y: Seq<u8>, z: Seq<u8>)
    ensures
        (x + seq![46u8] + y + seq![46u8] + z).len() == x.len() + y.len() + z.len() + 2,
        (x + seq![46u8] + y + seq![46u8] + z).subrange(0, x.len() as int) == x,
        (x + seq![46u8] + y + seq![46u8] + z)[x.len() as int] == 46,
        (x + seq![46u8] + y + seq![46u8] + z).subrange(
            x.len() as int + 1,
            x.len() + 1 + y.len() as int,
        ) == y,
        (x + seq![46u8] + y + seq![46u8] + z)[x.len() + 1 + y.len() as int] == 46,
        (x + seq![46u8] + y + seq![46u8] + z).subrange(
            x.len() + y.len() as int + 2,
            (x + seq![46u8] + y + seq![46u8] + z).len() as int,
        ) == z,
        (x + seq![46u8] + y + seq![46u8] + z).subrange(0, x.len() + 1 + y.len() as int) == x
            + seq![46u8] + y,
{
    let t = x + seq![46u8] + y + seq![46u8] + z;
    assert(t.subrange(0, x.len() as int) =~= x);
    assert(t.subrange(x.len() as int + 1, x.len() + 1 + y.len() as int) =~= y);
    assert(t.subrange(x.len() + y.len() as int + 2, t.len() as int) =~= z);
    assert(t.subrange(0, x.len() + 1 + y.len() as int) =~= x + seq![46u8] + y);
}

/// The first dot of a dotted three-part sequence sits after the first part.
proof fn lemma_dot_positions(t: Seq<u8>, x: Seq<u8>, y: Seq<u8>, z: Seq<u8>, d1: int, d2: int)
    requires
        t == x + seq![46u8] + y + seq![46u8] + z,
        forall|i: int| 0 <= i < x.len() ==> x[i] != 46,
        forall|i: int| 0 <= i < y.len() ==> y[i] != 46,
        0 <= d1 < t.len(),
        t[d1] == 46,
        forall|j: int| 0 <= j < d1 ==> t[j] != 46,
        d1 < d2 < t.len(),
        t[d2] == 46,
        forall|j: int| d1 < j < d2 ==> t[j] != 46,
    ensures
        d1 == x.len(),
        d2 == x.len() + 1 + y.len(),
{
    lemma_tok_regions(x, y, z);
    if d1 < x.len() {
        assert(t.subrange(0, x.len() as int)[d1] == t[d1]);
        assert(x[d1] != 46);
    }
    if d1 > x.len() {
        assert(t[x.len() as int] != 46);
    }
    assert(d1 == x.len());
    if d2 < x.len() + 1 + y.len() {
        assert(t.subrange(x.len() as int + 1, x.len() + 1 + y.len() as int)[d2 - x.len() - 1] == t[d2]);
        assert(y[d2 - x.len() - 1] != 46);
    }
    if d2 > x.len() + 1 + y.len() {
        assert(t[x.len() + 1 + y.len() as int] != 46);
    }
}

/// A canonically framed token splits at the scanned dot positions.
proof fn lemma_canonical_split(
    t: Seq<u8>,
    s2: Seq<u8>,
    r2: Seq<u8>,
    e2: nat,
    z: Seq<u8>,
    d1: int,
    d2: int,
)
    requires
        t == signing_input(s2, r2, e2) + seq![46u8] + z,
        0 <= d1 < t.len(),
        t[d1] == 46,
        forall|j: int| 0 <= j < d1 ==> t[j] != 46,
        d1 < d2 < t.len(),
        t[d2] == 46,
        forall|j: int| d1 < j < d2 ==> t[j] != 46,
    ensures
        d1 == b64u_of(header_json()).len(),
        d2 == signing_input(s2, r2, e2).len(),
        t.subrange(0, d1) == b64u_of(header_json()),
        t.subrange(d1 + 1, d2) == b64u_of(cj(s2, r2, e2)),
        t.subrange(0, d2) == signing_input(s2, r2, e2),
        t.subrange(d2 + 1, t.len() as int) == z,
{
    let x = b64u_of(header_json());
    let y = b64u_of(cj(s2, r2, e2));
    lemma_b64u_alphabet(header_json());
    lemma_b64u_alphabet(cj(s2, r2, e2));
    assert(t == x + seq![46u8] + y + seq![46u8] + z);
    lemma_dot_positions(t, x, y, z, d1, d2);
    lemma_tok_regions(x, y, z);
}

/// What a token parse returns, for every input.
pub open spec fn parse_post(
    t: Seq<u8>,
    sb: Seq<u8>,
    now: usize,
    r: Result<Claims, AuthError>,
) -> bool {
    &&& match r {
        Ok(c) => jtext_wf(c.sub_bytes()) && jtext_wf(c.role_bytes()) && c.exp > now && t
            == token_of(c.sub_bytes(), c.role_bytes(), c.exp as nat, sb),
        Err(e) => e == AuthError::InvalidSignature || e == AuthError::Expired || e
            == AuthError::Malformed,
    }
    &&& forall|s2: Seq<u8>, r2: Seq<u8>, e2: nat|
        jtext_wf(s2) && jtext_wf(r2) && e2 <= usize::MAX && t == #[trigger] token_of(
            s2,
            r2,
            e2,
            sb,
        ) && e2 > now ==> (r matches Ok(c) && c.sub_bytes() == s2 && c.role_bytes() == r2
            && c.exp == e2)
    &&& forall|s2: Seq<u8>, r2: Seq<u8>, e2: nat|
        jtext_wf(s2) && jtext_wf(r2) && e2 <= usize::MAX && t == #[trigger] token_of(
            s2,
            r2,
            e2,
            sb,
        ) && e2 <= now ==> r == Err::<Claims, AuthError>(AuthError::Expired)
    &&& forall|s2: Seq<u8>, r2: Seq<u8>, e2: nat|
        jtext_wf(s2) && jtext_wf(r2) && e2 <= usize::MAX && t.len() > #[trigger] signing_input(
            s2,
            r2,
            e2,
        ).len() && t.subrange(0, signing_input(s2, r2, e2).len() as int) == signing_input(
            s2,
            r2,
            e2,
        ) && t[signing_input(s2, r2, e2).len() as int] == 46 && t.subrange(
            signing_input(s2, r2, e2).len() as int + 1,
            t.len() as int,
        ) != hmac_sig_of(signing_input(s2, r2, e2), sb) ==> r == Err::<Claims, AuthError>(
            AuthError::InvalidSignature,
        )
    &&& (r == Err::<Claims, AuthError>(AuthError::InvalidSignature) ==> exists|d1: int, d2: int|
        0 <= d1 < d2 < t.len() && #[trigger] t[d1] == 46 && #[trigger] t[d2] == 46 && t.subrange(
            0,
            d1,
        ) == crate::b64::b64u_of(header_json()) && t.subrange(d2 + 1, t.len() as int)
            != hmac_sig_of(t.subrange(0, d2), sb))
    &&& (r == Err::<Claims, AuthError>(AuthError::Expired) ==> exists|
        s2: Seq<u8>,
        r2: Seq<u8>,
        e2: nat,
    |
        jtext_wf(s2) && jtext_wf(r2) && t == #[trigger] token_of(s2, r2, e2, sb) && e2 <= now)
}

/// With a verified signature, any canonical reading of the signing input
/// agrees on the signature suffix.
proof fn lemma_sig_shape_consistent(
    t: Seq<u8>,
    sb: Seq<u8>,
    d1: int,
    d2: int,
    s2: Seq<u8>,
    r2: Seq<u8>,
    e2: nat,
)
    requires
        0 <= d1 < t.len(),
        t[d1] == 46,
        forall|j: int| 0 <= j < d1 ==> t[j] != 46,
        d1 < d2 < t.len(),
        t[d2] == 46,
        forall|j: int| d1 < j < d2 ==> t[j] != 46,
        t.subrange(d2 + 1, t.len() as int) == hmac_sig_of(t.subrange(0, d2), sb),
        t.len() > signing_input(s2, r2, e2).len(),
        t.subrange(0, signing_input(s2, r2, e2).len() as int) == signing_input(s2, r2, e2),
        t[signing_input(s2, r2, e2).len() as int] == 46,
    ensures
        t.subrange(signing_input(s2, r2, e2).len() as int + 1, t.len() as int) == hmac_sig_of(
            signing_input(s2, r2, e2),
            sb,
        ),
{
    let si = signing_input(s2, r2, e2);
    let zz = t.subrange(si.len() as int + 1, t.len() as int);
    assert(t =~= si + seq![46u8] + zz) by {
        assert forall|i: int| 0 <= i < t.len() implies t[i] == (si + seq![46u8] + zz)[i] by {
            if i < si.len() {
                assert(t.subrange(0, si.len() as int)[i] == t[i]);
            } else if i > si.len() {
                assert(t.subrange(si.len() as int + 1, t.len() as int)[i - si.len() - 1] == t[i]);
            }
        }
    }
    lemma_canonical_split(t, s2, r2, e2, zz, d1, d2);
}

/// Issue a token over byte fields.
fn issue_core(sub: &Vec<u8>, role: &Vec<u8>, exp: usize, secret: &str) -> (r: Vec<u8>)
    ensures
        r@ == token_of(sub@, role@, exp as nat, secret.spec_bytes()),
        forall|i: int| 0 <= i < r@.len() ==> r@[i] < 128,
{
    let hv = header_json_vec();
    let eh = b64u_encode(&hv);
    let pj = format_claims(sub, role, exp);
    let ep = b64u_encode(&pj);
    let mut msg = eh;
    msg.push(46);
    push_all(&mut msg, &ep);
    proof {
        assert(msg@ =~= signing_input(sub@, role@, exp as nat));
    }
    let sig = hmac_sign(&msg, secret);
    let mut tok = msg;
    tok.push(46);
    push_all(&mut tok, &sig);
    proof {
        let x = b64u_of(header_json());
        let y = b64u_of(cj(sub@, role@, exp as nat));
        let z = hmac_sig_of(signing_input(sub@, role@, exp as nat), secret.spec_bytes());
        assert(tok@ =~= token_of(sub@, role@, exp as nat, secret.spec_bytes()));
        lemma_b64u_alphabet(header_json());
        lemma_b64u_alphabet(cj(sub@, role@, exp as nat));
        lemma_tok_regions(x, y, z);
        let t = x + seq![46u8] + y + seq![46u8] + z;
        assert forall|i: int| 0 <= i < tok@.len() implies tok@[i] < 128 by {
            assert(tok@ == t);
            if i < x.len() {
                assert(t.subrange(0, x.len() as int)[i] == t[i]);
                assert(x[i] < 127);
            } else if i == x.len() {
            } else if i < x.len() + 1 + y.len() {
                assert(t.subrange(x.len() as int + 1, x.len() + 1 + y.len() as int)[i - x.len() - 1]
                    == t[i]);
                assert(y[i - x.len() - 1] < 127);
            } else if i == x.len() + 1 + y.len() {
            } else {
                assert(t.subrange(x.len() + y.len() as int + 2, t.len() as int)[i - x.len() - y.len()
                    - 2] == t[i]);
                assert(sig@[i - x.len() - y.len() - 2] < 128);
            }
        }
    }
    tok
}

/// Issue a token with a given expiry; deterministic but for the signature
/// name, so the result is pinned exactly.
pub fn issue_at(user_id: &str, role: &str, exp: usize, secret: &str) -> (tok: String)
    requires
        jtext_wf(user_id.spec_bytes()),
        jtext_wf(role.spec_bytes()),
    ensures
        ascii_of(tok@) == token_of(
            user_id.spec_bytes(),
            role.spec_bytes(),
            exp as nat,
            secret.spec_bytes(),
        ),
        is_ascii_chars(tok@),
        encode_utf8(tok@) == ascii_of(tok@),
{
    let ub = user_id.as_bytes_vec();
    let rb = role.as_bytes_vec();
    let t = issue_core(&ub, &rb, exp, secret);
    let ghost tv = t@;
    let s = ascii_string(t);
    proof {
        lemma_ascii_of_roundtrip(s@, tv);
        assert forall|i: int| 0 <= i < s@.len() implies '\0' <= #[trigger] s@[i] <= '\u{7f}' by {
            assert(s@[i] == tv[i] as char);
            assert(tv[i] < 128);
        }
        is_ascii_chars_encode_utf8(s@);
        assert(encode_utf8(s@) =~= ascii_of(s@));
    }
    s
}

/// Number of seconds a token stays valid.
pub const TOKEN_VALIDITY_SECS: u64 = 86400;

/// Mint a token for a subject and role, expiring a fixed window from now.
/// Fails only when the clock is outside the representable range.
pub fn create_jwt(user_id: &str, role: &str, secret: &str) -> (r: Result<String, AuthError>)
    requires
        jtext_wf(user_id.spec_bytes()),
        jtext_wf(role.spec_bytes()),
    ensures
        match r {
            Ok(tok) => is_ascii_chars(tok@) && encode_utf8(tok@) == ascii_of(tok@) && exists|
                e: nat,
            |
                TOKEN_VALIDITY_SECS as nat <= e <= usize::MAX && ascii_of(tok@)
                    == #[trigger] token_of(
                    user_id.spec_bytes(),
                    role.spec_bytes(),
                    e,
                    secret.spec_bytes(),
                ),
            Err(e) => e == AuthError::IssuanceFailure,
        },
{
    let now = now_timestamp();
    if now < 0 {
        return Err(AuthError::IssuanceFailure);
    }
    if (now as u64) > (usize::MAX as u64) - TOKEN_VALIDITY_SECS {
        return Err(AuthError::IssuanceFailure);
    }
    let exp: usize = ((now as u64) + TOKEN_VALIDITY_SECS) as usize;
    let tok = issue_at(user_id, role, exp, secret);
    Ok(tok)
}

/// Parse and validate a token against a secret at a given time.
#[verifier::rlimit(100)]
fn parse_core(v: &Vec<u8>, secret: &str, now: usize) -> (r: Result<Claims, AuthError>)
    ensures
        parse_post(v@, secret.spec_bytes(), now, r),
{
    let ghost t = v@;
    let ghost sb = secret.spec_bytes();
    let n = v.len();
    let d1 = match find_byte(v, 0, 46) {
        Some(d) => d,
        None => {
            proof {
                assert forall|s2: Seq<u8>, r2: Seq<u8>, e2: nat|
                    jtext_wf(s2) && jtext_wf(r2) && e2 <= usize::MAX && t == #[trigger] token_of(
                        s2,
                        r2,
                        e2,
                        sb,
                    ) implies false by {
                    let x = b64u_of(header_json());
                    let y = b64u_of(cj(s2, r2, e2));
                    let z = hmac_sig_of(signing_input(s2, r2, e2), sb);
                    lemma_tok_regions(x, y, z);
                    assert(t[x.len() as int] == 46);
                }
                assert forall|s2: Seq<u8>, r2: Seq<u8>, e2: nat|
                    t.len() > #[trigger] signing_input(s2, r2, e2).len() && t[signing_input(
                        s2,
                        r2,
                        e2,
                    ).len() as int] == 46 implies false by {}
            }
            return Err(AuthError::Malformed);
        },
    };
    let d2 = match find_byte(v, d1 + 1, 46) {
        Some(d) => d,
        None => {
            proof {
                assert forall|s2: Seq<u8>, r2: Seq<u8>, e2: nat|
                    jtext_wf(s2) && jtext_wf(r2) && e2 <= usize::MAX && t == #[trigger] token_of(
                        s2,
                        r2,
                        e2,
                        sb,
                    ) implies false by {
                    let x = b64u_of(header_json());
                    let y = b64u_of(cj(s2, r2, e2));
                    let z = hmac_sig_of(signing_input(s2, r2, e2), sb);
                    lemma_tok_regions(x, y, z);
                    lemma_b64u_alphabet(header_json());
                    if d1 < x.len() {
                        assert(t.subrange(0, x.len() as int)[d1 as int] == t[d1 as int]);
                    }
                    assert(d1 == x.len());
                    assert(t[x.len() + 1 + y.len() as int] == 46);
                }
                assert forall|s2: Seq<u8>, r2: Seq<u8>, e2: nat|
                    jtext_wf(s2) && jtext_wf(r2) && e2 <= usize::MAX && t.len()
                        > #[trigger] signing_input(s2, r2, e2).len() && t.subrange(
                        0,
                        signing_input(s2, r2, e2).len() as int,
                    ) == signing_input(s2, r2, e2) && t[signing_input(s2, r2, e2).len() as int]
                        == 46 implies false by {
                    let si = signing_input(s2, r2, e2);
                    let x = b64u_of(header_json());
                    let y = b64u_of(cj(s2, r2, e2));
                    lemma_b64u_alphabet(header_json());
                    assert(si[x.len() as int] == 46) by {
                        lemma_tok_regions(x, y, Seq::<u8>::empty());
                        let u = x + seq![46u8] + y + seq![46u8] + Seq::<u8>::empty();
                        assert(si =~= u.subrange(0, x.len() + 1 + y.len() as int));
                    }
                    assert(t[x.len() as int] == 46) by {
                        assert(t.subrange(0, si.len() as int)[x.len() as int] == t[x.len() as int]);
                    }
                    if d1 < x.len() {
                        assert(t.subrange(0, si.len() as int)[d1 as int] == t[d1 as int]);
                        assert(si[d1 as int] != 46) by {
                            lemma_tok_regions(x, y, Seq::<u8>::empty());
                            let u = x + seq![46u8] + y + seq![46u8] + Seq::<u8>::empty();
                            assert(si =~= u.subrange(0, x.len() + 1 + y.len() as int));
                            assert(u.subrange(0, x.len() as int)[d1 as int] == u[d1 as int]);
                        }
                    }
                    assert(d1 == x.len());
                    assert(t[si.len() as int] == 46);
                    assert(si.len() > d1);
                }
            }
            return Err(AuthError::Malformed);
        },
    };
    // header segment must be the fixed header
    let hv = header_json_vec();
    let eh = b64u_encode(&hv);
    let hseg = sub_vec(v, 0, d1);
    if !crate::bytes::bytes_eq(&hseg, &eh) {
        proof {
            assert forall|s2: Seq<u8>, r2: Seq<u8>, e2: nat|
                jtext_wf(s2) && jtext_wf(r2) && e2 <= usize::MAX && t == #[trigger] token_of(
                    s2,
                    r2,
                    e2,
                    sb,
                ) implies false by {
                lemma_canonical_split(
                    t,
                    s2,
                    r2,
                    e2,
                    hmac_sig_of(signing_input(s2, r2, e2), sb),
                    d1 as int,
                    d2 as int,
                );
            }
            assert forall|s2: Seq<u8>, r2: Seq<u8>, e2: nat|
                jtext_wf(s2) && jtext_wf(r2) && e2 <= usize::MAX && t.len()
                    > #[trigger] signing_input(s2, r2, e2).len() && t.subrange(
                    0,
                    signing_input(s2, r2, e2).len() as int,
                ) == signing_input(s2, r2, e2) && t[signing_input(s2, r2, e2).len() as int] == 46
                implies t.subrange(0, d1 as int) == b64u_of(header_json()) by {
                let si = signing_input(s2, r2, e2);
                let zz = t.subrange(si.len() as int + 1, t.len() as int);
                assert(t =~= si + seq![46u8] + zz) by {
                    assert forall|i: int|
                        0 <= i < t.len() implies t[i] == (si + seq![46u8] + zz)[i] by {
                        if i < si.len() {
                            assert(t.subrange(0, si.len() as int)[i] == t[i]);
                        } else if i > si.len() {
                            assert(t.subrange(si.len() as int + 1, t.len() as int)[i - si.len() - 1]
                                == t[i]);
                        }
                    }
                }
                lemma_canonical_split(t, s2, r2, e2, zz, d1 as int, d2 as int);
            }
        }
        return Err(AuthError::Malformed);
    }
    // verify the signature over the signing input
    let msg = sub_vec(v, 0, d2);
    let zseg = sub_vec(v, d2 + 1, n);
    if !hmac_check(&zseg, &msg, secret) {
        proof {
            assert(t[d1 as int] == 46 && t[d2 as int] == 46);
            assert(t.subrange(0, d1 as int) == crate::b64::b64u_of(header_json()));
            assert(t.subrange(d2 as int + 1, t.len() as int) != hmac_sig_of(
                t.subrange(0, d2 as int),
                sb,
            ));
            assert forall|s2: Seq<u8>, r2: Seq<u8>, e2: nat|
                jtext_wf(s2) && jtext_wf(r2) && e2 <= usize::MAX && t == #[trigger] token_of(
                    s2,
                    r2,
                    e2,
                    sb,
                ) implies false by {
                lemma_canonical_split(
                    t,
                    s2,
                    r2,
                    e2,
                    hmac_sig_of(signing_input(s2, r2, e2), sb),
                    d1 as int,
                    d2 as int,
                );
            }
        }
        return Err(AuthError::InvalidSignature);
    }
    // decode the payload
    let pseg = sub_vec(v, d1 + 1, d2);
    let payload = match b64u_decode(&pseg) {
        Some(p) => p,
        None => {
            proof {
                assert forall|s2: Seq<u8>, r2: Seq<u8>, e2: nat|
                    jtext_wf(s2) && jtext_wf(r2) && e2 <= usize::MAX && t == #[trigger] token_of(
                        s2,
                        r2,
                        e2,
                        sb,
                    ) implies false by {
                    lemma_canonical_split(
                        t,
                        s2,
                        r2,
                        e2,
                        hmac_sig_of(signing_input(s2, r2, e2), sb),
                        d1 as int,
                        d2 as int,
                    );
                }
                assert forall|s2: Seq<u8>, r2: Seq<u8>, e2: nat|
                    jtext_wf(s2) && jtext_wf(r2) && e2 <= usize::MAX && t.len()
                        > #[trigger] signing_input(s2, r2, e2).len() && t.subrange(
                        0,
                        signing_input(s2, r2, e2).len() as int,
                    ) == signing_input(s2, r2, e2) && t[signing_input(s2, r2, e2).len() as int]
                        == 46 && t.subrange(signing_input(s2, r2, e2).len() as int + 1, t.len() as int)
                        != hmac_sig_of(signing_input(s2, r2, e2), sb) implies false by {
                    lemma_sig_shape_consistent(t, sb, d1 as int, d2 as int, s2, r2, e2);
                }
            }
            return Err(AuthError::Malformed);
        },
    };
    // parse the claims object
    let parsed = match parse_claims(&payload) {
        Some(p) => p,
        None => {
            proof {
                assert forall|s2: Seq<u8>, r2: Seq<u8>, e2: nat|
                    jtext_wf(s2) && jtext_wf(r2) && e2 <= usize::MAX && t == #[trigger] token_of(
                        s2,
                        r2,
                        e2,
                        sb,
                    ) implies false by {
                    lemma_canonical_split(
                        t,
                        s2,
                        r2,
                        e2,
                        hmac_sig_of(signing_input(s2, r2, e2), sb),
                        d1 as int,
                        d2 as int,
                    );
                    lemma_b64u_injective(payload@, cj(s2, r2, e2));
                }
                assert forall|s2: Seq<u8>, r2: Seq<u8>, e2: nat|
                    jtext_wf(s2) && jtext_wf(r2) && e2 <= usize::MAX && t.len()
                        > #[trigger] signing_input(s2, r2, e2).len() && t.subrange(
                        0,
                        signing_input(s2, r2, e2).len() as int,
                    ) == signing_input(s2, r2, e2) && t[signing_input(s2, r2, e2).len() as int]
                        == 46 && t.subrange(signing_input(s2, r2, e2).len() as int + 1, t.len() as int)
                        != hmac_sig_of(signing_input(s2, r2, e2), sb) implies false by {
                    lemma_sig_shape_consistent(t, sb, d1 as int, d2 as int, s2, r2, e2);
                }
            }
            return Err(AuthError::Malformed);
        },
    };
    let (subv, rolev, exp) = parsed;
    proof {
        // the token is canonical for the parsed fields
        let x = b64u_of(header_json());
        let y = b64u_of(cj(subv@, rolev@, exp as nat));
        let z = hmac_sig_of(signing_input(subv@, rolev@, exp as nat), sb);
        assert(t.subrange(d1 + 1, d2 as int) == y);
        assert(t =~= x + seq![46u8] + y + seq![46u8] + t.subrange(d2 + 1, n as int)) by {
            assert forall|i: int|
                0 <= i < t.len() implies t[i] == (x + seq![46u8] + y + seq![46u8] + t.subrange(
                d2 + 1,
                n as int,
            ))[i] by {
                if i < d1 {
                    assert(t.subrange(0, d1 as int)[i] == t[i]);
                } else if d1 < i < d2 {
                    assert(t.subrange(d1 + 1, d2 as int)[i - d1 - 1] == t[i]);
                } else if i > d2 {
                    assert(t.subrange(d2 + 1, n as int)[i - d2 - 1] == t[i]);
                }
            }
        }
        assert(t.subrange(0, d2 as int) == signing_input(subv@, rolev@, exp as nat)) by {
            lemma_tok_regions(x, y, t.subrange(d2 + 1, n as int));
        }
        assert(t == token_of(subv@, rolev@, exp as nat, sb)) by {
            assert(t.subrange(d2 + 1, n as int) == hmac_sig_of(t.subrange(0, d2 as int), sb));
        }
    }
    let ghost cj_t = token_of(subv@, rolev@, exp as nat, sb);
    proof {
        // any other canonical reading carries the same fields
        assert forall|s2: Seq<u8>, r2: Seq<u8>, e2: nat|
            jtext_wf(s2) && jtext_wf(r2) && e2 <= usize::MAX && t == #[trigger] token_of(
                s2,
                r2,
                e2,
                sb,
            ) implies s2 == subv@ && r2 == rolev@ && e2 == exp as nat by {
            lemma_canonical_split(
                t,
                s2,
                r2,
                e2,
                hmac_sig_of(signing_input(s2, r2, e2), sb),
                d1 as int,
                d2 as int,
            );
            lemma_b64u_injective(payload@, cj(s2, r2, e2));
            lemma_cj_injective(subv@, rolev@, exp as nat, s2, r2, e2);
        }
        assert forall|s2: Seq<u8>, r2: Seq<u8>, e2: nat|
            jtext_wf(s2) && jtext_wf(r2) && e2 <= usize::MAX && t.len()
                > #[trigger] signing_input(s2, r2, e2).len() && t.subrange(
                0,
                signing_input(s2, r2, e2).len() as int,
            ) == signing_input(s2, r2, e2) && t[signing_input(s2, r2, e2).len() as int] == 46
                && t.subrange(signing_input(s2, r2, e2).len() as int + 1, t.len() as int)
                != hmac_sig_of(signing_input(s2, r2, e2), sb) implies false by {
            lemma_sig_shape_consistent(t, sb, d1 as int, d2 as int, s2, r2, e2);
        }
    }
    if exp <= now {
        proof {
            assert(jtext_wf(subv@) && jtext_wf(rolev@) && t == token_of(
                subv@,
                rolev@,
                exp as nat,
                sb,
            ) && exp as nat <= now);
        }
        return Err(AuthError::Expired);
    }
    let ghost subs = subv@;
    let ghost roles = rolev@;
    let sub_str = ascii_string(subv);
    let role_str = ascii_string(rolev);
    proof {
        lemma_ascii_of_roundtrip(sub_str@, subs);
        lemma_ascii_of_roundtrip(role_str@, roles);
    }
    Ok(Claims { sub: sub_str, role: role_str, exp })
}

/// Parse and validate a token at an explicit time.
pub fn parse_at(token: &str, secret: &str, now: usize) -> (r: Result<Claims, AuthError>)
    ensures
        parse_post(token.spec_bytes(), secret.spec_bytes(), now, r),
{
    let v = token.as_bytes_vec();
    parse_core(&v, secret, now)
}

/// Parse and validate a token against the clock.
pub fn verify_jwt(token: &str, secret: &str) -> (r: Result<Claims, AuthError>)
    ensures
        exists|now: usize| parse_post(token.spec_bytes(), secret.spec_bytes(), now, r),
{
    let now_i = now_timestamp();
    let now: usize = if now_i < 0 {
        0
    } else if (now_i as u64) > (usize::MAX as u64) {
        usize::MAX
    } else {
        now_i as usize
    };
    let r = parse_at(token, secret, now);
    proof {
        assert(parse_post(token.spec_bytes(), secret.spec_bytes(), now, r));
    }
    r
}

/// Round trip: a token minted for a subject, role and future expiry parses
/// back to exactly those claims.
pub proof fn lemma_token_round_trip(
    s: Seq<u8>,
    ro: Seq<u8>,
    e: usize,
    sb: Seq<u8>,
    now: usize,
    r: Result<Claims, AuthError>,
)
    requires
        jtext_wf(s),
        jtext_wf(ro),
        parse_post(token_of(s, ro, e as nat, sb), sb, now, r),
        e > now,
    ensures
        (r matches Ok(c) && c.sub_bytes() == s && c.role_bytes() == ro && c.exp == e),
{
    assert(jtext_wf(s) && jtext_wf(ro) && e as nat <= usize::MAX && token_of(s, ro, e as nat, sb)
        == token_of(s, ro, e as nat, sb) && e as nat > now);
}

/// Mint then parse: a minted token string, handed to the parser before its
/// expiry, yields exactly the claims it was minted for. The issuance ASCII
/// clause links the string's character view to the byte view the parser
/// judges.
pub proof fn lemma_mint_then_parse(
    tok: String,
    s: Seq<u8>,
    ro: Seq<u8>,
    e: usize,
    sb: Seq<u8>,
    now: usize,
    r: Result<Claims, AuthError>,
)
    requires
        jtext_wf(s),
        jtext_wf(ro),
        is_ascii_chars(tok@),
        ascii_of(tok@) == token_of(s, ro, e as nat, sb),
        parse_post(encode_utf8(tok@), sb, now, r),
        e > now,
    ensures
        (r matches Ok(c) && c.sub_bytes() == s && c.role_bytes() == ro && c.exp == e),
{
    is_ascii_chars_encode_utf8(tok@);
    assert(encode_utf8(tok@) =~= ascii_of(tok@));
    lemma_token_round_trip(s, ro, e, sb, now, r);
}

/// A token whose expiry is not in the future is rejected as expired.
pub proof fn lemma_token_expired(
    s: Seq<u8>,
    ro: Seq<u8>,
    e: usize,
    sb: Seq<u8>,
    now: usize,
    r: Result<Claims, AuthError>,
)
    requires
        jtext_wf(s),
        jtext_wf(ro),
        parse_post(token_of(s, ro, e as nat, sb), sb, now, r),
        e <= now,
    ensures
        r == Err::<Claims, AuthError>(AuthError::Expired),
{
    assert(jtext_wf(s) && jtext_wf(ro) && e as nat <= usize::MAX && token_of(s, ro, e as nat, sb)
        == token_of(s, ro, e as nat, sb) && e as nat <= now);
}

/// A token whose signature part differs from the true signature of its
/// signing input is rejected as tampered, never accepted.
pub proof fn lemma_token_tampered_signature(
    s: Seq<u8>,
    ro: Seq<u8>,
    e: usize,
    sb: Seq<u8>,
    z: Seq<u8>,
    now: usize,
    r: Result<Claims, AuthError>,
)
    requires
        jtext_wf(s),
        jtext_wf(ro),
        z != hmac_sig_of(signing_input(s, ro, e as nat), sb),
        parse_post(signing_input(s, ro, e as nat) + seq![46u8] + z, sb, now, r),
    ensures
        r == Err::<Claims, AuthError>(AuthError::InvalidSignature),
{
    let si = signing_input(s, ro, e as nat);
    let t = si + seq![46u8] + z;
    assert(t.subrange(0, si.len() as int) =~= si);
    assert(t[si.len() as int] == 46);
    assert(t.subrange(si.len() as int + 1, t.len() as int) =~= z);
}

/// An input without a single separator dot cannot be judged anything but
/// malformed: acceptance and expiry need a whole token, and a signature
/// verdict needs the dotted three-segment shape.
pub proof fn lemma_undecodable_is_malformed(
    t: Seq<u8>,
    sb: Seq<u8>,
    now: usize,
    r: Result<Claims, AuthError>,
)
    requires
        parse_post(t, sb, now, r),
        forall|j: int| 0 <= j < t.len() ==> t[j] != 46,
    ensures
        r == Err::<Claims, AuthError>(AuthError::Malformed),
{
    match r {
        Ok(c) => {
            let x = crate::b64::b64u_of(header_json());
            let y = crate::b64::b64u_of(cj(c.sub_bytes(), c.role_bytes(), c.exp as nat));
            let z = hmac_sig_of(
                signing_input(c.sub_bytes(), c.role_bytes(), c.exp as nat),
                sb,
            );
            lemma_tok_regions(x, y, z);
            assert(t[x.len() as int] == 46);
            assert(t[x.len() as int] != 46);
        },
        Err(_) => {},
    }
    if r == Err::<Claims, AuthError>(AuthError::InvalidSignature) {
        let (d1, d2) = choose|d1: int, d2: int|
            0 <= d1 < d2 < t.len() && #[trigger] t[d1] == 46 && #[trigger] t[d2] == 46
                && t.subrange(0, d1) == crate::b64::b64u_of(header_json()) && t.subrange(
                d2 + 1,
                t.len() as int,
            ) != hmac_sig_of(t.subrange(0, d2), sb);
        assert(t[d1] != 46);
    }
    if r == Err::<Claims, AuthError>(AuthError::Expired) {
        let (s2, r2, e2) = choose|s2: Seq<u8>, r2: Seq<u8>, e2: nat|
            jtext_wf(s2) && jtext_wf(r2) && t == #[trigger] token_of(s2, r2, e2, sb) && e2
                <= now;
        let x = crate::b64::b64u_of(header_json());
        let y = crate::b64::b64u_of(cj(s2, r2, e2));
        let z = hmac_sig_of(signing_input(s2, r2, e2), sb);
        lemma_tok_regions(x, y, z);
        assert(t[x.len() as int] == 46);
        assert(t[x.len() as int] != 46);
    }
}

} // verus!
