use vstd::prelude::*;

use base64::Engine;

verus! {

/// The base64url alphabet byte for a sextet value below 64.
pub open spec fn b64_byte_of(v: u8) -> u8 {
    if v < 26 {
        (65 + v) as u8  // 'A'..='Z'
    } else if v < 52 {
        (97 + (v - 26)) as u8  // 'a'..='z'
    } else if v < 62 {
        (48 + (v - 52)) as u8  // '0'..='9'
    } else if v == 62 {
        45  // '-'
    } else {
        95  // '_'
    }
}

/// Membership in the base64url alphabet.
pub open spec fn is_b64_byte(c: u8) -> bool {
    (65 <= c <= 90) || (97 <= c <= 122) || (48 <= c <= 57) || c == 45 || c == 95
}

/// Unpadded base64url encoding (RFC 4648 section 5) of a byte sequence.
pub open spec fn b64u_of(s: Seq<u8>) -> Seq<u8>
    decreases s.len(),
{
    if s.len() == 0 {
        Seq::empty()
    } else if s.len() == 1 {
        seq![b64_byte_of(s[0] / 4), b64_byte_of(((s[0] % 4) * 16) as u8)]
    } else if s.len() == 2 {
        seq![
            b64_byte_of(s[0] / 4),
            b64_byte_of(((s[0] % 4) * 16 + s[1] / 16) as u8),
            b64_byte_of(((s[1] % 16) * 4) as u8),
        ]
    } else {
        seq![
            b64_byte_of(s[0] / 4),
            b64_byte_of(((s[0] % 4) * 16 + s[1] / 16) as u8),
            b64_byte_of(((s[1] % 16) * 4 + s[2] / 64) as u8),
            b64_byte_of((s[2] % 64) as u8),
        ] + b64u_of(s.skip(3))
    }
}

/// Every alphabet byte is printable ASCII and is not a separator dot.
pub proof fn lemma_b64_byte_range(v: u8)
    ensures
        is_b64_byte(b64_byte_of(v)),
        b64_byte_of(v) < 127,
        32 <= b64_byte_of(v),
        b64_byte_of(v) != 46,
        b64_byte_of(v) != 34,
        b64_byte_of(v) != 92,
{
}

/// Every byte of an encoding is an alphabet byte; in particular no dot.
pub proof fn lemma_b64u_alphabet(s: Seq<u8>)
    ensures
        forall|i: int|
            0 <= i < b64u_of(s).len() ==> is_b64_byte(#[trigger] b64u_of(s)[i]) && b64u_of(s)[i]
                != 46 && 32 <= b64u_of(s)[i] < 127,
    decreases s.len(),
{
    if s.len() == 0 {
    } else if s.len() == 1 {
        assert forall|v: u8| is_b64_byte(b64_byte_of(v)) && b64_byte_of(v) != 46 && 32
            <= b64_byte_of(v) < 127 by {
            lemma_b64_byte_range(v);
        }
    } else if s.len() == 2 {
        assert forall|v: u8| is_b64_byte(b64_byte_of(v)) && b64_byte_of(v) != 46 && 32
            <= b64_byte_of(v) < 127 by {
            lemma_b64_byte_range(v);
        }
    } else {
        assert forall|v: u8| is_b64_byte(b64_byte_of(v)) && b64_byte_of(v) != 46 && 32
            <= b64_byte_of(v) < 127 by {
            lemma_b64_byte_range(v);
        }
        lemma_b64u_alphabet(s.skip(3));
        let head = seq![
            b64_byte_of(s[0] / 4),
            b64_byte_of(((s[0] % 4) * 16 + s[1] / 16) as u8),
            b64_byte_of(((s[1] % 16) * 4 + s[2] / 64) as u8),
            b64_byte_of((s[2] % 64) as u8),
        ];
        let t = b64u_of(s.skip(3));
        assert(b64u_of(s) == head + t);
        assert forall|i: int|
            0 <= i < b64u_of(s).len() implies is_b64_byte(#[trigger] b64u_of(s)[i]) && b64u_of(
            s,
        )[i] != 46 && 32 <= b64u_of(s)[i] < 127 by {
            if i >= 4 {
                assert((head + t)[i] == t[i - 4]);
            }
        }
    }
}

/// The alphabet map is injective on sextet values.
proof fn lemma_b64_byte_injective(v1: u8, v2: u8)
    requires
        v1 < 64,
        v2 < 64,
        b64_byte_of(v1) == b64_byte_of(v2),
    ensures
        v1 == v2,
{
}

/// The length of an encoding determines the length class of its source.
proof fn lemma_b64u_len(s: Seq<u8>)
    ensures
        s.len() == 0 ==> b64u_of(s).len() == 0,
        s.len() == 1 ==> b64u_of(s).len() == 2,
        s.len() == 2 ==> b64u_of(s).len() == 3,
        s.len() >= 3 ==> b64u_of(s).len() >= 4,
{
    if s.len() >= 3 {
        assert(b64u_of(s).len() >= 4);
    }
}

/// Unpadded base64url encoding is injective.
pub proof fn lemma_b64u_injective(a: Seq<u8>, b: Seq<u8>)
    requires
        b64u_of(a) == b64u_of(b),
    ensures
        a == b,
    decreases a.len(),
{
    lemma_b64u_len(a);
    lemma_b64u_len(b);
    if a.len() == 0 {
        assert(b.len() == 0) by {
            if b.len() == 1 || b.len() == 2 || b.len() >= 3 {
                assert(b64u_of(b).len() > 0);
            }
        }
        assert(a =~= b);
    } else if a.len() == 1 {
        assert(b.len() == 1);
        let x = a[0];
        let y = b[0];
        assert(b64u_of(a)[0] == b64_byte_of(x / 4) && b64u_of(a)[1] == b64_byte_of(
            ((x % 4) * 16) as u8,
        ));
        assert(b64u_of(b)[0] == b64_byte_of(y / 4) && b64u_of(b)[1] == b64_byte_of(
            ((y % 4) * 16) as u8,
        ));
        lemma_b64_byte_injective(x / 4, y / 4);
        lemma_b64_byte_injective(((x % 4) * 16) as u8, ((y % 4) * 16) as u8);
        assert(x == y);
        assert(a =~= b);
    } else if a.len() == 2 {
        assert(b.len() == 2);
        let x0 = a[0];
        let x1 = a[1];
        let y0 = b[0];
        let y1 = b[1];
        lemma_b64_byte_injective(x0 / 4, y0 / 4);
        lemma_b64_byte_injective(
            ((x0 % 4) * 16 + x1 / 16) as u8,
            ((y0 % 4) * 16 + y1 / 16) as u8,
        );
        lemma_b64_byte_injective(((x1 % 16) * 4) as u8, ((y1 % 16) * 4) as u8);
        assert(x0 == y0 && x1 == y1);
        assert(a =~= b);
    } else {
        assert(b.len() >= 3);
        let x0 = a[0];
        let x1 = a[1];
        let x2 = a[2];
        let y0 = b[0];
        let y1 = b[1];
        let y2 = b[2];
        let ta = b64u_of(a.skip(3));
        let tb = b64u_of(b.skip(3));
        assert(b64u_of(a)[0] == b64_byte_of(x0 / 4) && b64u_of(b)[0] == b64_byte_of(y0 / 4));
        assert(b64u_of(a)[1] == b64_byte_of(((x0 % 4) * 16 + x1 / 16) as u8));
        assert(b64u_of(b)[1] == b64_byte_of(((y0 % 4) * 16 + y1 / 16) as u8));
        assert(b64u_of(a)[2] == b64_byte_of(((x1 % 16) * 4 + x2 / 64) as u8));
        assert(b64u_of(b)[2] == b64_byte_of(((y1 % 16) * 4 + y2 / 64) as u8));
        assert(b64u_of(a)[3] == b64_byte_of((x2 % 64) as u8));
        assert(b64u_of(b)[3] == b64_byte_of((y2 % 64) as u8));
        lemma_b64_byte_injective(x0 / 4, y0 / 4);
        lemma_b64_byte_injective(
            ((x0 % 4) * 16 + x1 / 16) as u8,
            ((y0 % 4) * 16 + y1 / 16) as u8,
        );
        lemma_b64_byte_injective(
            ((x1 % 16) * 4 + x2 / 64) as u8,
            ((y1 % 16) * 4 + y2 / 64) as u8,
        );
        lemma_b64_byte_injective((x2 % 64) as u8, (y2 % 64) as u8);
        assert(x0 == y0 && x1 == y1 && x2 == y2);
        let heada = seq![
            b64_byte_of(x0 / 4),
            b64_byte_of(((x0 % 4) * 16 + x1 / 16) as u8),
            b64_byte_of(((x1 % 16) * 4 + x2 / 64) as u8),
            b64_byte_of((x2 % 64) as u8),
        ];
        let headb = seq![
            b64_byte_of(y0 / 4),
            b64_byte_of(((y0 % 4) * 16 + y1 / 16) as u8),
            b64_byte_of(((y1 % 16) * 4 + y2 / 64) as u8),
            b64_byte_of((y2 % 64) as u8),
        ];
        assert(b64u_of(a) == heada + ta);
        assert(b64u_of(b) == headb + tb);
        assert(ta.len() == tb.len());
        assert(ta =~= tb) by {
            assert forall|i: int| 0 <= i < ta.len() implies ta[i] == tb[i] by {
                assert((heada + ta)[i + 4] == ta[i]);
                assert((headb + tb)[i + 4] == tb[i]);
            }
        }
        lemma_b64u_injective(a.skip(3), b.skip(3));
        assert(a =~= b) by {
            assert forall|i: int| 0 <= i < a.len() implies a[i] == b[i] by {
                if i >= 3 {
                    assert(a.skip(3)[i - 3] == a[i]);
                    assert(b.skip(3)[i - 3] == b[i]);
                }
            }
        }
    }
}

/// Relies on base64's `URL_SAFE_NO_PAD` engine: unpadded base64url encoding
/// of the input bytes, per RFC 4648 section 5.
#[verifier::external_body]
pub fn b64u_encode(v: &Vec<u8>) -> (r: Vec<u8>)
    ensures
        r@ == b64u_of(v@),
{
    base64::engine::general_purpose::URL_SAFE_NO_PAD.encode(v.as_slice()).into_bytes()
}

/// Relies on base64's `URL_SAFE_NO_PAD` engine: decoding succeeds exactly on
/// canonical unpadded base64url text (the engine rejects padding, non-zero
/// trailing bits, foreign bytes, and length 1 mod 4) and returns its unique
/// preimage.
#[verifier::external_body]
pub fn b64u_decode(v: &Vec<u8>) -> (r: Option<Vec<u8>>)
    ensures
        match r {
            Some(b) => v@ == b64u_of(b@),
            None => forall|b: Seq<u8>| v@ != b64u_of(b),
        },
{
    match base64::engine::general_purpose::URL_SAFE_NO_PAD.decode(v.as_slice()) {
        Ok(b) => Some(b),
        Err(_) => None,
    }
}

} // verus!
