use vstd::prelude::*;

use crate::bytes::{jtext_wf, push_all, sub_vec};
use crate::numstr::{dec_digits, digits_val, fmt_usize, lemma_dec_digits_shape, parse_number};

verus! {

/// The bytes of `{"sub":"`.
pub open spec fn pre_sub() -> Seq<u8> {
    seq![123u8, 34, 115, 117, 98, 34, 58, 34]
}

/// The bytes of `","role":"`.
pub open spec fn pre_role() -> Seq<u8> {
    seq![34u8, 44, 34, 114, 111, 108, 101, 34, 58, 34]
}

/// The bytes of `","exp":`.
pub open spec fn pre_exp() -> Seq<u8> {
    seq![34u8, 44, 34, 101, 120, 112, 34, 58]
}

/// The claims object of a token: a JSON object with the subject, the role,
/// and the expiry in seconds since the epoch, in that order.
pub open spec fn cj(sub: Seq<u8>, role: Seq<u8>, exp: nat) -> Seq<u8> {
    pre_sub() + sub + pre_role() + role + pre_exp() + dec_digits(exp) + seq![125u8]
}

/// Position of every part of a claims object.
pub proof fn lemma_cj_structure(sub: Seq<u8>, role: Seq<u8>, exp: nat)
    ensures
        cj(sub, role, exp).len() == 27 + sub.len() + role.len() + dec_digits(exp).len(),
        forall|i: int| 0 <= i < 8 ==> cj(sub, role, exp)[i] == pre_sub()[i],
        forall|i: int| 0 <= i < sub.len() ==> cj(sub, role, exp)[8 + i] == sub[i],
        forall|i: int|
            0 <= i < 10 ==> cj(sub, role, exp)[8 + sub.len() + i] == pre_role()[i],
        forall|i: int|
            0 <= i < role.len() ==> cj(sub, role, exp)[18 + sub.len() + i] == role[i],
        forall|i: int|
            0 <= i < 8 ==> cj(sub, role, exp)[18 + sub.len() + role.len() + i] == pre_exp()[i],
        forall|i: int|
            0 <= i < dec_digits(exp).len() ==> cj(sub, role, exp)[26 + sub.len() + role.len()
                + i] == dec_digits(exp)[i],
        cj(sub, role, exp)[cj(sub, role, exp).len() - 1] == 125,
{
    let a1 = pre_sub() + sub;
    let a2 = a1 + pre_role();
    let a3 = a2 + role;
    let a4 = a3 + pre_exp();
    let a5 = a4 + dec_digits(exp);
    let t = a5 + seq![125u8];
    assert(t == cj(sub, role, exp));
    assert forall|i: int| 0 <= i < 8 implies t[i] == pre_sub()[i] by {
        assert(a1[i] == pre_sub()[i]);
    }
    assert forall|i: int| 0 <= i < sub.len() implies t[8 + i] == sub[i] by {
        assert(a1[8 + i] == sub[i]);
    }
    assert forall|i: int| 0 <= i < 10 implies t[8 + sub.len() + i] == pre_role()[i] by {
        assert(a2[a1.len() + i] == pre_role()[i]);
    }
    assert forall|i: int| 0 <= i < role.len() implies t[18 + sub.len() + i] == role[i] by {
        assert(a3[a2.len() + i] == role[i]);
    }
    assert forall|i: int| 0 <= i < 8 implies t[18 + sub.len() + role.len() + i] == pre_exp()[i] by {
        assert(a4[a3.len() + i] == pre_exp()[i]);
    }
    assert forall|i: int|
        0 <= i < dec_digits(exp).len() implies t[26 + sub.len() + role.len() + i] == dec_digits(
        exp,
    )[i] by {
        assert(a5[a4.len() + i] == dec_digits(exp)[i]);
    }
    assert(t[a5.len() as int] == 125);
}

/// The regions of a claims object, as subranges.
#[verifier::rlimit(100)]
pub proof fn lemma_cj_regions(sub: Seq<u8>, role: Seq<u8>, exp: nat)
    ensures
        cj(sub, role, exp).len() == 27 + sub.len() + role.len() + dec_digits(exp).len(),
        cj(sub, role, exp).subrange(0, 8) == pre_sub(),
        cj(sub, role, exp).subrange(8, 8 + sub.len() as int) == sub,
        cj(sub, role, exp).subrange(8 + sub.len() as int, 18 + sub.len() as int) == pre_role(),
        cj(sub, role, exp).subrange(18 + sub.len() as int, 18 + sub.len() + role.len() as int)
            == role,
        cj(sub, role, exp).subrange(
            18 + sub.len() + role.len() as int,
            26 + sub.len() + role.len() as int,
        ) == pre_exp(),
        cj(sub, role, exp).subrange(
            26 + sub.len() + role.len() as int,
            cj(sub, role, exp).len() - 1,
        ) == dec_digits(exp),
        cj(sub, role, exp)[cj(sub, role, exp).len() - 1] == 125,
{
    lemma_cj_structure(sub, role, exp);
    let t = cj(sub, role, exp);
    assert(t.subrange(0, 8) =~= pre_sub());
    assert(t.subrange(8, 8 + sub.len() as int) =~= sub);
    assert(t.subrange(8 + sub.len() as int, 18 + sub.len() as int) =~= pre_role());
    assert(t.subrange(18 + sub.len() as int, 18 + sub.len() + role.len() as int) =~= role);
    assert(t.subrange(18 + sub.len() + role.len() as int, 26 + sub.len() + role.len() as int)
        =~= pre_exp());
    assert(t.subrange(26 + sub.len() + role.len() as int, t.len() - 1) =~= dec_digits(exp));
}

/// Two claims objects with the same bytes carry the same fields.
#[verifier::rlimit(100)]
pub proof fn lemma_cj_injective(
    s1: Seq<u8>,
    r1: Seq<u8>,
    e1: nat,
    s2: Seq<u8>,
    r2: Seq<u8>,
    e2: nat,
)
    requires
        jtext_wf(s1),
        jtext_wf(r1),
        jtext_wf(s2),
        jtext_wf(r2),
        cj(s1, r1, e1) == cj(s2, r2, e2),
    ensures
        s1 == s2,
        r1 == r2,
        e1 == e2,
{
    let t = cj(s1, r1, e1);
    lemma_cj_regions(s1, r1, e1);
    lemma_cj_regions(s2, r2, e2);
    assert(s1.len() == s2.len()) by {
        if s1.len() < s2.len() {
            assert(t.subrange(8 + s1.len() as int, 18 + s1.len() as int)[0] == t[8 + s1.len() as int]);
            assert(t.subrange(8, 8 + s2.len() as int)[s1.len() as int] == t[8 + s1.len() as int]);
            assert(s2[s1.len() as int] != 34);
        }
        if s2.len() < s1.len() {
            assert(t.subrange(8 + s2.len() as int, 18 + s2.len() as int)[0] == t[8 + s2.len() as int]);
            assert(t.subrange(8, 8 + s1.len() as int)[s2.len() as int] == t[8 + s2.len() as int]);
            assert(s1[s2.len() as int] != 34);
        }
    }
    assert(s1 == s2);
    assert(r1.len() == r2.len()) by {
        if r1.len() < r2.len() {
            assert(t.subrange(
                18 + s1.len() + r1.len() as int,
                26 + s1.len() + r1.len() as int,
            )[0] == t[18 + s1.len() + r1.len() as int]);
            assert(t.subrange(18 + s2.len() as int, 18 + s2.len() + r2.len() as int)[r1.len() as int]
                == t[18 + s2.len() + r1.len() as int]);
            assert(r2[r1.len() as int] != 34);
        }
        if r2.len() < r1.len() {
            assert(t.subrange(
                18 + s2.len() + r2.len() as int,
                26 + s2.len() + r2.len() as int,
            )[0] == t[18 + s2.len() + r2.len() as int]);
            assert(t.subrange(18 + s1.len() as int, 18 + s1.len() + r1.len() as int)[r2.len() as int]
                == t[18 + s1.len() + r2.len() as int]);
            assert(r1[r2.len() as int] != 34);
        }
    }
    assert(r1 == r2);
    assert(dec_digits(e1) == dec_digits(e2));
    assert(e1 == e2) by {
        crate::numstr::lemma_dec_digits_val(e1);
        crate::numstr::lemma_dec_digits_val(e2);
        assert(digits_val(dec_digits(e1)) == digits_val(dec_digits(e2)));
    }
}

fn pre_sub_vec() -> (r: Vec<u8>)
    ensures
        r@ == pre_sub(),
{
    let r: Vec<u8> = vec![123u8, 34, 115, 117, 98, 34, 58, 34];
    proof {
        assert(r@ =~= pre_sub());
    }
    r
}

fn pre_role_vec() -> (r: Vec<u8>)
    ensures
        r@ == pre_role(),
{
    let r: Vec<u8> = vec![34u8, 44, 34, 114, 111, 108, 101, 34, 58, 34];
    proof {
        assert(r@ =~= pre_role());
    }
    r
}

fn pre_exp_vec() -> (r: Vec<u8>)
    ensures
        r@ == pre_exp(),
{
    let r: Vec<u8> = vec![34u8, 44, 34, 101, 120, 112, 34, 58];
    proof {
        assert(r@ =~= pre_exp());
    }
    r
}

/// Serialize a claims object.
pub fn format_claims(sub: &Vec<u8>, role: &Vec<u8>, exp: usize) -> (r: Vec<u8>)
    ensures
        r@ == cj(sub@, role@, exp as nat),
{
    let mut r = pre_sub_vec();
    push_all(&mut r, sub);
    let p2 = pre_role_vec();
    push_all(&mut r, &p2);
    push_all(&mut r, role);
    let p3 = pre_exp_vec();
    push_all(&mut r, &p3);
    let dd = fmt_usize(exp);
    push_all(&mut r, &dd);
    r.push(125);
    proof {
        assert(r@ =~= cj(sub@, role@, exp as nat));
    }
    r
}

/// Does `v[at..at+pat.len()]` equal `pat`?
fn match_at(v: &Vec<u8>, at: usize, pat: &Vec<u8>) -> (r: bool)
    requires
        at + pat@.len() <= v@.len(),
    ensures
        r == (v@.subrange(at as int, at as int + pat@.len() as int) == pat@),
{
    let ghost region = v@.subrange(at as int, at as int + pat@.len() as int);
    let n = v.len();
    let mut i: usize = 0;
    while i < pat.len()
        invariant
            i <= pat@.len(),
            at + pat@.len() <= n,
            n == v@.len(),
            region == v@.subrange(at as int, at as int + pat@.len() as int),
            forall|j: int| 0 <= j < i ==> v@[at + j] == pat@[j],
        decreases pat@.len() - i,
    {
        if v[at + i] != pat[i] {
            proof {
                assert(region[i as int] == v@[at + i]);
            }
            return false;
        }
        i += 1;
    }
    proof {
        assert(region =~= pat@);
    }
    true
}

/// Find the first quote byte at or after `from`.
fn find_quote(v: &Vec<u8>, from: usize) -> (r: Option<usize>)
    requires
        from <= v@.len(),
    ensures
        match r {
            Some(q) => from <= q < v@.len() && v@[q as int] == 34 && forall|j: int|
                from <= j < q ==> v@[j] != 34,
            None => forall|j: int| from <= j < v@.len() ==> v@[j] != 34,
        },
{
    let mut i: usize = from;
    while i < v.len()
        invariant
            from <= i <= v@.len(),
            forall|j: int| from <= j < i ==> v@[j] != 34,
        decreases v@.len() - i,
    {
        if v[i] == 34 {
            return Some(i);
        }
        i += 1;
    }
    None
}

/// Are all bytes of `v[from..to]` allowed in a token text field?
fn all_jtext(v: &Vec<u8>, from: usize, to: usize) -> (r: bool)
    requires
        from <= to <= v@.len(),
    ensures
        r == (forall|j: int|
            from <= j < to ==> 32 <= #[trigger] v@[j] && v@[j] < 127 && v@[j] != 34 && v@[j]
                != 92),
{
    let mut i: usize = from;
    while i < to
        invariant
            from <= i <= to <= v@.len(),
            forall|j: int|
                from <= j < i ==> 32 <= #[trigger] v@[j] && v@[j] < 127 && v@[j] != 34 && v@[j]
                    != 92,
        decreases to - i,
    {
        let b = v[i];
        if b < 32 || b >= 127 || b == 34 || b == 92 {
            return false;
        }
        i += 1;
    }
    true
}

/// Reassemble a claims object from its parsed parts.
proof fn lemma_cj_from_parts(t: Seq<u8>, s: Seq<u8>, ro: Seq<u8>, e: nat, q: int, q2: int)
    requires
        q == 8 + s.len(),
        q2 == q + 10 + ro.len(),
        t.len() == q2 + 8 + dec_digits(e).len() + 1,
        t.subrange(0, 8) == pre_sub(),
        t.subrange(8, q) == s,
        t.subrange(q, q + 10) == pre_role(),
        t.subrange(q + 10, q2) == ro,
        t.subrange(q2, q2 + 8) == pre_exp(),
        t.subrange(q2 + 8, t.len() - 1) == dec_digits(e),
        t[t.len() - 1] == 125,
    ensures
        t == cj(s, ro, e),
{
    lemma_cj_structure(s, ro, e);
    assert(t =~= cj(s, ro, e)) by {
        assert forall|i: int| 0 <= i < t.len() implies t[i] == cj(s, ro, e)[i] by {
            if i < 8 {
                assert(t.subrange(0, 8)[i] == t[i]);
            } else if i < q {
                assert(t.subrange(8, q)[i - 8] == t[i]);
            } else if i < q + 10 {
                assert(t.subrange(q, q + 10)[i - q] == t[i]);
            } else if i < q2 {
                assert(t.subrange(q + 10, q2)[i - q - 10] == t[i]);
            } else if i < q2 + 8 {
                assert(t.subrange(q2, q2 + 8)[i - q2] == t[i]);
            } else if i < t.len() - 1 {
                assert(t.subrange(q2 + 8, t.len() - 1)[i - q2 - 8] == t[i]);
            }
        }
    }
}

/// Parse a claims object; accepts exactly the output of `format_claims`.
#[verifier::rlimit(100)]
pub fn parse_claims(v: &Vec<u8>) -> (r: Option<(Vec<u8>, Vec<u8>, usize)>)
    ensures
        match r {
            Some(p) => jtext_wf(p.0@) && jtext_wf(p.1@) && v@ == cj(p.0@, p.1@, p.2 as nat),
            None => forall|s: Seq<u8>, ro: Seq<u8>, e: usize|
                jtext_wf(s) && jtext_wf(ro) ==> v@ != cj(s, ro, e as nat),
        },
{
    let n = v.len();
    if n < 28 {
        proof {
            assert forall|s: Seq<u8>, ro: Seq<u8>, e: usize|
                jtext_wf(s) && jtext_wf(ro) implies v@ != cj(s, ro, e as nat) by {
                lemma_cj_structure(s, ro, e as nat);
                lemma_dec_digits_shape(e as nat);
            }
        }
        return None;
    }
    let p1 = pre_sub_vec();
    if !match_at(v, 0, &p1) {
        proof {
            assert forall|s: Seq<u8>, ro: Seq<u8>, e: usize|
                jtext_wf(s) && jtext_wf(ro) implies v@ != cj(s, ro, e as nat) by {
                if v@ == cj(s, ro, e as nat) {
                    lemma_cj_structure(s, ro, e as nat);
                    lemma_dec_digits_shape(e as nat);
                    assert(v@.subrange(0, 8) =~= pre_sub()) by {
                        assert(forall|i: int|
                            0 <= i < 8 ==> #[trigger] v@.subrange(0, 8)[i] == v@[i]);
                    }
                }
            }
        }
        return None;
    }
    let q = match find_quote(v, 8) {
        Some(q) => q,
        None => {
            proof {
                assert forall|s: Seq<u8>, ro: Seq<u8>, e: usize|
                    jtext_wf(s) && jtext_wf(ro) implies v@ != cj(s, ro, e as nat) by {
                    if v@ == cj(s, ro, e as nat) {
                        lemma_cj_structure(s, ro, e as nat);
                        lemma_dec_digits_shape(e as nat);
                        assert(v@[8 + s.len() as int] == pre_role()[0]);
                    }
                }
            }
            return None;
        },
    };
    // the region before the quote must be field text
    if !all_jtext(v, 8, q) {
        proof {
            assert forall|s: Seq<u8>, ro: Seq<u8>, e: usize|
                jtext_wf(s) && jtext_wf(ro) implies v@ != cj(s, ro, e as nat) by {
                if v@ == cj(s, ro, e as nat) {
                    lemma_cj_structure(s, ro, e as nat);
                    lemma_dec_digits_shape(e as nat);
                    assert(v@[8 + s.len() as int] == pre_role()[0]);
                    if q < 8 + s.len() {
                        assert(v@[q as int] == s[q - 8]);
                    }
                    assert(q == 8 + s.len());
                    assert forall|j: int|
                        8 <= j < q implies 32 <= #[trigger] v@[j] && v@[j] < 127 && v@[j] != 34
                        && v@[j] != 92 by {
                        assert(v@[j] == s[j - 8]);
                    }
                }
            }
        }
        return None;
    }
    let sub = sub_vec(v, 8, q);
    if n - q < 20 {
        proof {
            assert forall|s: Seq<u8>, ro: Seq<u8>, e: usize|
                jtext_wf(s) && jtext_wf(ro) implies v@ != cj(s, ro, e as nat) by {
                if v@ == cj(s, ro, e as nat) {
                    lemma_cj_structure(s, ro, e as nat);
                    lemma_dec_digits_shape(e as nat);
                    assert(v@[8 + s.len() as int] == pre_role()[0]);
                    if q < 8 + s.len() {
                        assert(v@[q as int] == s[q - 8]);
                    }
                    assert(q == 8 + s.len());
                }
            }
        }
        return None;
    }
    let p2 = pre_role_vec();
    if !match_at(v, q, &p2) {
        proof {
            assert forall|s: Seq<u8>, ro: Seq<u8>, e: usize|
                jtext_wf(s) && jtext_wf(ro) implies v@ != cj(s, ro, e as nat) by {
                if v@ == cj(s, ro, e as nat) {
                    lemma_cj_structure(s, ro, e as nat);
                    lemma_dec_digits_shape(e as nat);
                    assert(v@[8 + s.len() as int] == pre_role()[0]);
                    if q < 8 + s.len() {
                        assert(v@[q as int] == s[q - 8]);
                    }
                    assert(q == 8 + s.len());
                    assert(v@.subrange(q as int, q + 10) =~= pre_role()) by {
                        assert(forall|i: int|
                            0 <= i < 10 ==> #[trigger] v@.subrange(q as int, q + 10)[i] == v@[q
                                + i]);
                        assert(forall|i: int|
                            0 <= i < 10 ==> v@[8 + s.len() + i] == #[trigger] pre_role()[i]);
                    }
                }
            }
        }
        return None;
    }
    let q2 = match find_quote(v, q + 10) {
        Some(q2) => q2,
        None => {
            proof {
                assert forall|s: Seq<u8>, ro: Seq<u8>, e: usize|
                    jtext_wf(s) && jtext_wf(ro) implies v@ != cj(s, ro, e as nat) by {
                    if v@ == cj(s, ro, e as nat) {
                        lemma_cj_structure(s, ro, e as nat);
                        lemma_dec_digits_shape(e as nat);
                        assert(v@[8 + s.len() as int] == pre_role()[0]);
                        if q < 8 + s.len() {
                            assert(v@[q as int] == s[q - 8]);
                        }
                        assert(q == 8 + s.len());
                        assert(v@[18 + s.len() + ro.len() as int] == pre_exp()[0]);
                    }
                }
            }
            return None;
        },
    };
    if !all_jtext(v, q + 10, q2) {
        proof {
            assert forall|s: Seq<u8>, ro: Seq<u8>, e: usize|
                jtext_wf(s) && jtext_wf(ro) implies v@ != cj(s, ro, e as nat) by {
                if v@ == cj(s, ro, e as nat) {
                    lemma_cj_structure(s, ro, e as nat);
                    lemma_dec_digits_shape(e as nat);
                    assert(v@[8 + s.len() as int] == pre_role()[0]);
                    if q < 8 + s.len() {
                        assert(v@[q as int] == s[q - 8]);
                    }
                    assert(q == 8 + s.len());
                    assert(v@[18 + s.len() + ro.len() as int] == pre_exp()[0]);
                    if q2 < 18 + s.len() + ro.len() {
                        assert(v@[q2 as int] == ro[q2 - 18 - s.len()]);
                    }
                    assert(q2 == 18 + s.len() + ro.len());
                    assert forall|j: int|
                        q + 10 <= j < q2 implies 32 <= #[trigger] v@[j] && v@[j] < 127 && v@[j]
                        != 34 && v@[j] != 92 by {
                        assert(v@[j] == ro[j - 18 - s.len()]);
                    }
                }
            }
        }
        return None;
    }
    let role = sub_vec(v, q + 10, q2);
    if n - q2 < 10 {
        proof {
            assert forall|s: Seq<u8>, ro: Seq<u8>, e: usize|
                jtext_wf(s) && jtext_wf(ro) implies v@ != cj(s, ro, e as nat) by {
                if v@ == cj(s, ro, e as nat) {
                    lemma_cj_structure(s, ro, e as nat);
                    lemma_dec_digits_shape(e as nat);
                    assert(v@[8 + s.len() as int] == pre_role()[0]);
                    if q < 8 + s.len() {
                        assert(v@[q as int] == s[q - 8]);
                    }
                    assert(q == 8 + s.len());
                    assert(v@[18 + s.len() + ro.len() as int] == pre_exp()[0]);
                    if q2 < 18 + s.len() + ro.len() {
                        assert(v@[q2 as int] == ro[q2 - 18 - s.len()]);
                    }
                    assert(q2 == 18 + s.len() + ro.len());
                }
            }
        }
        return None;
    }
    let p3 = pre_exp_vec();
    if !match_at(v, q2, &p3) {
        proof {
            assert forall|s: Seq<u8>, ro: Seq<u8>, e: usize|
                jtext_wf(s) && jtext_wf(ro) implies v@ != cj(s, ro, e as nat) by {
                if v@ == cj(s, ro, e as nat) {
                    lemma_cj_structure(s, ro, e as nat);
                    lemma_dec_digits_shape(e as nat);
                    assert(v@[8 + s.len() as int] == pre_role()[0]);
                    if q < 8 + s.len() {
                        assert(v@[q as int] == s[q - 8]);
                    }
                    assert(q == 8 + s.len());
                    assert(v@[18 + s.len() + ro.len() as int] == pre_exp()[0]);
                    if q2 < 18 + s.len() + ro.len() {
                        assert(v@[q2 as int] == ro[q2 - 18 - s.len()]);
                    }
                    assert(q2 == 18 + s.len() + ro.len());
                    assert(v@.subrange(q2 as int, q2 + 8) =~= pre_exp()) by {
                        assert(forall|i: int|
                            0 <= i < 8 ==> #[trigger] v@.subrange(q2 as int, q2 + 8)[i] == v@[q2
                                + i]);
                        assert(forall|i: int|
                            0 <= i < 8 ==> v@[18 + s.len() + ro.len() + i] == #[trigger] pre_exp()[
                            i]);
                    }
                }
            }
        }
        return None;
    }
    if v[n - 1] != 125 {
        proof {
            assert forall|s: Seq<u8>, ro: Seq<u8>, e: usize|
                jtext_wf(s) && jtext_wf(ro) implies v@ != cj(s, ro, e as nat) by {
                if v@ == cj(s, ro, e as nat) {
                    lemma_cj_structure(s, ro, e as nat);
                }
            }
        }
        return None;
    }
    let e = match parse_number(v, q2 + 8, n - 1) {
        Some(e) => e,
        None => {
            proof {
                assert forall|s: Seq<u8>, ro: Seq<u8>, e: usize|
                    jtext_wf(s) && jtext_wf(ro) implies v@ != cj(s, ro, e as nat) by {
                    if v@ == cj(s, ro, e as nat) {
                        lemma_cj_structure(s, ro, e as nat);
                        lemma_dec_digits_shape(e as nat);
                        assert(v@[8 + s.len() as int] == pre_role()[0]);
                        if q < 8 + s.len() {
                            assert(v@[q as int] == s[q - 8]);
                        }
                        assert(q == 8 + s.len());
                        assert(v@[18 + s.len() + ro.len() as int] == pre_exp()[0]);
                        if q2 < 18 + s.len() + ro.len() {
                            assert(v@[q2 as int] == ro[q2 - 18 - s.len()]);
                        }
                        assert(q2 == 18 + s.len() + ro.len());
                        assert(v@.subrange(q2 + 8, n - 1) =~= dec_digits(e as nat)) by {
                            assert(forall|i: int|
                                0 <= i < n - 1 - q2 - 8 ==> #[trigger] v@.subrange(
                                    q2 + 8,
                                    n - 1,
                                )[i] == v@[q2 + 8 + i]);
                            assert(forall|i: int|
                                0 <= i < dec_digits(e as nat).len() ==> v@[26 + s.len() + ro.len()
                                    + i] == #[trigger] dec_digits(e as nat)[i]);
                        }
                    }
                }
            }
            return None;
        },
    };
    proof {
        let dd = dec_digits(e as nat);
        assert(v@.subrange(q2 + 8, n - 1) == dd);
        assert(dd.len() == n - 1 - q2 - 8);
        assert(v@.subrange(0, 8) == pre_sub());
        assert(sub@ == v@.subrange(8, q as int));
        assert(v@.subrange(q as int, q + 10) == pre_role());
        assert(role@ == v@.subrange(q + 10, q2 as int));
        assert(v@.subrange(q2 as int, q2 + 8) == pre_exp());
        lemma_cj_from_parts(v@, sub@, role@, e as nat, q as int, q2 as int);
        assert(jtext_wf(sub@)) by {
            assert forall|i: int|
                0 <= i < sub@.len() implies 32 <= #[trigger] sub@[i] && sub@[i] < 127 && sub@[i]
                != 34 && sub@[i] != 92 by {
                assert(sub@[i] == v@[8 + i]);
            }
        }
        assert(jtext_wf(role@)) by {
            assert forall|i: int|
                0 <= i < role@.len() implies 32 <= #[trigger] role@[i] && role@[i] < 127
                && role@[i] != 34 && role@[i] != 92 by {
                assert(role@[i] == v@[q + 10 + i]);
            }
        }
    }
    Some((sub, role, e))
}

} // verus!
