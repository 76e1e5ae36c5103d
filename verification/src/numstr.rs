use vstd::prelude::*;

verus! {

/// The canonical decimal digit string of a natural number.
pub open spec fn dec_digits(n: nat) -> Seq<u8>
    decreases n,
{
    if n < 10 {
        seq![(48 + n) as u8]
    } else {
        dec_digits(n / 10).push((48 + n % 10) as u8)
    }
}

/// ASCII decimal digit.
pub open spec fn is_digit(b: u8) -> bool {
    48 <= b <= 57
}

/// The value of a digit string, most significant digit first.
pub open spec fn digits_val(s: Seq<u8>) -> nat
    decreases s.len(),
{
    if s.len() == 0 {
        0
    } else {
        (digits_val(s.drop_last()) * 10 + (s.last() - 48)) as nat
    }
}

/// Shape of a canonical digit string: nonempty, digits only, no leading zero.
pub proof fn lemma_dec_digits_shape(n: nat)
    ensures
        dec_digits(n).len() >= 1,
        forall|i: int| 0 <= i < dec_digits(n).len() ==> is_digit(#[trigger] dec_digits(n)[i]),
        n >= 1 ==> dec_digits(n)[0] != 48,
        n == 0 ==> dec_digits(n) == seq![48u8],
    decreases n,
{
    if n < 10 {
    } else {
        lemma_dec_digits_shape(n / 10);
        let a = dec_digits(n / 10);
        let d = (48 + n % 10) as u8;
        assert(dec_digits(n) == a.push(d));
        assert(forall|i: int|
            0 <= i < a.len() ==> #[trigger] a.push(d)[i] == a[i]);
        assert(a.push(d)[a.len() as int] == d);
        assert(dec_digits(n)[0] == a[0]);
    }
}

/// The digit string of `n` evaluates back to `n`.
pub proof fn lemma_dec_digits_val(n: nat)
    ensures
        digits_val(dec_digits(n)) == n,
    decreases n,
{
    if n < 10 {
        let s = seq![(48 + n) as u8];
        assert(s.drop_last() =~= Seq::<u8>::empty());
        assert(digits_val(Seq::<u8>::empty()) == 0);
        assert(digits_val(s) == n);
    } else {
        lemma_dec_digits_val(n / 10);
        let a = dec_digits(n / 10);
        let d = (48 + n % 10) as u8;
        let s = a.push(d);
        assert(s.drop_last() =~= a);
        assert(s.last() == d);
        assert(digits_val(s) == digits_val(a) * 10 + n % 10);
        vstd::arithmetic::div_mod::lemma_fundamental_div_mod(n as int, 10);
    }
}

/// A nonempty all-digit string without a leading zero has positive value.
proof fn lemma_digits_val_pos(s: Seq<u8>)
    requires
        s.len() >= 1,
        forall|i: int| 0 <= i < s.len() ==> is_digit(#[trigger] s[i]),
        s[0] != 48,
    ensures
        digits_val(s) >= 1,
    decreases s.len(),
{
    if s.len() == 1 {
        assert(is_digit(s[0]));
    } else {
        let a = s.drop_last();
        assert(a[0] == s[0]);
        assert(forall|i: int| 0 <= i < a.len() ==> is_digit(#[trigger] a[i])) by {
            assert(forall|i: int| 0 <= i < a.len() ==> a[i] == #[trigger] s[i]);
        }
        lemma_digits_val_pos(a);
    }
}

/// A nonempty all-digit string without a leading zero is the canonical digit
/// string of its value.
pub proof fn lemma_digits_canonical(s: Seq<u8>)
    requires
        s.len() >= 1,
        forall|i: int| 0 <= i < s.len() ==> is_digit(#[trigger] s[i]),
        s.len() > 1 ==> s[0] != 48,
    ensures
        s == dec_digits(digits_val(s)),
    decreases s.len(),
{
    if s.len() == 1 {
        let v = digits_val(s);
        assert(s.drop_last() =~= Seq::<u8>::empty());
        assert(digits_val(Seq::<u8>::empty()) == 0);
        assert(v == s[0] - 48);
        assert(dec_digits(v) =~= s);
    } else {
        let a = s.drop_last();
        let d = s.last();
        assert(forall|i: int| 0 <= i < a.len() ==> a[i] == #[trigger] s[i]);
        assert(forall|i: int| 0 <= i < a.len() ==> is_digit(#[trigger] a[i])) by {
            assert(forall|i: int| 0 <= i < a.len() ==> a[i] == #[trigger] s[i]);
        }
        assert(a[0] == s[0]);
        lemma_digits_val_pos(a);
        lemma_digits_canonical(a);
        let v = digits_val(s);
        let va = digits_val(a);
        assert(v == va * 10 + (d - 48));
        assert(v >= 10) by {
            assert(va >= 1);
            assert(va * 10 >= 10) by (nonlinear_arith)
                requires
                    va >= 1,
            ;
        }
        assert(v / 10 == va && v % 10 == d - 48) by (nonlinear_arith)
            requires
                v == va * 10 + (d - 48),
                0 <= d - 48 < 10,
        ;
        assert(dec_digits(v) == dec_digits(va).push((48 + v % 10) as u8));
        assert(dec_digits(v) =~= s);
    }
}

/// The value of a prefix of an all-digit string never exceeds the whole value.
pub proof fn lemma_digits_val_prefix(s: Seq<u8>, k: int)
    requires
        0 <= k <= s.len(),
        forall|i: int| 0 <= i < s.len() ==> is_digit(#[trigger] s[i]),
    ensures
        digits_val(s.take(k)) <= digits_val(s),
    decreases s.len(),
{
    if k == s.len() {
        assert(s.take(k) =~= s);
    } else {
        let a = s.drop_last();
        assert(forall|i: int| 0 <= i < a.len() ==> a[i] == #[trigger] s[i]);
        assert(forall|i: int| 0 <= i < a.len() ==> is_digit(#[trigger] a[i])) by {
            assert(forall|i: int| 0 <= i < a.len() ==> a[i] == #[trigger] s[i]);
        }
        assert(s.take(k) =~= a.take(k));
        lemma_digits_val_prefix(a, k);
        assert(digits_val(s) == digits_val(a) * 10 + (s.last() - 48));
        assert(digits_val(a) * 10 >= digits_val(a)) by (nonlinear_arith);
        assert(is_digit(s.last()));
    }
}

/// Format a number as its canonical decimal digit string.
pub fn fmt_usize(n: usize) -> (r: Vec<u8>)
    ensures
        r@ == dec_digits(n as nat),
{
    let mut r: Vec<u8> = Vec::new();
    if n == 0 {
        r.push(48);
        proof {
            assert(r@ =~= dec_digits(0));
        }
        return r;
    }
    let mut m: usize = n;
    while m > 0
        invariant
            m > 0 ==> dec_digits(n as nat) == dec_digits(m as nat) + r@,
            m == 0 ==> dec_digits(n as nat) == r@,
        decreases m,
    {
        let d: u8 = 48 + (m % 10) as u8;
        let ghost old_r = r@;
        let ghost old_m = m as nat;
        r.insert(0, d);
        proof {
            assert(r@ =~= seq![d] + old_r);
            if old_m >= 10 {
                assert(dec_digits(old_m) == dec_digits(old_m / 10).push(d));
                assert(dec_digits(old_m) + old_r =~= dec_digits(old_m / 10) + (seq![d] + old_r));
            } else {
                assert(dec_digits(old_m) =~= seq![d]);
                assert(dec_digits(old_m) + old_r =~= seq![d] + old_r);
            }
        }
        m = m / 10;
    }
    r
}

/// Parse a region of `v` as a canonical decimal number fitting in `usize`.
pub fn parse_number(v: &Vec<u8>, from: usize, to: usize) -> (r: Option<usize>)
    requires
        from <= to <= v@.len(),
    ensures
        match r {
            Some(e) => v@.subrange(from as int, to as int) == dec_digits(e as nat),
            None => forall|e: usize| v@.subrange(from as int, to as int) != dec_digits(e as nat),
        },
{
    let ghost region = v@.subrange(from as int, to as int);
    if from == to {
        proof {
            assert forall|e: usize| region != dec_digits(e as nat) by {
                lemma_dec_digits_shape(e as nat);
            }
        }
        return None;
    }
    if to - from > 1 && v[from] == 48 {
        proof {
            assert forall|e: usize| region != dec_digits(e as nat) by {
                lemma_dec_digits_shape(e as nat);
                if region == dec_digits(e as nat) {
                    assert(region[0] == v@[from as int]);
                }
            }
        }
        return None;
    }
    let mut i: usize = from;
    let mut cur: usize = 0;
    while i < to
        invariant
            from <= i <= to <= v@.len(),
            region == v@.subrange(from as int, to as int),
            to - from > 1 ==> v@[from as int] != 48,
            from < to,
            forall|j: int| from <= j < i ==> is_digit(#[trigger] v@[j]),
            cur == digits_val(region.take(i - from)),
        decreases to - i,
    {
        let b = v[i];
        if b < 48 || b > 57 {
            proof {
                assert(region[i - from] == v@[i as int]);
                assert forall|e: usize| region != dec_digits(e as nat) by {
                    lemma_dec_digits_shape(e as nat);
                }
            }
            return None;
        }
        let d = (b - 48) as usize;
        proof {
            assert(region.take(i + 1 - from).drop_last() =~= region.take(i - from));
            assert(region.take(i + 1 - from).last() == v@[i as int]);
            assert(digits_val(region.take(i + 1 - from)) == digits_val(region.take(i - from)) * 10
                + d);
        }
        if cur > usize::MAX / 10 {
            proof {
                assert forall|e: usize| region != dec_digits(e as nat) by {
                    if region == dec_digits(e as nat) {
                        lemma_dec_digits_shape(e as nat);
                        lemma_dec_digits_val(e as nat);
                        lemma_digits_val_prefix(region, i + 1 - from);
                        assert(cur * 10 <= digits_val(region.take(i + 1 - from)));
                        assert(digits_val(region) == e as nat);
                        assert(cur * 10 <= e as nat);
                        assert(cur <= usize::MAX / 10) by (nonlinear_arith)
                            requires
                                cur * 10 <= usize::MAX,
                        ;
                    }
                }
            }
            return None;
        }
        let next = cur * 10;
        if next > usize::MAX - d {
            proof {
                assert forall|e: usize| region != dec_digits(e as nat) by {
                    if region == dec_digits(e as nat) {
                        lemma_dec_digits_shape(e as nat);
                        lemma_dec_digits_val(e as nat);
                        lemma_digits_val_prefix(region, i + 1 - from);
                        assert(cur * 10 + d <= digits_val(region));
                        assert(digits_val(region) == e as nat);
                    }
                }
            }
            return None;
        }
        cur = next + d;
        i += 1;
    }
    proof {
        assert(region.take(to - from) =~= region);
        assert(forall|j: int| 0 <= j < region.len() ==> region[j] == #[trigger] v@[from + j]);
        assert(forall|j: int| 0 <= j < region.len() ==> is_digit(#[trigger] region[j]));
        if region.len() > 1 {
            assert(region[0] == v@[from as int]);
        }
        lemma_digits_canonical(region);
    }
    Some(cur)
}

} // verus!
