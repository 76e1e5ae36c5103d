use vstd::prelude::*;

verus! {

/// The bytes of an ASCII string, one byte per character.
pub open spec fn ascii_of(s: Seq<char>) -> Seq<u8> {
    Seq::new(s.len(), |i: int| s[i] as u8)
}

/// Bytes allowed in a token's text fields: printable ASCII without the two
/// JSON string delimiters (quote and backslash), so the field embeds in a
/// JSON string literal unchanged.
pub open spec fn jtext_wf(s: Seq<u8>) -> bool {
    forall|i: int| 0 <= i < s.len() ==> 32 <= #[trigger] s[i] && s[i] < 127 && s[i] != 34 && s[i] != 92
}

/// Copy of `v[from..to]`.
pub fn sub_vec(v: &Vec<u8>, from: usize, to: usize) -> (r: Vec<u8>)
    requires
        from <= to <= v@.len(),
    ensures
        r@ == v@.subrange(from as int, to as int),
{
    let mut r: Vec<u8> = Vec::new();
    let mut i: usize = from;
    while i < to
        invariant
            from <= i <= to <= v@.len(),
            r@ == v@.subrange(from as int, i as int),
        decreases to - i,
    {
        r.push(v[i]);
        proof {
            assert(v@.subrange(from as int, (i + 1) as int) == v@.subrange(
                from as int,
                i as int,
            ).push(v@[i as int]));
        }
        i += 1;
    }
    r
}

/// Append all of `src` to `dst`.
pub fn push_all(dst: &mut Vec<u8>, src: &Vec<u8>)
    ensures
        final(dst)@ == old(dst)@ + src@,
{
    let mut i: usize = 0;
    while i < src.len()
        invariant
            i <= src@.len(),
            dst@ == old(dst)@ + src@.subrange(0, i as int),
        decreases src@.len() - i,
    {
        dst.push(src[i]);
        proof {
            assert(old(dst)@ + src@.subrange(0, (i + 1) as int) == (old(dst)@ + src@.subrange(
                0,
                i as int,
            )).push(src@[i as int]));
        }
        i += 1;
    }
    proof {
        assert(src@.subrange(0, src@.len() as int) == src@);
    }
}

/// Find the first occurrence of `b` at or after `from`.
pub fn find_byte(v: &Vec<u8>, from: usize, b: u8) -> (r: Option<usize>)
    requires
        from <= v@.len(),
    ensures
        match r {
            Some(q) => from <= q < v@.len() && v@[q as int] == b && forall|j: int|
                from <= j < q ==> v@[j] != b,
            None => forall|j: int| from <= j < v@.len() ==> v@[j] != b,
        },
{
    let mut i: usize = from;
    while i < v.len()
        invariant
            from <= i <= v@.len(),
            forall|j: int| from <= j < i ==> v@[j] != b,
        decreases v@.len() - i,
    {
        if v[i] == b {
            return Some(i);
        }
        i += 1;
    }
    None
}

/// Byte-wise equality of two vectors.
pub fn bytes_eq(a: &Vec<u8>, b: &Vec<u8>) -> (r: bool)
    ensures
        r == (a@ == b@),
{
    if a.len() != b.len() {
        proof {
            assert(a@ != b@);
        }
        return false;
    }
    let mut i: usize = 0;
    while i < a.len()
        invariant
            i <= a@.len(),
            a@.len() == b@.len(),
            forall|j: int| 0 <= j < i ==> a@[j] == b@[j],
        decreases a@.len() - i,
    {
        if a[i] != b[i] {
            return false;
        }
        i += 1;
    }
    proof {
        assert(a@ =~= b@);
    }
    true
}

/// Relies on `String::from_utf8`: bytes below 128 are valid UTF-8 and decode
/// to one character per byte, each with the byte's code point.
#[verifier::external_body]
pub fn ascii_string(v: Vec<u8>) -> (r: String)
    requires
        forall|i: int| 0 <= i < v@.len() ==> v@[i] < 128,
    ensures
        r@.len() == v@.len(),
        forall|i: int| 0 <= i < v@.len() ==> r@[i] == v@[i] as char,
{
    String::from_utf8(v).unwrap()
}

/// `ascii_of` inverts the character view given by `ascii_string`.
pub proof fn lemma_ascii_of_roundtrip(s: Seq<char>, v: Seq<u8>)
    requires
        s.len() == v.len(),
        forall|i: int| 0 <= i < v.len() ==> s[i] == v[i] as char,
        forall|i: int| 0 <= i < v.len() ==> v[i] < 128,
    ensures
        ascii_of(s) == v,
{
    assert(ascii_of(s) =~= v);
}

} // verus!
