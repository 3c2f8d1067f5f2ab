use vstd::prelude::*;
use vstd::utf8::{
    decode_utf8_split, encode_utf8, encode_utf8_decode_utf8, encode_utf8_valid_utf8, is_char_boundary, is_char_boundary_iff_not_is_continuation_byte,
    is_char_boundary_start_end_of_seq, length_of_first_scalar, pop_first_scalar, valid_utf8,
    valid_utf8_split,
};

verus! {

pub open spec fn seq_starts_with(s: Seq<u8>, p: Seq<u8>) -> bool {
    p.len() <= s.len() && s.subrange(0, p.len() as int) == p
}

pub open spec fn seq_ends_with(s: Seq<u8>, p: Seq<u8>) -> bool {
    p.len() <= s.len() && s.subrange(s.len() - p.len(), s.len() as int) == p
}

pub open spec fn occurs_at(s: Seq<u8>, p: Seq<u8>, k: int) -> bool {
    0 <= k && k + p.len() <= s.len() && s.subrange(k, k + p.len()) == p
}

pub open spec fn seq_contains(s: Seq<u8>, p: Seq<u8>) -> bool {
    exists|k: int| occurs_at(s, p, k)
}

/// Whether `p` stands in `s` at byte `k`.
pub fn bytes_occur_at(s: &[u8], p: &[u8], k: usize) -> (r: bool)
    ensures
        r == occurs_at(s@, p@, k as int),
{
    if k > s.len() || p.len() > s.len() - k {
        return false;
    }
    let mut j: usize = 0;
    while j < p.len()
        invariant
            j <= p@.len(),
            k + p.len() <= s.len(),
            forall|m: int| 0 <= m < j ==> s@[k + m] == p@[m],
        decreases p@.len() - j,
    {
        if s[k + j] != p[j] {
            assert(s@.subrange(k as int, k + p@.len())[j as int] != p@[j as int]);
            return false;
        }
        j = j + 1;
    }
    assert(s@.subrange(k as int, k + p@.len()) =~= p@);
    true
}

pub fn bytes_starts_with(s: &[u8], p: &[u8]) -> (r: bool)
    ensures
        r == seq_starts_with(s@, p@),
{
    bytes_occur_at(s, p, 0)
}

pub fn bytes_ends_with(s: &[u8], p: &[u8]) -> (r: bool)
    ensures
        r == seq_ends_with(s@, p@),
{
    if p.len() > s.len() {
        return false;
    }
    bytes_occur_at(s, p, s.len() - p.len())
}

pub fn bytes_eq(s: &[u8], p: &[u8]) -> (r: bool)
    ensures
        r == (s@ == p@),
{
    let r = s.len() == p.len() && bytes_occur_at(s, p, 0);
    proof {
        if s@.len() == p@.len() {
            assert(s@.subrange(0, p@.len() as int) =~= s@);
        }
    }
    r
}

pub fn bytes_contain(s: &[u8], p: &[u8]) -> (r: bool)
    ensures
        r == seq_contains(s@, p@),
{
    if p.len() == 0 {
        assert(s@.subrange(0, 0) =~= p@);
        assert(occurs_at(s@, p@, 0));
        return true;
    }
    if p.len() > s.len() {
        return false;
    }
    let last = s.len() - p.len();
    let mut k: usize = 0;
    while k <= last
        invariant
            last == s.len() - p.len(),
            p@.len() > 0,
            k <= last + 1,
            forall|m: int| 0 <= m < k ==> !occurs_at(s@, p@, m),
        decreases last + 1 - k,
    {
        if bytes_occur_at(s, p, k) {
            return true;
        }
        k = k + 1;
    }
    false
}


/// In valid UTF-8, a cut next to an ASCII byte is a character boundary.
pub proof fn lemma_ascii_boundary(b: Seq<u8>, k: int)
    requires
        valid_utf8(b),
        0 <= k <= b.len(),
        k == 0 || k == b.len() || b[k] < 128 || b[k - 1] < 128,
    ensures
        is_char_boundary(b, k),
{
    is_char_boundary_start_end_of_seq(b);
    if 0 < k < b.len() {
        is_char_boundary_iff_not_is_continuation_byte(b, k);
        if b[k - 1] < 128 && !(b[k] < 128) {
            is_char_boundary_iff_not_is_continuation_byte(b, k - 1);
            valid_utf8_split(b, k - 1);
            let c = b.subrange(k - 1, b.len() as int);
            assert(length_of_first_scalar(c) == 1);
            let rest = pop_first_scalar(c);
            assert(rest =~= b.subrange(k, b.len() as int));
            assert(valid_utf8(rest));
            is_char_boundary_iff_not_is_continuation_byte(rest, 0);
            assert(rest[0] == b[k]);
        }
    }
}

/// Splits `s` at byte `k`, next to an ASCII byte.
pub fn split_str<'a>(s: &'a str, k: usize) -> (r: (&'a str, &'a str))
    requires
        k <= encode_utf8(s@).len(),
        k == 0 || k == encode_utf8(s@).len() || encode_utf8(s@)[k as int] < 128
            || encode_utf8(s@)[k - 1] < 128,
    ensures
        encode_utf8(r.0@) == encode_utf8(s@).subrange(0, k as int),
        encode_utf8(r.1@) == encode_utf8(s@).subrange(k as int, encode_utf8(s@).len() as int),
        s@ == r.0@ + r.1@,
{
    proof {
        encode_utf8_valid_utf8(s@);
        lemma_ascii_boundary(encode_utf8(s@), k as int);
    }
    let r = s.split_at(k);
    proof {
        let b = encode_utf8(s@);
        decode_utf8_split(b, k as int);
        encode_utf8_decode_utf8(s@);
        encode_utf8_decode_utf8(r.0@);
        encode_utf8_decode_utf8(r.1@);
    }
    r
}

} // verus!
