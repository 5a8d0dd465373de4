use vstd::prelude::*;
use vstd::slice::slice_subrange;
use vstd::string::StringSliceAdditionalSpecFns;

verus! {

/// True when `sub` occurs in `hay` starting at byte offset `at`.
pub open spec fn matches_at(hay: Seq<u8>, sub: Seq<u8>, at: int) -> bool {
    &&& 0 <= at
    &&& at + sub.len() <= hay.len()
    &&& hay.subrange(at, at + sub.len()) == sub
}

/// True when `sub` occurs somewhere in `hay`.
pub open spec fn contains_seq(hay: Seq<u8>, sub: Seq<u8>) -> bool {
    exists|at: int| matches_at(hay, sub, at)
}

/// Byte-for-byte equality of two slices.
pub fn bytes_eq(a: &[u8], b: &[u8]) -> (r: bool)
    ensures
        r <==> a@ == b@,
{
    if a.len() != b.len() {
        assert(a@.len() != b@.len());
        return false;
    }
    let mut i: usize = 0;
    while i < a.len()
        invariant
            0 <= i <= a@.len(),
            a@.len() == b@.len(),
            forall|j: int| 0 <= j < i ==> a@[j] == b@[j],
        decreases a@.len() - i,
    {
        if a[i] != b[i] {
            return false;
        }
        i += 1;
    }
    assert(a@ =~= b@);
    true
}

/// True when `p` is a prefix of `a`.
pub fn starts_with(a: &[u8], p: &[u8]) -> (r: bool)
    ensures
        r <==> p@.is_prefix_of(a@),
{
    if p.len() > a.len() {
        return false;
    }
    let front = slice_subrange(a, 0, p.len());
    let r = bytes_eq(front, p);
    proof {
        assert(front@ == a@.subrange(0, p@.len() as int));
        assert(p@.is_prefix_of(a@) <==> a@.subrange(0, p@.len() as int) == p@);
    }
    r
}

/// True when `s` is a suffix of `a`.
pub fn ends_with(a: &[u8], s: &[u8]) -> (r: bool)
    ensures
        r <==> s@.is_suffix_of(a@),
{
    if s.len() > a.len() {
        return false;
    }
    let back = slice_subrange(a, a.len() - s.len(), a.len());
    let r = bytes_eq(back, s);
    proof {
        assert(back@ == a@.subrange(a@.len() - s@.len(), a@.len() as int));
        assert(s@.is_suffix_of(a@) <==> a@.subrange(a@.len() - s@.len(), a@.len() as int)
            == s@);
    }
    r
}

/// Whether `sub` occurs in `hay` starting at `at` (bounds already in range).
fn check_match(hay: &[u8], sub: &[u8], at: usize) -> (r: bool)
    requires
        at + sub@.len() <= hay@.len(),
        hay@.len() <= usize::MAX,
    ensures
        r <==> matches_at(hay@, sub@, at as int),
{
    let piece = slice_subrange(hay, at, at + sub.len());
    bytes_eq(piece, sub)
}

/// Whether `sub` occurs anywhere in `hay`.
pub fn contains_sub(hay: &[u8], sub: &[u8]) -> (r: bool)
    ensures
        r <==> contains_seq(hay@, sub@),
{
    if sub.len() == 0 {
        proof {
            assert(hay@.subrange(0, 0) =~= sub@);
            assert(matches_at(hay@, sub@, 0));
        }
        return true;
    }
    if sub.len() > hay.len() {
        return false;
    }
    let mut i: usize = 0;
    while i <= hay.len() - sub.len()
        invariant
            1 <= sub@.len() <= hay@.len(),
            0 <= i <= hay@.len() - sub@.len() + 1,
            forall|at: int| 0 <= at < i ==> !matches_at(hay@, sub@, at),
        decreases hay@.len() - i,
    {
        if check_match(hay, sub, i) {
            return true;
        }
        i += 1;
    }
    assert forall|at: int| !matches_at(hay@, sub@, at) by {
        if 0 <= at && at + sub@.len() <= hay@.len() {
            assert(at < i);
        }
    }
    false
}

/// The position of the first occurrence of `sub` in `hay`, if there is one.
pub fn find_sub(hay: &[u8], sub: &[u8]) -> (r: Option<usize>)
    ensures
        match r {
            Some(at) => matches_at(hay@, sub@, at as int) && forall|j: int|
                0 <= j < at ==> !matches_at(hay@, sub@, j),
            None => !contains_seq(hay@, sub@),
        },
{
    if sub.len() == 0 {
        proof {
            assert(hay@.subrange(0, 0) =~= sub@);
            assert(matches_at(hay@, sub@, 0));
        }
        return Some(0);
    }
    if sub.len() > hay.len() {
        return None;
    }
    let mut i: usize = 0;
    while i <= hay.len() - sub.len()
        invariant
            1 <= sub@.len() <= hay@.len(),
            0 <= i <= hay@.len() - sub@.len() + 1,
            forall|at: int| 0 <= at < i ==> !matches_at(hay@, sub@, at),
        decreases hay@.len() - i,
    {
        if check_match(hay, sub, i) {
            return Some(i);
        }
        i += 1;
    }
    assert forall|at: int| !matches_at(hay@, sub@, at) by {
        if 0 <= at && at + sub@.len() <= hay@.len() {
            assert(at < i);
        }
    }
    None
}

/// A byte mapped to its ASCII lower-case form.
pub open spec fn lower_byte(b: u8) -> u8 {
    if 65 <= b <= 90 {
        (b + 32) as u8
    } else {
        b
    }
}

/// A byte sequence mapped to its ASCII lower-case form.
pub open spec fn lower_seq(s: Seq<u8>) -> Seq<u8> {
    Seq::new(s.len(), |i: int| lower_byte(s[i]))
}

/// ASCII lower-casing of a byte string.
pub fn ascii_lower(v: &[u8]) -> (r: Vec<u8>)
    ensures
        r@ == lower_seq(v@),
{
    let mut out: Vec<u8> = Vec::new();
    let mut i: usize = 0;
    while i < v.len()
        invariant
            0 <= i <= v@.len(),
            out@ == lower_seq(v@).take(i as int),
        decreases v@.len() - i,
    {
        let b = v[i];
        if 65 <= b && b <= 90 {
            out.push(b + 32);
        } else {
            out.push(b);
        }
        proof {
            assert(out@ =~= lower_seq(v@).take(i as int + 1));
        }
        i += 1;
    }
    proof {
        assert(lower_seq(v@).take(v@.len() as int) =~= lower_seq(v@));
    }
    out
}

/// The decimal digits of `n`, most significant first.
pub open spec fn dec_of(n: int) -> Seq<u8>
    decreases n,
{
    if n < 10 {
        seq![(48 + n) as u8]
    } else {
        dec_of(n / 10) + seq![(48 + n % 10) as u8]
    }
}

/// `n` written in decimal.
pub fn u64_to_dec(n: u64) -> (r: Vec<u8>)
    ensures
        r@ == dec_of(n as int),
{
    let mut rev: Vec<u8> = Vec::new();
    let mut m: u64 = n;
    loop
        invariant_except_break
            dec_of(n as int) == if m < 10 {
                seq![(48 + m) as u8] + rev@.reverse()
            } else {
                dec_of(m as int / 10) + seq![(48 + m % 10) as u8] + rev@.reverse()
            },
        ensures
            dec_of(n as int) == rev@.reverse(),
        decreases m,
    {
        if m < 10 {
            rev.push(48 + m as u8);
            proof {
                assert(seq![(48 + m) as u8] + rev@.drop_last().reverse() =~= rev@.reverse());
            }
            break;
        }
        rev.push(48 + (m % 10) as u8);
        proof {
            assert(seq![(48 + m % 10) as u8] + rev@.drop_last().reverse() =~= rev@.reverse());
            if m / 10 < 10 {
                assert(dec_of(m as int / 10) + seq![(48 + m % 10) as u8]
                    + rev@.drop_last().reverse() =~= seq![(48 + (m / 10)) as u8] + rev@.reverse());
            } else {
                assert(dec_of(m as int / 10 / 10) + seq![(48 + (m / 10) % 10) as u8] + seq![(48
                    + m % 10) as u8] + rev@.drop_last().reverse() =~= dec_of(m as int / 10 / 10)
                    + seq![(48 + (m / 10) % 10) as u8] + rev@.reverse());
            }
        }
        m = m / 10;
    }
    let mut out: Vec<u8> = Vec::new();
    let mut i: usize = rev.len();
    while i > 0
        invariant
            0 <= i <= rev@.len(),
            out@ == rev@.reverse().take(rev@.len() - i),
        decreases i,
    {
        i -= 1;
        out.push(rev[i]);
        proof {
            assert(out@ =~= rev@.reverse().take(rev@.len() - i));
        }
    }
    proof {
        assert(rev@.reverse().take(rev@.len() as int) =~= rev@.reverse());
        assert(out@ == dec_of(n as int));
    }
    out
}

/// Appends all of `src` to `dst`.
pub fn push_all(dst: &mut Vec<u8>, src: &[u8])
    ensures
        final(dst)@ == old(dst)@ + src@,
{
    let mut i: usize = 0;
    while i < src.len()
        invariant
            0 <= i <= src@.len(),
            dst@ == old(dst)@ + src@.take(i as int),
        decreases src@.len() - i,
    {
        dst.push(src[i]);
        proof {
            assert(dst@ =~= old(dst)@ + src@.take(i as int + 1));
        }
        i += 1;
    }
    proof {
        assert(old(dst)@ + src@.take(src@.len() as int) =~= old(dst)@ + src@);
    }
}

/// A string literal's bytes as an owned vector.
pub fn bytes_of(s: &str) -> (r: Vec<u8>)
    ensures
        r@ == s.spec_bytes(),
{
    vstd::slice::slice_to_vec(s.as_bytes())
}

/// True when `b` is an ASCII whitespace byte.
pub open spec fn is_ws(b: u8) -> bool {
    b == 9 || b == 10 || b == 13 || b == 32
}

/// `s` with leading whitespace removed.
pub open spec fn trim_front_spec(s: Seq<u8>) -> Seq<u8>
    decreases s.len(),
{
    if s.len() > 0 && is_ws(s[0]) {
        trim_front_spec(s.drop_first())
    } else {
        s
    }
}

/// `s` with trailing whitespace removed.
pub open spec fn trim_back_spec(s: Seq<u8>) -> Seq<u8>
    decreases s.len(),
{
    if s.len() > 0 && is_ws(s[s.len() - 1]) {
        trim_back_spec(s.drop_last())
    } else {
        s
    }
}

/// `s` with leading and trailing ASCII whitespace removed.
pub open spec fn trim_spec(s: Seq<u8>) -> Seq<u8> {
    trim_back_spec(trim_front_spec(s))
}

fn is_ws_byte(b: u8) -> (r: bool)
    ensures
        r == is_ws(b),
{
    b == 9 || b == 10 || b == 13 || b == 32
}

/// The slice with leading and trailing ASCII whitespace removed.
pub fn trim_ascii<'a>(v: &'a [u8]) -> (r: &'a [u8])
    ensures
        r@ == trim_spec(v@),
{
    let mut lo: usize = 0;
    proof {
        assert(v@.skip(0) =~= v@);
    }
    while lo < v.len() && is_ws_byte(v[lo])
        invariant
            0 <= lo <= v@.len(),
            trim_front_spec(v@) == trim_front_spec(v@.skip(lo as int)),
        decreases v@.len() - lo,
    {
        proof {
            assert(v@.skip(lo as int).drop_first() =~= v@.skip(lo as int + 1));
        }
        lo += 1;
    }
    proof {
        assert(trim_front_spec(v@.skip(lo as int)) == v@.skip(lo as int));
    }
    let mut hi: usize = v.len();
    proof {
        assert(v@.subrange(lo as int, v@.len() as int) =~= v@.skip(lo as int));
    }
    while hi > lo && is_ws_byte(v[hi - 1])
        invariant
            lo <= hi <= v@.len(),
            trim_front_spec(v@) == v@.skip(lo as int),
            trim_back_spec(v@.skip(lo as int)) == trim_back_spec(v@.subrange(lo as int, hi as int)),
        decreases hi,
    {
        proof {
            assert(v@.subrange(lo as int, hi as int).drop_last() =~= v@.subrange(
                lo as int,
                hi as int - 1,
            ));
        }
        hi -= 1;
    }
    proof {
        assert(trim_back_spec(v@.subrange(lo as int, hi as int)) == v@.subrange(
            lo as int,
            hi as int,
        ));
    }
    slice_subrange(v, lo, hi)
}

} // verus!
