//! Byte-level utilities shared by the protocol modules: ASCII literals as byte
//! vectors, byte-sequence comparison, and decimal rendering/parsing.
use vstd::prelude::*;

verus! {

use vstd::string::StrSliceExecFns;
use vstd::string::is_ascii;
use vstd::string::is_ascii_spec_bytes;

/// The bytes of an ASCII character sequence, one byte per character.
pub open spec fn lit(s: Seq<char>) -> Seq<u8> {
    Seq::new(s.len(), |i: int| s[i] as u8)
}

/// Turns an ASCII string into its byte vector.
pub fn ascii_lit(s: &str) -> (r: Vec<u8>)
    requires
        is_ascii(s),
    ensures
        r@ == lit(s@),
{
    let r = s.as_bytes_vec();
    proof {
        is_ascii_spec_bytes(s);
        assert(r@ =~= lit(s@));
    }
    r
}

/// True when the byte sequence spells exactly the ASCII string `s`.
pub fn line_is(line: &Vec<u8>, s: &str) -> (r: bool)
    requires
        is_ascii(s),
    ensures
        r == (line@ == lit(s@)),
{
    let b = s.as_bytes();
    proof {
        is_ascii_spec_bytes(s);
    }
    if line.len() != b.len() {
        proof {
            assert(line@ != lit(s@)) by {
                assert(line@.len() != lit(s@).len());
            }
        }
        return false;
    }
    let n = line.len();
    let mut i: usize = 0;
    while i < n
        invariant
            n == line@.len() == b@.len(),
            b@ =~= lit(s@),
            i <= n,
            forall|j: int| 0 <= j < i ==> line@[j] == b@[j],
        decreases n - i,
    {
        if line[i] != b[i] {
            proof {
                assert(line@ != lit(s@)) by {
                    assert(line@[i as int] != lit(s@)[i as int]);
                }
            }
            return false;
        }
        i += 1;
    }
    proof {
        assert(line@ =~= lit(s@));
    }
    true
}

/// True when the two byte vectors hold the same bytes.
pub fn bytes_eq(a: &Vec<u8>, b: &Vec<u8>) -> (r: bool)
    ensures
        r == (a@ == b@),
{
    if a.len() != b.len() {
        proof {
            assert(a@ != b@) by {
                assert(a@.len() != b@.len());
            }
        }
        return false;
    }
    let n = a.len();
    let mut i: usize = 0;
    while i < n
        invariant
            n == a@.len() == b@.len(),
            i <= n,
            forall|j: int| 0 <= j < i ==> a@[j] == b@[j],
        decreases n - i,
    {
        if a[i] != b[i] {
            return false;
        }
        i += 1;
    }
    proof {
        assert(a@ =~= b@);
    }
    true
}

/// True when the byte sequence begins with the ASCII string `s`; the remainder
/// after the prefix is then `line@.skip(s@.len())`.
pub fn starts_with(line: &Vec<u8>, s: &str) -> (r: bool)
    requires
        is_ascii(s),
    ensures
        r == (line@.len() >= s@.len() && line@.take(s@.len() as int) == lit(s@)),
{
    let b = s.as_bytes();
    proof {
        is_ascii_spec_bytes(s);
        assert(b@ =~= lit(s@));
    }
    if line.len() < b.len() {
        return false;
    }
    let n = b.len();
    let mut i: usize = 0;
    while i < n
        invariant
            n == b@.len() <= line@.len(),
            b@ =~= lit(s@),
            i <= n,
            forall|j: int| 0 <= j < i ==> line@[j] == b@[j],
        decreases n - i,
    {
        if line[i] != b[i] {
            proof {
                assert(line@.take(s@.len() as int) != lit(s@)) by {
                    assert(line@.take(s@.len() as int)[i as int] != lit(s@)[i as int]);
                }
            }
            return false;
        }
        i += 1;
    }
    proof {
        assert(line@.take(s@.len() as int) =~= lit(s@));
    }
    true
}

/// Copies `src` wholly onto the end of `dst`.
pub fn push_all(dst: &mut Vec<u8>, src: &Vec<u8>)
    ensures
        final (dst)@ == old(dst)@ + src@,
{
    let n = src.len();
    let mut i: usize = 0;
    while i < n
        invariant
            n == src@.len(),
            i <= n,
            dst@ == old(dst)@ + src@.take(i as int),
        decreases n - i,
    {
        dst.push(src[i]);
        proof {
            assert(dst@ =~= old(dst)@ + src@.take(i + 1 as int));
        }
        i += 1;
    }
    proof {
        assert(old(dst)@ + src@.take(n as int) =~= old(dst)@ + src@);
    }
}

/// The decimal digits of `n`, most significant first.
pub open spec fn dec_digits(n: nat) -> Seq<u8>
    decreases n,
{
    if n < 10 {
        seq![(0x30 + n) as u8]
    } else {
        dec_digits(n / 10) + seq![(0x30 + n % 10) as u8]
    }
}

/// Renders `n` in decimal, most significant digit first.
pub fn u64_dec(n: u64) -> (r: Vec<u8>)
    ensures
        r@ == dec_digits(n as nat),
    decreases n,
{
    if n < 10 {
        let mut r: Vec<u8> = Vec::new();
        r.push(0x30 + (n as u8));
        proof {
            assert(r@ =~= dec_digits(n as nat));
        }
        r
    } else {
        let mut r = u64_dec(n / 10);
        r.push(0x30 + ((n % 10) as u8));
        proof {
            assert(r@ =~= dec_digits(n as nat));
        }
        r
    }
}

/// The numeric value of a digit string, read most significant digit first.
pub open spec fn dec_val(s: Seq<u8>) -> nat
    decreases s.len(),
{
    if s.len() == 0 {
        0
    } else {
        dec_val(s.drop_last()) * 10 + (s.last() - 0x30) as nat
    }
}

/// True when every byte of `s` is an ASCII decimal digit and `s` is nonempty.
pub open spec fn all_digits(s: Seq<u8>) -> bool {
    s.len() > 0 && forall|i: int| 0 <= i < s.len() ==> 0x30 <= #[trigger] s[i] <= 0x39
}

/// An unsigned decimal parse: `Some(v)` exactly when `s` is a nonempty digit
/// string whose value fits below 1_000_000_000; `None` otherwise.
pub open spec fn spec_parse_u64(s: Seq<u8>) -> Option<u64> {
    if all_digits(s) && dec_val(s) < 1000000000 {
        Some(dec_val(s) as u64)
    } else {
        None
    }
}

/// Parses a nonempty decimal digit string; rejects any other byte, an empty
/// input, and values of a thousand million or more.
pub fn parse_u64(s: &Vec<u8>) -> (r: Option<u64>)
    ensures
        r == spec_parse_u64(s@),
{
    if s.len() == 0 {
        return None;
    }
    let n = s.len();
    let mut v: u64 = 0;
    let mut i: usize = 0;
    while i < n
        invariant
            n == s@.len(),
            i <= n,
            forall|j: int| 0 <= j < i ==> 0x30 <= #[trigger] s@[j] <= 0x39,
            v == dec_val(s@.take(i as int)),
            v < 1000000000,
        decreases n - i,
    {
        let b = s[i];
        if b < 0x30 || b > 0x39 {
            proof {
                assert(!all_digits(s@));
            }
            return None;
        }
        let d = (b - 0x30) as u64;
        let next = v * 10 + d;
        if next >= 1000000000 {
            proof {
                assert(s@.take(i + 1 as int).drop_last() =~= s@.take(i as int));
                assert(dec_val(s@.take(i + 1 as int)) >= 1000000000);
                if all_digits(s@) {
                    lemma_take_prefix_dec_val(s@, i as int + 1);
                }
            }
            return None;
        }
        v = next;
        proof {
            assert(s@.take(i + 1 as int).drop_last() =~= s@.take(i as int));
        }
        i += 1;
    }
    proof {
        assert(s@.take(n as int) =~= s@);
    }
    Some(v)
}

/// The value of a digit string never falls when more digits follow.
proof fn lemma_take_prefix_dec_val(s: Seq<u8>, i: int)
    requires
        0 <= i <= s.len(),
        all_digits(s),
    ensures
        dec_val(s.take(i)) <= dec_val(s),
    decreases s.len() - i,
{
    if i < s.len() {
        lemma_take_prefix_dec_val(s, i + 1);
        assert(s.take(i + 1).drop_last() =~= s.take(i));
        assert(dec_val(s.take(i)) <= dec_val(s.take(i + 1))) by {
            assert(dec_val(s.take(i + 1)) == dec_val(s.take(i)) * 10 + (s[i] - 0x30) as nat);
        }
    } else {
        assert(s.take(i) =~= s);
    }
}

/// A signed decimal parse: an optional leading minus sign before the digits.
pub open spec fn spec_parse_i64(s: Seq<u8>) -> Option<i64> {
    if s.len() > 0 && s[0] == 0x2d {
        match spec_parse_u64(s.skip(1)) {
            Some(v) => Some((-(v as int)) as i64),
            None => None,
        }
    } else {
        match spec_parse_u64(s) {
            Some(v) => Some(v as i64),
            None => None,
        }
    }
}

/// Parses an optionally minus-signed decimal integer.
pub fn parse_i64(s: &Vec<u8>) -> (r: Option<i64>)
    ensures
        r == spec_parse_i64(s@),
{
    if s.len() > 0 && s[0] == 0x2d {
        let rest = subrange_vec(s, 1, s.len());
        proof {
            assert(rest@ =~= s@.skip(1));
        }
        match parse_u64(&rest) {
            Some(v) => Some(-(v as i64)),
            None => None,
        }
    } else {
        match parse_u64(s) {
            Some(v) => Some(v as i64),
            None => None,
        }
    }
}

/// Finds the first occurrence of `b` in `s`.
pub fn find_byte(s: &Vec<u8>, b: u8) -> (r: Option<usize>)
    ensures
        match r {
            Some(i) => 0 <= i < s@.len() && s@[i as int] == b && (forall|j: int|
                0 <= j < i ==> s@[j] != b),
            None => forall|j: int| 0 <= j < s@.len() ==> s@[j] != b,
        },
{
    let n = s.len();
    let mut i: usize = 0;
    while i < n
        invariant
            n == s@.len(),
            i <= n,
            forall|j: int| 0 <= j < i ==> s@[j] != b,
        decreases n - i,
    {
        if s[i] == b {
            return Some(i);
        }
        i += 1;
    }
    None
}

/// A fresh copy of a byte vector.
pub fn copy_vec(s: &Vec<u8>) -> (r: Vec<u8>)
    ensures
        r@ == s@,
{
    let r = subrange_vec(s, 0, s.len());
    proof {
        assert(s@.subrange(0, s@.len() as int) =~= s@);
    }
    r
}

/// The bytes of `s` from `from` (inclusive) to `to` (exclusive).
pub fn subrange_vec(s: &Vec<u8>, from: usize, to: usize) -> (r: Vec<u8>)
    requires
        from <= to <= s@.len(),
    ensures
        r@ == s@.subrange(from as int, to as int),
{
    let mut r: Vec<u8> = Vec::new();
    let mut i: usize = from;
    while i < to
        invariant
            from <= i <= to <= s@.len(),
            r@ == s@.subrange(from as int, i as int),
        decreases to - i,
    {
        r.push(s[i]);
        proof {
            assert(r@ =~= s@.subrange(from as int, i + 1 as int));
        }
        i += 1;
    }
    r
}

} // verus!
