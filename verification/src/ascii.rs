//! Byte-level ASCII helpers shared by the grammar, the serializer and the
//! dispatcher: case folding, literal byte strings, equality tests, and
//! decimal rendering and parsing of unsigned integers.
use vstd::prelude::*;

verus! {

pub const CR: u8 = 13;

pub const LF: u8 = 10;

pub const SP: u8 = 32;

pub const COLON: u8 = 58;

/// The ASCII lower-case image of a byte: letters `A`..`Z` map to `a`..`z`,
/// every other byte is unchanged.
pub open spec fn spec_lower(b: u8) -> u8 {
    if 65 <= b && b <= 90 {
        (b + 32) as u8
    } else {
        b
    }
}

/// A byte string folded to ASCII lower case.
pub open spec fn lower_seq(s: Seq<u8>) -> Seq<u8> {
    s.map_values(|b: u8| spec_lower(b))
}

/// Two byte strings are equal up to ASCII case.
pub open spec fn ci_eq(a: Seq<u8>, b: Seq<u8>) -> bool {
    lower_seq(a) == lower_seq(b)
}

/// The bytes of an ASCII character sequence, character by character.
pub open spec fn ascii_seq(s: Seq<char>) -> Seq<u8> {
    Seq::new(s.len(), |i: int| s[i] as u8)
}

pub fn ascii_to_lower(b: u8) -> (r: u8)
    ensures
        r == spec_lower(b),
{
    if 65 <= b && b <= 90 {
        b + 32
    } else {
        b
    }
}

/// The bytes of an ASCII string literal, as a fresh vector.
pub fn lit_bytes(s: &str) -> (r: Vec<u8>)
    requires
        s.is_ascii(),
    ensures
        r@ == ascii_seq(s@),
{
    let b = s.as_bytes();
    proof {
        vstd::string::is_ascii_spec_bytes(s);
        assert(b@ =~= ascii_seq(s@));
    }
    vstd::slice::slice_to_vec(b)
}

/// Exact byte equality of two slices.
pub fn bytes_eq(a: &[u8], b: &[u8]) -> (r: bool)
    ensures
        r == (a@ == b@),
{
    if a.len() != b.len() {
        proof {
            assert(a@ != b@);
        }
        return false;
    }
    let n = a.len();
    let mut i: usize = 0;
    while i < n
        invariant
            n == a@.len() == b@.len(),
            i <= n,
            forall|j: int| 0 <= j < i ==> a@[j] == b@[j],
        decreases n - i,
    {
        if *vstd::slice::slice_index_get(a, i) != *vstd::slice::slice_index_get(b, i) {
            proof {
                assert(a@[i as int] != b@[i as int]);
            }
            return false;
        }
        i += 1;
    }
    proof {
        assert(a@ =~= b@);
    }
    true
}

/// Byte equality of two slices up to ASCII case.
pub fn bytes_eq_ci(a: &[u8], b: &[u8]) -> (r: bool)
    ensures
        r == ci_eq(a@, b@),
{
    if a.len() != b.len() {
        proof {
            assert(lower_seq(a@).len() != lower_seq(b@).len());
        }
        return false;
    }
    let n = a.len();
    let mut i: usize = 0;
    while i < n
        invariant
            n == a@.len() == b@.len(),
            i <= n,
            forall|j: int| 0 <= j < i ==> spec_lower(a@[j]) == spec_lower(b@[j]),
        decreases n - i,
    {
        let x = ascii_to_lower(*vstd::slice::slice_index_get(a, i));
        let y = ascii_to_lower(*vstd::slice::slice_index_get(b, i));
        if x != y {
            proof {
                assert(lower_seq(a@)[i as int] != lower_seq(b@)[i as int]);
            }
            return false;
        }
        i += 1;
    }
    proof {
        assert(lower_seq(a@) =~= lower_seq(b@));
    }
    true
}

/// Whether a byte is an ASCII decimal digit.
pub open spec fn is_digit(b: u8) -> bool {
    48 <= b && b <= 57
}

/// Whether a byte string is one or more ASCII decimal digits.
pub open spec fn all_digits(s: Seq<u8>) -> bool {
    forall|i: int| 0 <= i < s.len() ==> is_digit(#[trigger] s[i])
}

/// The number denoted by a string of ASCII decimal digits.
pub open spec fn dec_value(s: Seq<u8>) -> nat
    decreases s.len(),
{
    if s.len() == 0 {
        0
    } else {
        (dec_value(s.drop_last()) * 10 + (s.last() - 48)) as nat
    }
}

/// The shortest ASCII decimal rendering of a number.
pub open spec fn dec_digits(n: nat) -> Seq<u8>
    decreases n,
{
    if n < 10 {
        seq![(n + 48) as u8]
    } else {
        dec_digits(n / 10).push((n % 10 + 48) as u8)
    }
}

/// `dec_digits` renders only digits and denotes the number it was given.
pub proof fn lemma_dec_digits_value(n: nat)
    ensures
        dec_digits(n).len() >= 1,
        all_digits(dec_digits(n)),
        dec_value(dec_digits(n)) == n,
    decreases n,
{
    if n < 10 {
        let s = dec_digits(n);
        assert(s == seq![(n + 48) as u8]);
        assert(s.drop_last() =~= Seq::<u8>::empty());
        assert(dec_value(s.drop_last()) == 0);
        assert(s.last() == (n + 48) as u8);
        assert(dec_value(s) == (0 * 10 + ((n + 48) as u8 - 48)) as nat);
        assert(dec_value(s) == n);
    } else {
        lemma_dec_digits_value(n / 10);
        let d = dec_digits(n / 10);
        assert(dec_digits(n) == d.push((n % 10 + 48) as u8));
        assert(dec_digits(n).drop_last() =~= d);
        assert(dec_value(dec_digits(n)) == dec_value(d) * 10 + n % 10);
        assert(n / 10 * 10 + n % 10 == n) by (nonlinear_arith);
        assert(forall|i: int|
            0 <= i < dec_digits(n).len() ==> is_digit(#[trigger] dec_digits(n)[i]));
    }
}

/// A digit string denotes at least as much as any of its prefixes: each
/// further digit multiplies the value by ten before adding.
pub proof fn lemma_dec_value_grows(s: Seq<u8>, t: Seq<u8>)
    requires
        s.len() <= t.len(),
        forall|i: int| 0 <= i < s.len() ==> s[i] == t[i],
        all_digits(t),
    ensures
        dec_value(s) <= dec_value(t),
    decreases t.len(),
{
    if s.len() == t.len() {
        assert(s =~= t);
    } else {
        lemma_dec_value_grows(s, t.drop_last());
        assert(dec_value(t) == dec_value(t.drop_last()) * 10 + (t.last() - 48));
        assert(dec_value(t.drop_last()) * 10 >= dec_value(t.drop_last())) by (nonlinear_arith)
            requires
                dec_value(t.drop_last()) >= 0,
        ;
    }
}

/// The decimal rendering of a number, most significant digit first.
pub fn u64_to_decimal(n: u64) -> (r: Vec<u8>)
    ensures
        r@ == dec_digits(n as nat),
{
    let mut rev: Vec<u8> = Vec::new();
    let mut m: u64 = n;
    loop
        invariant_except_break
            dec_digits(n as nat) == dec_digits(m as nat) + rev@.reverse(),
        ensures
            dec_digits(n as nat) == rev@.reverse(),
        decreases m,
    {
        let ghost prev = m as nat;
        let ghost old_rev = rev@;
        let d: u8 = (m % 10) as u8;
        m = m / 10;
        rev.push(d + 48);
        proof {
            assert(rev@.reverse() =~= seq![(d + 48) as u8] + old_rev.reverse());
            if prev >= 10 {
                assert(dec_digits(prev) == dec_digits(prev / 10).push((d + 48) as u8));
                assert(dec_digits(prev / 10).push((d + 48) as u8) + old_rev.reverse()
                    =~= dec_digits(prev / 10) + rev@.reverse());
            } else {
                assert(dec_digits(prev) == seq![(d + 48) as u8]);
                assert(dec_digits(prev) + old_rev.reverse() =~= rev@.reverse());
            }
        }
        if m == 0 {
            break;
        }
    }
    let mut out: Vec<u8> = Vec::new();
    let mut i: usize = rev.len();
    proof {
        assert(out@ =~= rev@.subrange(i as int, rev@.len() as int).reverse());
    }
    while i > 0
        invariant
            i <= rev@.len(),
            out@ == rev@.subrange(i as int, rev@.len() as int).reverse(),
        decreases i,
    {
        i -= 1;
        let b = rev[i];
        out.push(b);
        proof {
            assert(out@ =~= rev@.subrange(i as int, rev@.len() as int).reverse());
        }
    }
    proof {
        assert(rev@.subrange(0, rev@.len() as int) =~= rev@);
        assert(out@ == dec_digits(n as nat));
    }
    out
}

/// The number denoted by a digit string, when it is well formed and fits in
/// `u64`; `None` exactly otherwise.
pub fn parse_u64_decimal(s: &[u8]) -> (r: Option<u64>)
    ensures
        match r {
            Some(v) => s@.len() > 0 && all_digits(s@) && dec_value(s@) == v,
            None => !(s@.len() > 0 && all_digits(s@) && dec_value(s@) <= u64::MAX),
        },
{
    if s.len() == 0 {
        return None;
    }
    let n = s.len();
    let mut acc: u64 = 0;
    let mut i: usize = 0;
    while i < n
        invariant
            n == s@.len(),
            i <= n,
            all_digits(s@.subrange(0, i as int)),
            acc == dec_value(s@.subrange(0, i as int)),
        decreases n - i,
    {
        let b = *vstd::slice::slice_index_get(s, i);
        if b < 48 || b > 57 {
            proof {
                assert(!is_digit(s@[i as int]));
            }
            return None;
        }
        let d: u64 = (b - 48) as u64;
        if acc > (u64::MAX - d) / 10 {
            proof {
                let part = s@.subrange(0, i as int + 1);
                assert(part.drop_last() =~= s@.subrange(0, i as int));
                assert(forall|j: int| 0 <= j < part.len() ==> is_digit(#[trigger] part[j]));
                assert(dec_value(part) == acc * 10 + d);
                assert(acc * 10 + d > u64::MAX) by (nonlinear_arith)
                    requires
                        acc > (u64::MAX - d) / 10,
                        0 <= d <= 9,
                ;
                if all_digits(s@) {
                    lemma_dec_value_grows(part, s@);
                }
            }
            return None;
        }
        proof {
            assert(acc * 10 + d <= u64::MAX) by (nonlinear_arith)
                requires
                    acc <= (u64::MAX - d) / 10,
                    0 <= d <= 9,
            ;
        }
        let ghost old_i = i as int;
        acc = acc * 10 + d;
        i += 1;
        proof {
            let part = s@.subrange(0, i as int);
            assert(part.drop_last() =~= s@.subrange(0, old_i));
            assert(part.last() == s@[old_i]);
            assert(all_digits(part));
            assert(acc == dec_value(part));
        }
    }
    proof {
        assert(s@.subrange(0, n as int) =~= s@);
    }
    Some(acc)
}

} // verus!
