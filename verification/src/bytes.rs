//! Byte-string helpers shared by the codec and the session: searching,
//! comparing, copying, and decimal rendering of counters.

use vstd::prelude::*;
use vstd::string::{is_ascii, is_ascii_spec_bytes, StringSliceAdditionalSpecFns};

verus! {

/// Index of the first occurrence of `b` in `s` at or after `from`, or `-1`
/// when there is none.
pub open spec fn first_index(s: Seq<u8>, b: u8, from: int) -> int
    decreases s.len() - from,
{
    if from < 0 || from >= s.len() {
        -1
    } else if s[from] == b {
        from
    } else {
        first_index(s, b, from + 1)
    }
}

/// `first_index` returns either `-1`, with `b` absent from `from` on, or
/// the least index at or after `from` that holds `b`.
pub proof fn lemma_first_index(s: Seq<u8>, b: u8, from: int)
    requires
        0 <= from,
    ensures
        first_index(s, b, from) == -1 ==> forall|j: int| from <= j < s.len() ==> s[j] != b,
        first_index(s, b, from) != -1 ==> {
            &&& from <= first_index(s, b, from) < s.len()
            &&& s[first_index(s, b, from)] == b
            &&& forall|j: int| from <= j < first_index(s, b, from) ==> s[j] != b
        },
    decreases s.len() - from,
{
    if from < s.len() && s[from] != b {
        lemma_first_index(s, b, from + 1);
    }
}

/// Any index that holds `b` with no earlier occurrence from `from` on is the
/// one `first_index` returns.
pub proof fn lemma_first_index_is(s: Seq<u8>, b: u8, from: int, at: int)
    requires
        0 <= from <= at < s.len(),
        s[at] == b,
        forall|j: int| from <= j < at ==> s[j] != b,
    ensures
        first_index(s, b, from) == at,
    decreases at - from,
{
    if from < at {
        lemma_first_index_is(s, b, from + 1, at);
    }
}

/// Absence of `b` from `from` on makes `first_index` return `-1`.
pub proof fn lemma_first_index_none(s: Seq<u8>, b: u8, from: int)
    requires
        0 <= from,
        forall|j: int| from <= j < s.len() ==> s[j] != b,
    ensures
        first_index(s, b, from) == -1,
    decreases s.len() - from,
{
    if from < s.len() {
        lemma_first_index_none(s, b, from + 1);
    }
}

/// Finds the first occurrence of `b` in `s` at or after `from`.
pub fn find_byte(s: &[u8], b: u8, from: usize) -> (r: Option<usize>)
    ensures
        match r {
            Some(i) => from <= i < s.len() && i < usize::MAX && s@[i as int] == b && first_index(
                s@,
                b,
                from as int,
            ) == i,
            None => first_index(s@, b, from as int) == -1,
        },
{
    let mut i: usize = from;
    while i < s.len()
        invariant
            from <= i,
            first_index(s@, b, from as int) == first_index(s@, b, i as int),
        decreases s.len() - i,
    {
        if s[i] == b {
            return Some(i);
        }
        i += 1;
    }
    None
}

/// Whether two byte strings hold the same bytes.
pub fn bytes_eq(a: &[u8], b: &[u8]) -> (r: bool)
    ensures
        r == (a@ == b@),
{
    if a.len() != b.len() {
        return false;
    }
    let mut i: usize = 0;
    while i < a.len()
        invariant
            a.len() == b.len(),
            i <= a.len(),
            forall|j: int| 0 <= j < i ==> a@[j] == b@[j],
        decreases a.len() - i,
    {
        if a[i] != b[i] {
            return false;
        }
        i += 1;
    }
    assert(a@ =~= b@);
    true
}

/// Appends `src[from..to]` to `dst`.
pub fn append_range(dst: &mut Vec<u8>, src: &[u8], from: usize, to: usize)
    requires
        from <= to <= src.len(),
    ensures
        final(dst)@ == old(dst)@ + src@.subrange(from as int, to as int),
{
    let mut i: usize = from;
    while i < to
        invariant
            from <= i <= to <= src.len(),
            dst@ == old(dst)@ + src@.subrange(from as int, i as int),
        decreases to - i,
    {
        dst.push(src[i]);
        i += 1;
        assert(dst@ =~= old(dst)@ + src@.subrange(from as int, i as int));
    }
}

/// Copies `src[from..to]` into a fresh vector.
pub fn copy_range(src: &[u8], from: usize, to: usize) -> (r: Vec<u8>)
    requires
        from <= to <= src.len(),
    ensures
        r@ == src@.subrange(from as int, to as int),
{
    let mut r: Vec<u8> = Vec::new();
    append_range(&mut r, src, from, to);
    assert(r@ =~= src@.subrange(from as int, to as int));
    r
}

/// Copies a whole byte string into a fresh vector.
pub fn to_vec(src: &[u8]) -> (r: Vec<u8>)
    ensures
        r@ == src@,
{
    let r = copy_range(src, 0, src.len());
    assert(src@.subrange(0, src@.len() as int) =~= src@);
    r
}

/// The bytes of an ASCII text, one per character.
pub open spec fn ascii(s: &str) -> Seq<u8> {
    Seq::new(s@.len(), |i: int| s@[i] as u8)
}

/// Copies the bytes of a text into a fresh vector: for an ASCII text, one
/// byte per character.
pub fn ascii_bytes(s: &str) -> (r: Vec<u8>)
    ensures
        r@ == s.spec_bytes(),
        is_ascii(s) ==> r@ == ascii(s),
{
    proof {
        is_ascii_spec_bytes(s);
    }
    to_vec(s.as_bytes())
}

/// The digit zero in ASCII; the other digits follow it in order.
pub const DIGIT_ZERO: u8 = 48;

/// The digit nine in ASCII.
pub const DIGIT_NINE: u8 = 57;

/// Whether `b` is an ASCII decimal digit.
pub open spec fn is_digit(b: u8) -> bool {
    DIGIT_ZERO <= b <= DIGIT_NINE
}

/// The decimal rendering of `n`, most significant digit first, without
/// leading zeros.
pub open spec fn spec_decimal(n: nat) -> Seq<u8>
    decreases n,
{
    if n < 10 {
        seq![(DIGIT_ZERO + n) as u8]
    } else {
        spec_decimal(n / 10).push((DIGIT_ZERO + n % 10) as u8)
    }
}

/// The number that a string of decimal digits denotes.
pub open spec fn digits_value(s: Seq<u8>) -> nat
    decreases s.len(),
{
    if s.len() == 0 {
        0
    } else {
        (digits_value(s.drop_last()) * 10 + (s.last() - DIGIT_ZERO)) as nat
    }
}

/// Whether `s` is a non-empty string of decimal digits.
pub open spec fn all_digits(s: Seq<u8>) -> bool {
    s.len() > 0 && forall|i: int| 0 <= i < s.len() ==> is_digit(#[trigger] s[i])
}

/// The number written in `s`, when `s` is a non-empty string of decimal
/// digits; leading zeros are allowed.
pub open spec fn spec_parse_decimal(s: Seq<u8>) -> Option<nat> {
    if all_digits(s) {
        Some(digits_value(s))
    } else {
        None
    }
}

/// A decimal rendering consists of digits only and reads back as the number
/// it was made from.
pub proof fn lemma_decimal_round_trip(n: nat)
    ensures
        all_digits(spec_decimal(n)),
        spec_parse_decimal(spec_decimal(n)) == Some(n),
    decreases n,
{
    if n >= 10 {
        lemma_decimal_round_trip(n / 10);
        let d = spec_decimal(n);
        assert(d.drop_last() =~= spec_decimal(n / 10));
        assert forall|i: int| 0 <= i < d.len() implies is_digit(#[trigger] d[i]) by {
            if i < d.len() - 1 {
                assert(d[i] == spec_decimal(n / 10)[i]);
            }
        }
    } else {
        let d = spec_decimal(n);
        assert(d.drop_last().len() == 0);
        assert(digits_value(d.drop_last()) == 0);
    }
}

/// Different numbers have different decimal renderings.
pub proof fn lemma_decimal_injective(a: nat, b: nat)
    requires
        spec_decimal(a) == spec_decimal(b),
    ensures
        a == b,
{
    lemma_decimal_round_trip(a);
    lemma_decimal_round_trip(b);
}

/// Renders a number in decimal.
pub fn decimal(n: u64) -> (r: Vec<u8>)
    ensures
        r@ == spec_decimal(n as nat),
    decreases n,
{
    if n < 10 {
        let mut r: Vec<u8> = Vec::new();
        r.push(DIGIT_ZERO + n as u8);
        assert(r@ =~= spec_decimal(n as nat));
        r
    } else {
        let mut r = decimal(n / 10);
        r.push(DIGIT_ZERO + (n % 10) as u8);
        r
    }
}

/// What a length field holds, as far as the machine can represent it.
#[derive(Clone, Copy, Debug, PartialEq, Eq)]
pub enum Length {
    /// Not a non-empty string of decimal digits.
    Invalid,
    /// A number that fits the machine word.
    Fits(usize),
    /// A number larger than any buffer can be.
    TooLarge,
}

/// The value of a digit string never falls below that of one of its
/// prefixes.
pub proof fn lemma_digits_value_prefix(s: Seq<u8>, k: int)
    requires
        0 <= k <= s.len(),
        forall|i: int| 0 <= i < s.len() ==> is_digit(#[trigger] s[i]),
    ensures
        digits_value(s.take(k)) <= digits_value(s),
    decreases s.len() - k,
{
    if k == s.len() {
        assert(s.take(k) =~= s);
    } else {
        lemma_digits_value_prefix(s, k + 1);
        let t = s.take(k + 1);
        assert(t.drop_last() =~= s.take(k));
        assert(is_digit(s[k]));
        assert(t.last() == s[k]);
    }
}

/// Reads a decimal length field.
pub fn parse_decimal(s: &[u8]) -> (r: Length)
    ensures
        match r {
            Length::Invalid => spec_parse_decimal(s@) is None,
            Length::Fits(n) => spec_parse_decimal(s@) == Some(n as nat),
            Length::TooLarge => spec_parse_decimal(s@) matches Some(n) && n > usize::MAX,
        },
{
    if s.len() == 0 {
        return Length::Invalid;
    }
    let mut i: usize = 0;
    while i < s.len()
        invariant
            i <= s.len(),
            forall|j: int| 0 <= j < i ==> is_digit(#[trigger] s@[j]),
        decreases s.len() - i,
    {
        if s[i] < DIGIT_ZERO || s[i] > DIGIT_NINE {
            return Length::Invalid;
        }
        i += 1;
    }
    let mut acc: usize = 0;
    let mut k: usize = 0;
    while k < s.len()
        invariant
            k <= s.len(),
            s.len() > 0,
            forall|j: int| 0 <= j < s.len() ==> is_digit(#[trigger] s@[j]),
            acc == digits_value(s@.take(k as int)),
        decreases s.len() - k,
    {
        let d: usize = (s[k] - DIGIT_ZERO) as usize;
        proof {
            assert(is_digit(s@[k as int]));
            let t = s@.take(k + 1);
            assert(t.drop_last() =~= s@.take(k as int));
            assert(t.last() == s@[k as int]);
            assert(digits_value(t) == acc * 10 + d);
            lemma_digits_value_prefix(s@, k + 1);
        }
        if acc > (usize::MAX - d) / 10 {
            return Length::TooLarge;
        }
        acc = acc * 10 + d;
        k += 1;
    }
    assert(s@.take(s@.len() as int) =~= s@);
    Length::Fits(acc)
}

} // verus!
