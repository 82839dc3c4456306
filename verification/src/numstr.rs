//! Decimal text for revision numbers: a verified formatter and parser for
//! `u64`, with the parse rules the codec needs (digits only for JSON number
//! literals; an optional leading `+` for string fields, as Rust's `parse`
//! accepts).

use vstd::prelude::*;

verus! {

broadcast use vstd::std_specs::vec::group_vec_axioms, vstd::seq::group_seq_axioms,
    vstd::seq_lib::group_seq_lib_default;

/// Whether `c` is a decimal digit.
pub open spec fn is_digit(c: char) -> bool {
    '0' <= c && c <= '9'
}

/// The numeric value of a digit character.
pub open spec fn digit_val(c: char) -> int {
    c as int - 48
}

/// Whether every character of `s` is a decimal digit.
pub open spec fn all_digits(s: Seq<char>) -> bool {
    forall|i: int| 0 <= i < s.len() ==> is_digit(s[i])
}

/// The value denoted by a digit string, most significant digit first.
pub open spec fn dec_val(s: Seq<char>) -> int
    decreases s.len(),
{
    if s.len() == 0 {
        0
    } else {
        dec_val(s.drop_last()) * 10 + digit_val(s.last())
    }
}

/// What a nonempty all-digit string parses to, when its value fits in a
/// `u64`.
pub open spec fn parse_u64(s: Seq<char>) -> Option<u64> {
    if s.len() > 0 && all_digits(s) && dec_val(s) <= u64::MAX {
        Some(dec_val(s) as u64)
    } else {
        None
    }
}

/// `parse_u64` with the optional leading `+` that Rust's `u64` parsing
/// accepts.
pub open spec fn parse_u64_plus(s: Seq<char>) -> Option<u64> {
    if s.len() > 0 && s[0] == '+' {
        parse_u64(s.skip(1))
    } else {
        parse_u64(s)
    }
}

/// The digit character for a value below ten.
pub open spec fn digit_char(d: int) -> char {
    ((48 + d) as u8) as char
}

/// The decimal text of `n`, without padding or sign.
pub open spec fn u64_dec(n: u64) -> Seq<char>
    decreases n,
{
    if n < 10 {
        seq![digit_char(n as int)]
    } else {
        u64_dec(n / 10).push(digit_char((n % 10) as int))
    }
}

/// A digit prefix never denotes more than the whole digit string.
pub proof fn lemma_dec_val_prefix(s: Seq<char>, k: int)
    requires
        all_digits(s),
        0 <= k <= s.len(),
    ensures
        dec_val(s.take(k)) <= dec_val(s),
        dec_val(s) >= 0,
    decreases s.len() - k,
{
    if k == s.len() {
        assert(s.take(k) =~= s);
        lemma_dec_val_nonneg(s);
    } else {
        lemma_dec_val_prefix(s, k + 1);
        assert(s.take(k + 1).drop_last() =~= s.take(k));
        assert(s.take(k + 1).last() == s[k]);
        lemma_dec_val_nonneg(s.take(k));
        assert(dec_val(s.take(k + 1)) == dec_val(s.take(k)) * 10 + digit_val(s[k]));
        assert(dec_val(s.take(k)) * 10 >= dec_val(s.take(k))) by (nonlinear_arith)
            requires dec_val(s.take(k)) >= 0;
    }
}

/// A digit string never denotes a negative value.
pub proof fn lemma_dec_val_nonneg(s: Seq<char>)
    requires
        all_digits(s),
    ensures
        dec_val(s) >= 0,
    decreases s.len(),
{
    if s.len() > 0 {
        assert(all_digits(s.drop_last())) by {
            assert(forall|i: int| 0 <= i < s.len() - 1 ==> s.drop_last()[i] == s[i]);
        }
        lemma_dec_val_nonneg(s.drop_last());
        assert(dec_val(s.drop_last()) * 10 >= 0) by (nonlinear_arith)
            requires dec_val(s.drop_last()) >= 0;
    }
}

/// Parses `v` as a decimal `u64`: nonempty, digits only, value in range.
pub fn parse_dec_u64(v: &Vec<char>) -> (r: Option<u64>)
    ensures
        r == parse_u64(v@),
{
    if v.len() == 0 {
        return None;
    }
    let mut acc: u64 = 0;
    let mut i: usize = 0;
    while i < v.len()
        invariant
            0 <= i <= v@.len(),
            all_digits(v@.take(i as int)),
            acc == dec_val(v@.take(i as int)),
        decreases v@.len() - i,
    {
        let c = v[i];
        if c < '0' || c > '9' {
            assert(!all_digits(v@)) by {
                assert(!is_digit(v@[i as int]));
            }
            return None;
        }
        let d: u64 = (c as u32 as u64) - 48;
        assert(d <= 9);
        if acc > (u64::MAX - d) / 10 {
            // The next digit would push the value past `u64::MAX`, and more
            // digits only grow it further.
            proof {
                assert(v@.take(i + 1).drop_last() =~= v@.take(i as int));
                assert(v@.take(i + 1).last() == v@[i as int]);
                assert(acc * 10 + d > u64::MAX) by (nonlinear_arith)
                    requires
                        acc > (u64::MAX - d) / 10,
                        0 <= d <= 9,
                        acc >= 0,
                ;
                if all_digits(v@) {
                    lemma_dec_val_prefix(v@, i + 1);
                    assert(all_digits(v@.take(i + 1)));
                    assert(dec_val(v@.take(i + 1)) == acc * 10 + d);
                    assert(dec_val(v@) > u64::MAX);
                }
            }
            return None;
        }
        proof {
            assert(v@.take(i + 1).drop_last() =~= v@.take(i as int));
            assert(v@.take(i + 1).last() == v@[i as int]);
            assert(acc * 10 + d <= u64::MAX) by (nonlinear_arith)
                requires
                    acc <= (u64::MAX - d) / 10,
                    0 <= d <= 9,
                    acc >= 0,
            ;
        }
        acc = acc * 10 + d;
        i = i + 1;
    }
    assert(v@.take(i as int) =~= v@);
    Some(acc)
}

/// Parses `v` as Rust's `u64` parsing would: an optional leading `+`, then
/// decimal digits.
pub fn parse_dec_u64_plus(v: &Vec<char>) -> (r: Option<u64>)
    ensures
        r == parse_u64_plus(v@),
{
    if v.len() > 0 && v[0] == '+' {
        let mut rest: Vec<char> = Vec::new();
        let mut i: usize = 1;
        while i < v.len()
            invariant
                1 <= i <= v@.len(),
                rest@ == v@.subrange(1, i as int),
            decreases v@.len() - i,
        {
            rest.push(v[i]);
            i = i + 1;
        }
        assert(rest@ =~= v@.skip(1));
        parse_dec_u64(&rest)
    } else {
        parse_dec_u64(v)
    }
}

/// The decimal text of `n`.
pub fn u64_to_dec(n: u64) -> (r: Vec<char>)
    ensures
        r@ == u64_dec(n),
    decreases n,
{
    if n < 10 {
        let c = ((48 + n as u8)) as char;
        assert(c == digit_char(n as int));
        let mut v: Vec<char> = Vec::new();
        v.push(c);
        assert(v@ =~= u64_dec(n));
        v
    } else {
        let mut v = u64_to_dec(n / 10);
        let c = ((48 + (n % 10) as u8)) as char;
        assert(c == digit_char((n % 10) as int));
        v.push(c);
        assert(v@ =~= u64_dec(n));
        v
    }
}

/// The decimal text of `n` is nonempty, all digits, and denotes `n`.
pub proof fn lemma_u64_dec_digits(n: u64)
    ensures
        u64_dec(n).len() >= 1,
        all_digits(u64_dec(n)),
        dec_val(u64_dec(n)) == n,
        is_digit(u64_dec(n)[0]),
    decreases n,
{
    if n < 10 {
        assert(u64_dec(n) == seq![digit_char(n as int)]);
        assert(is_digit(digit_char(n as int)));
        assert(u64_dec(n).drop_last() =~= Seq::<char>::empty());
        assert(dec_val(Seq::<char>::empty()) == 0);
        assert(u64_dec(n).last() == digit_char(n as int));
        assert(dec_val(u64_dec(n)) == digit_val(digit_char(n as int)));
    } else {
        lemma_u64_dec_digits(n / 10);
        let s = u64_dec(n / 10);
        let c = digit_char((n % 10) as int);
        assert(u64_dec(n) == s.push(c));
        assert(s.push(c).drop_last() =~= s);
        assert(s.push(c).last() == c);
        assert(dec_val(u64_dec(n)) == dec_val(s) * 10 + digit_val(c));
        assert(n / 10 * 10 + n % 10 == n) by (nonlinear_arith);
        assert(is_digit(c));
        assert(all_digits(s.push(c))) by {
            assert(forall|i: int| 0 <= i < s.len() ==> s.push(c)[i] == s[i]);
        }
        assert(u64_dec(n)[0] == s[0]);
    }
}

/// Parsing the decimal text of `n` gives `n` back, with or without the
/// optional plus sign allowed.
pub proof fn lemma_dec_roundtrip(n: u64)
    ensures
        parse_u64(u64_dec(n)) == Some(n),
        parse_u64_plus(u64_dec(n)) == Some(n),
{
    lemma_u64_dec_digits(n);
    assert(u64_dec(n)[0] != '+') by {
        assert(is_digit(u64_dec(n)[0]));
    }
}

/// How many digits small numbers print with.
pub proof fn lemma_u64_dec_len(n: u64)
    ensures
        n < 10 ==> u64_dec(n).len() == 1,
        10 <= n < 100 ==> u64_dec(n).len() == 2,
        100 <= n < 1000 ==> u64_dec(n).len() == 3,
        1000 <= n < 10000 ==> u64_dec(n).len() == 4,
    decreases n,
{
    if n >= 10 {
        lemma_u64_dec_len(n / 10);
    }
}

} // verus!
