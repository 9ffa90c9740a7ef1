//! Base-3 minute-bucket keys.
//!
//! A timestamp is filed in the trie under the base-3 representation of
//! its minute bucket (whole minutes since the Unix epoch), left-padded
//! with `'0'` to width 16.  A key prefix converts back to the earliest
//! millisecond of the minutes it encompasses.

use crate::timestamp::Timestamp;
use vstd::prelude::*;

verus! {

/// Largest millisecond value whose minute bucket still fits in a
/// 16-digit base-3 key.
pub const MAX_KEY_MILLIS: i64 = 2_582_803_259_999;

/// The character of one base-3 digit.
pub open spec fn digit_char(d: int) -> char {
    if d == 0 {
        '0'
    } else if d == 1 {
        '1'
    } else {
        '2'
    }
}

/// The numeric value of one base-3 digit character.
pub open spec fn digit_val(c: char) -> int {
    if c == '0' {
        0
    } else if c == '1' {
        1
    } else {
        2
    }
}

/// A key is a string of base-3 digit characters.
pub open spec fn is_key(k: Seq<char>) -> bool {
    forall|i: int| 0 <= i < k.len() ==> k[i] == '0' || k[i] == '1' || k[i] == '2'
}

/// The base-3 digit characters of `n`, most significant first; empty
/// for `n <= 0`.
pub open spec fn base3_digits(n: int) -> Seq<char>
    decreases n,
{
    if n <= 0 {
        Seq::empty()
    } else {
        base3_digits(n / 3).push(digit_char(n % 3))
    }
}

/// The base-3 representation of `n`, without leading zeros; `"0"` for
/// zero itself.
pub open spec fn base3_chars(n: int) -> Seq<char> {
    if n == 0 {
        seq!['0']
    } else {
        base3_digits(n)
    }
}

/// A run of `n` `'0'` characters.
pub open spec fn zero_chars(n: int) -> Seq<char> {
    Seq::new(n as nat, |i: int| '0')
}

/// `s` left-padded with `'0'` to width 16.
pub open spec fn pad_key(s: Seq<char>) -> Seq<char> {
    if s.len() >= 16 {
        s
    } else {
        zero_chars(16 - s.len()) + s
    }
}

/// The trie key of a timestamp: the base-3 digits of its minute bucket,
/// left-padded with `'0'` to width 16.
pub open spec fn key_of(t: Timestamp) -> Seq<char> {
    pad_key(base3_chars(t.millis as int / 60_000))
}

/// The base-3 value of a digit-character key.
pub open spec fn key_value(k: Seq<char>) -> int
    decreases k.len(),
{
    if k.len() == 0 {
        0
    } else {
        key_value(k.drop_last()) * 3 + digit_val(k.last())
    }
}

/// The earliest millisecond of the minute-prefix named by `k`: the key
/// right-padded with `'0'` to width 16, read as base-3 minutes.
pub open spec fn key_millis(k: Seq<char>) -> int {
    if k.len() >= 16 {
        key_value(k) * 60_000
    } else {
        key_value(k + zero_chars(16 - k.len())) * 60_000
    }
}

/// Powers of three.
pub open spec fn pow3(k: nat) -> int
    decreases k,
{
    if k == 0 {
        1
    } else {
        3 * pow3((k - 1) as nat)
    }
}

/// The digit characters of `v`, read back to front.
spec fn rev_digit_chars(v: Seq<u8>) -> Seq<char>
    decreases v.len(),
{
    if v.len() == 0 {
        Seq::empty()
    } else {
        rev_digit_chars(v.skip(1)) + seq![digit_char(v[0] as int)]
    }
}

proof fn lemma_rev_push(v: Seq<u8>, d: u8)
    ensures
        rev_digit_chars(v.push(d)) =~= seq![digit_char(d as int)] + rev_digit_chars(v),
    decreases v.len(),
{
    if v.len() == 0 {
        assert(v.push(d).skip(1) =~= Seq::<u8>::empty());
        assert(v =~= Seq::<u8>::empty());
    } else {
        assert(v.push(d).skip(1) =~= v.skip(1).push(d));
        lemma_rev_push(v.skip(1), d);
    }
}

/// A value below `pow3(k)` has at most `k` base-3 digits.
proof fn lemma_base3_digits_len(n: int, k: nat)
    requires
        0 <= n < pow3(k),
    ensures
        base3_digits(n).len() <= k,
    decreases k,
{
    if n > 0 {
        if k == 0 {
            assert(pow3(0) == 1);
        } else {
            assert(n == 3 * (n / 3) + n % 3);
            lemma_base3_digits_len(n / 3, (k - 1) as nat);
        }
    }
}

/// Base-3 digit strings hold only digit characters.
proof fn lemma_base3_digits_is_key(n: int)
    ensures
        is_key(base3_digits(n)),
    decreases n,
{
    if n > 0 {
        lemma_base3_digits_is_key(n / 3);
    }
}

/// `pow3` grows with its exponent.
proof fn lemma_pow3_increases(a: nat, b: nat)
    requires
        a <= b,
    ensures
        pow3(a) <= pow3(b),
        pow3(a) >= 1,
    decreases b,
{
    if b > 0 {
        if a == b {
            lemma_pow3_increases((a - 1) as nat, (b - 1) as nat);
        } else {
            lemma_pow3_increases(a, (b - 1) as nat);
        }
    }
}

/// Appends the character of one base-3 digit to `s`.
fn push_digit(s: &mut String, d: u8)
    ensures
        final(s)@ == old(s)@ + seq![digit_char(d as int)],
{
    proof {
        reveal_strlit("0");
        reveal_strlit("1");
        reveal_strlit("2");
    }
    if d == 0 {
        s.append("0");
    } else if d == 1 {
        s.append("1");
    } else {
        s.append("2");
    }
    proof {
        assert(s@ =~= old(s)@ + seq![digit_char(d as int)]);
    }
}

/// In the supported millisecond range a timestamp's key is exactly 16
/// base-3 digit characters.
pub proof fn lemma_key_of_form(t: Timestamp)
    requires
        0 <= t.millis <= MAX_KEY_MILLIS,
    ensures
        key_of(t).len() == 16,
        is_key(key_of(t)),
{
    let m = t.millis as int / 60_000;
    reveal_with_fuel(pow3, 17);
    assert(pow3(16) == 43_046_721);
    assert(m < 43_046_721);
    lemma_base3_digits_len(m, 16);
    lemma_base3_digits_is_key(m);
    let s = base3_chars(m);
    assert forall|i: int| 0 <= i < key_of(t).len() implies key_of(t)[i] == '0' || key_of(t)[i]
        == '1' || key_of(t)[i] == '2' by {
        if s.len() < 16 && i >= 16 - s.len() {
            assert(key_of(t)[i] == s[i - (16 - s.len())]);
        }
    }
}

proof fn lemma_key_value_zeros(j: int)
    requires
        j >= 0,
    ensures
        key_value(zero_chars(j)) == 0,
    decreases j,
{
    if j > 0 {
        assert(zero_chars(j).drop_last() =~= zero_chars(j - 1));
        assert(zero_chars(j).last() == '0');
        lemma_key_value_zeros(j - 1);
    } else {
        assert(zero_chars(0) =~= Seq::<char>::empty());
    }
}

proof fn lemma_key_value_pad(j: int, s: Seq<char>)
    requires
        j >= 0,
    ensures
        key_value(zero_chars(j) + s) == key_value(s),
    decreases s.len(),
{
    if s.len() == 0 {
        assert(zero_chars(j) + s =~= zero_chars(j));
        lemma_key_value_zeros(j);
    } else {
        assert((zero_chars(j) + s).drop_last() =~= zero_chars(j) + s.drop_last());
        assert((zero_chars(j) + s).last() == s.last());
        lemma_key_value_pad(j, s.drop_last());
    }
}

proof fn lemma_key_value_base3(m: int)
    requires
        m >= 0,
    ensures
        key_value(base3_digits(m)) == m,
    decreases m,
{
    if m > 0 {
        assert(base3_digits(m).drop_last() =~= base3_digits(m / 3));
        lemma_key_value_base3(m / 3);
    }
}

/// Law: deriving a timestamp's key and reading that key back yields the
/// first millisecond of the timestamp's minute bucket.
pub proof fn lemma_key_round_trip(t: Timestamp)
    requires
        0 <= t.millis <= MAX_KEY_MILLIS,
    ensures
        key_millis(key_of(t)) == t.millis as int / 60_000 * 60_000,
{
    let m = t.millis as int / 60_000;
    lemma_key_of_form(t);
    let s = base3_chars(m);
    if m == 0 {
        assert(seq!['0'].drop_last() =~= Seq::<char>::empty());
        assert(seq!['0'].last() == '0');
        assert(key_value(Seq::<char>::empty()) == 0);
        assert(key_value(seq!['0']) == key_value(seq!['0'].drop_last()) * 3 + digit_val(
            seq!['0'].last(),
        ));
        assert(key_value(seq!['0']) == 0);
        lemma_key_value_pad(15, s);
    } else {
        lemma_key_value_base3(m);
        if s.len() < 16 {
            lemma_key_value_pad(16 - s.len(), s);
        }
    }
}

/// Converts a non-negative number to its base-3 string, without leading
/// zeros; `"0"` for zero itself.
pub fn to_base3(input: i64) -> (r: String)
    requires
        0 <= input,
    ensures
        r@ == base3_chars(input as int),
{
    proof {
        reveal_strlit("0");
        reveal_strlit("1");
        reveal_strlit("2");
    }
    if input == 0 {
        let r = "0".to_owned();
        return r;
    }
    let mut m: u64 = input as u64;
    let mut digits: Vec<u8> = Vec::new();
    while m > 0
        invariant
            base3_digits(input as int) =~= base3_digits(m as int) + rev_digit_chars(digits@),
        decreases m,
    {
        let d: u8 = (m % 3) as u8;
        proof {
            lemma_rev_push(digits@, d);
            assert(base3_digits(m as int) =~= base3_digits(m as int / 3).push(
                digit_char(m as int % 3),
            ));
            assert(base3_digits(m as int / 3).push(digit_char(m as int % 3)) =~= base3_digits(
                m as int / 3,
            ) + seq![digit_char(m as int % 3)]);
        }
        digits.push(d);
        m = m / 3;
    }
    let mut s = String::new();
    let mut j: usize = digits.len();
    while j > 0
        invariant
            j <= digits@.len(),
            s@ =~= rev_digit_chars(digits@.skip(j as int)),
        decreases j,
    {
        j = j - 1;
        let d = digits[j];
        push_digit(&mut s, d);
        proof {
            assert(digits@.skip(j as int).skip(1) =~= digits@.skip(j as int + 1));
            assert(digits@.skip(j as int)[0] == digits@[j as int]);
            assert(rev_digit_chars(digits@.skip(j as int)) =~= rev_digit_chars(
                digits@.skip(j as int + 1),
            ) + seq![digit_char(d as int)]);
        }
    }
    proof {
        assert(digits@.skip(0) =~= digits@);
    }
    s
}

/// The 16-character trie key of a timestamp.
pub fn timestamp_to_key(ts: Timestamp) -> (r: String)
    requires
        0 <= ts.millis <= MAX_KEY_MILLIS,
    ensures
        r@ == key_of(ts),
        r@.len() == 16,
        is_key(r@),
{
    proof {
        reveal_strlit("0");
    }
    let minutes: u64 = (ts.millis as u64) / 60_000u64;
    proof {
        reveal_with_fuel(pow3, 17);
        assert(pow3(16) == 43_046_721);
        assert(minutes < 43_046_721);
        lemma_base3_digits_len(minutes as int, 16);
        lemma_base3_digits_is_key(minutes as int);
        assert(minutes as int == ts.millis as int / 60_000);
    }
    let b3 = to_base3(minutes as i64);
    let n = b3.as_str().unicode_len();
    let mut s = String::new();
    let mut p = n;
    while p < 16
        invariant
            n == b3@.len(),
            n <= p <= 16,
            s@ =~= zero_chars(p - n),
        decreases 16 - p,
    {
        s.append("0");
        p = p + 1;
        proof {
            reveal_strlit("0");
            assert(s@ =~= zero_chars(p - n));
        }
    }
    let r = s.concat(b3.as_str());
    proof {
        assert(r@ =~= pad_key(base3_chars(minutes as int)));
    }
    r
}

/// The earliest millisecond of the minute-prefix named by `key`.
pub fn key_to_timestamp(key: &str) -> (r: i64)
    requires
        key@.len() <= 16,
        is_key(key@),
    ensures
        r == key_millis(key@),
{
    let n = key.unicode_len();
    let mut v: u64 = 0;
    let mut i: usize = 0;
    proof {
        reveal_with_fuel(pow3, 17);
        assert(key@.take(0) =~= Seq::<char>::empty());
    }
    while i < n
        invariant
            i <= n,
            n == key@.len(),
            n <= 16,
            is_key(key@),
            v == key_value(key@.take(i as int)),
            v < pow3(i as nat),
        decreases n - i,
    {
        let c = key.get_char(i);
        let d: u64 = if c == '0' {
            0
        } else if c == '1' {
            1
        } else {
            2
        };
        proof {
            reveal_with_fuel(pow3, 17);
            lemma_pow3_increases(i as nat, 15);
            assert(pow3(15) == 14_348_907);
            assert(pow3((i + 1) as nat) == 3 * pow3(i as nat));
            assert(key@.take(i as int + 1).drop_last() =~= key@.take(i as int));
            assert(key@.take(i as int + 1).last() == key@[i as int]);
            assert(d == digit_val(key@[i as int]));
        }
        v = v * 3 + d;
        i = i + 1;
    }
    proof {
        assert(key@.take(n as int) =~= key@);
        assert(key@ + zero_chars(0) =~= key@);
    }
    while i < 16
        invariant
            n <= i <= 16,
            n == key@.len(),
            v == key_value(key@ + zero_chars(i - n)),
            v < pow3(i as nat),
        decreases 16 - i,
    {
        proof {
            reveal_with_fuel(pow3, 17);
            lemma_pow3_increases(i as nat, 15);
            assert(pow3(15) == 14_348_907);
            assert(pow3((i + 1) as nat) == 3 * pow3(i as nat));
            assert((key@ + zero_chars(i as int + 1 - n)).drop_last() =~= key@ + zero_chars(
                i as int - n,
            ));
            assert((key@ + zero_chars(i as int + 1 - n)).last() == '0');
        }
        v = v * 3;
        i = i + 1;
    }
    proof {
        reveal_with_fuel(pow3, 17);
        assert(pow3(16) == 43_046_721);
    }
    (v * 60_000u64) as i64
}

} // verus!
