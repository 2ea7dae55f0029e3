//! Decimal text of unsigned integers: printing and parsing.

use vstd::prelude::*;
use vstd::utf8::is_ascii_chars;

verus! {

/// The character of the decimal digit `d`.
pub open spec fn digit_char(d: nat) -> char {
    (48 + d) as char
}

/// The decimal text of `n`: most significant digit first, no leading zeros.
pub open spec fn decimal(n: nat) -> Seq<char>
    decreases n,
{
    if n < 10 {
        seq![digit_char(n)]
    } else {
        decimal(n / 10).push(digit_char(n % 10))
    }
}

/// The bytes of a text made of ASCII characters.
pub open spec fn ascii_bytes(s: Seq<char>) -> Seq<u8> {
    s.map_values(|c: char| c as u8)
}

/// Appends the decimal text of `n` to `out`, as ASCII bytes.
pub fn push_decimal(out: &mut Vec<u8>, n: u64)
    ensures
        final(out)@ == old(out)@ + ascii_bytes(decimal(n as nat)),
    decreases n,
{
    if n >= 10 {
        push_decimal(out, n / 10);
    }
    let d: u64 = n % 10;
    let b: u8 = 48 + (d as u8);
    out.push(b);
    assert(b == digit_char(d as nat) as u8);
    assert(ascii_bytes(decimal(n as nat)) =~= if n < 10 {
        seq![b]
    } else {
        ascii_bytes(decimal((n / 10) as nat)).push(b)
    });
}


/// Whether `c` is one of the ASCII digits `0` to `9`.
pub open spec fn is_digit(c: char) -> bool {
    '0' <= c && c <= '9'
}

/// The value of the digit character `c`.
pub open spec fn digit_value(c: char) -> nat {
    (c as int - 48) as nat
}

/// The value of a run of digit characters read in base ten.
pub open spec fn digits_value(s: Seq<char>) -> nat
    decreases s.len(),
{
    if s.len() == 0 {
        0
    } else {
        digits_value(s.drop_last()) * 10 + digit_value(s.last())
    }
}

/// The text of an unsigned number without its optional leading `+`.
pub open spec fn unsigned_digits(s: Seq<char>) -> Seq<char> {
    if s.len() > 0 && s[0] == '+' {
        s.drop_first()
    } else {
        s
    }
}

/// Whether `s` has the shape of an unsigned number: an optional `+`, then
/// one or more ASCII digits and nothing else.
pub open spec fn is_unsigned_text(s: Seq<char>) -> bool {
    let d = unsigned_digits(s);
    &&& d.len() > 0
    &&& forall|i: int| 0 <= i < d.len() ==> is_digit(#[trigger] d[i])
}

/// The number that `s` reads as, when it has the shape of an unsigned
/// number whose value is at most `max`; `None` otherwise.
pub open spec fn parse_unsigned(s: Seq<char>, max: nat) -> Option<nat> {
    if is_unsigned_text(s) && digits_value(unsigned_digits(s)) <= max {
        Some(digits_value(unsigned_digits(s)))
    } else {
        None
    }
}

proof fn lemma_digits_value_prefix_grows(s: Seq<char>, i: int, j: int)
    requires
        0 <= i <= j <= s.len(),
    ensures
        digits_value(s.subrange(0, i)) <= digits_value(s.subrange(0, j)),
    decreases j - i,
{
    if i < j {
        lemma_digits_value_prefix_grows(s, i, j - 1);
        assert(s.subrange(0, j).drop_last() =~= s.subrange(0, j - 1));
    }
}

/// The decimal text of `n` is a non-empty run of digits whose value is `n`.
pub proof fn lemma_decimal_digits(n: nat)
    ensures
        decimal(n).len() > 0,
        forall|i: int| 0 <= i < decimal(n).len() ==> is_digit(#[trigger] decimal(n)[i]),
        digits_value(decimal(n)) == n,
    decreases n,
{
    assert(digit_value(digit_char(n % 10)) == n % 10);
    if n >= 10 {
        lemma_decimal_digits(n / 10);
        assert(decimal(n).drop_last() =~= decimal(n / 10));
        assert(decimal(n).last() == digit_char(n % 10));
        assert((n / 10) * 10 + n % 10 == n) by (nonlinear_arith);
        assert(digits_value(decimal(n)) == digits_value(decimal(n / 10)) * 10 + n % 10);
    } else {
        assert(decimal(n).drop_last() =~= Seq::<char>::empty());
        assert(digits_value(Seq::<char>::empty()) == 0);
        assert(n % 10 == n);
    }
}

/// Printing then parsing gives the number back: the decimal text of any
/// `n` no larger than `max` reads as `n`.
pub proof fn lemma_parse_decimal_roundtrip(n: nat, max: nat)
    requires
        n <= max,
    ensures
        parse_unsigned(decimal(n), max) == Some(n),
{
    lemma_decimal_digits(n);
    assert(is_digit(decimal(n)[0]));
    assert(unsigned_digits(decimal(n)) == decimal(n));
}

/// A run of `k` zero digits.
pub open spec fn zeros(k: nat) -> Seq<char> {
    Seq::new(k, |i: int| '0')
}

proof fn lemma_leading_zero(d: Seq<char>)
    ensures
        digits_value(seq!['0'] + d) == digits_value(d),
    decreases d.len(),
{
    if d.len() > 0 {
        lemma_leading_zero(d.drop_last());
        let t = seq!['0'] + d;
        assert(t.drop_last() =~= seq!['0'] + d.drop_last());
        assert(t.last() == d.last());
        assert(digits_value(t) == digits_value(t.drop_last()) * 10 + digit_value(t.last()));
    } else {
        let t = seq!['0'] + d;
        assert(t.drop_last() =~= Seq::<char>::empty());
        assert(t.last() == '0');
        assert(digits_value(Seq::<char>::empty()) == 0);
        assert(digits_value(t) == digits_value(t.drop_last()) * 10 + digit_value(t.last()));
    }
}

proof fn lemma_leading_zeros(k: nat, d: Seq<char>)
    ensures
        digits_value(zeros(k) + d) == digits_value(d),
    decreases k,
{
    if k > 0 {
        lemma_leading_zeros((k - 1) as nat, d);
        assert(zeros(k) + d =~= seq!['0'] + (zeros((k - 1) as nat) + d));
        lemma_leading_zero(zeros((k - 1) as nat) + d);
    } else {
        assert(zeros(0) + d =~= d);
    }
}

/// A leading `+` and leading zeros do not change what a number reads as:
/// `+`, then any number of zeros, then the decimal text of `n`, reads as `n`
/// when `n` is no larger than `max`, with or without the `+`.
pub proof fn lemma_parse_padded_decimal(plus: bool, k: nat, n: nat, max: nat)
    requires
        n <= max,
    ensures
        parse_unsigned(
            (if plus {
                seq!['+']
            } else {
                Seq::<char>::empty()
            }) + zeros(k) + decimal(n),
            max,
        ) == Some(n),
{
    let prefix = if plus {
        seq!['+']
    } else {
        Seq::<char>::empty()
    };
    let body = zeros(k) + decimal(n);
    let s = prefix + body;
    lemma_decimal_digits(n);
    lemma_leading_zeros(k, decimal(n));
    assert forall|i: int| 0 <= i < body.len() implies is_digit(#[trigger] body[i]) by {
        if i >= k {
            assert(body[i] == decimal(n)[i - k]);
        }
    }
    if plus {
        assert(s[0] == '+');
        assert(s.drop_first() =~= body);
    } else {
        assert(s =~= body);
        assert(is_digit(body[0]));
    }
    assert(body.len() > 0);
    assert(unsigned_digits(s) == body);
    assert(is_unsigned_text(s));
    assert(digits_value(body) == n);
    assert(prefix + zeros(k) + decimal(n) =~= s);
}

proof fn lemma_zero_value_is_zeros(d: Seq<char>)
    requires
        forall|i: int| 0 <= i < d.len() ==> is_digit(#[trigger] d[i]),
        digits_value(d) == 0,
    ensures
        forall|i: int| 0 <= i < d.len() ==> #[trigger] d[i] == '0',
    decreases d.len(),
{
    if d.len() > 0 {
        let d0 = d.drop_last();
        assert(is_digit(d[d.len() - 1]));
        lemma_zero_value_is_zeros(d0);
        assert forall|i: int| 0 <= i < d.len() implies #[trigger] d[i] == '0' by {
            if i < d.len() - 1 {
                assert(d[i] == d0[i]);
            }
        }
    }
}

proof fn lemma_digits_canonical(d: Seq<char>)
    requires
        d.len() > 0,
        forall|i: int| 0 <= i < d.len() ==> is_digit(#[trigger] d[i]),
    ensures
        exists|z: int|
            0 <= z < d.len() && (forall|j: int| 0 <= j < z ==> #[trigger] d[j] == '0')
                && d.subrange(z, d.len() as int) == decimal(digits_value(d)),
    decreases d.len(),
{
    let d0 = d.drop_last();
    let c = d.last();
    assert(is_digit(d[d.len() - 1]));
    let e = digit_value(c);
    assert(e < 10);
    assert(digit_char(e) == c);
    let v0 = digits_value(d0);
    assert(digits_value(d) == v0 * 10 + e);
    assert(decimal(e) == seq![c]);
    if d0.len() == 0 || v0 == 0 {
        if d0.len() > 0 {
            lemma_zero_value_is_zeros(d0);
        }
        let z = d.len() - 1;
        assert forall|j: int| 0 <= j < z implies #[trigger] d[j] == '0' by {
            assert(d[j] == d0[j]);
        }
        assert(d.subrange(z, d.len() as int) =~= seq![c]);
    } else {
        assert forall|i: int| 0 <= i < d0.len() implies is_digit(#[trigger] d0[i]) by {
            assert(d0[i] == d[i]);
        }
        lemma_digits_canonical(d0);
        let z = choose|z: int|
            0 <= z < d0.len() && (forall|j: int| 0 <= j < z ==> #[trigger] d0[j] == '0')
                && d0.subrange(z, d0.len() as int) == decimal(v0);
        let v = v0 * 10 + e;
        assert(v / 10 == v0 && v % 10 == e) by (nonlinear_arith)
            requires
                v == v0 * 10 + e,
                e < 10,
        ;
        assert(decimal(v) == decimal(v0).push(c));
        assert forall|j: int| 0 <= j < z implies #[trigger] d[j] == '0' by {
            assert(d[j] == d0[j]);
        }
        assert(d.subrange(z, d.len() as int) =~= d0.subrange(z, d0.len() as int).push(c));
    }
}

/// What a number reads as is printed at the end of its text: when `s` reads
/// as `n`, then `n` is at most `max`, and `s` is the decimal text of `n`
/// preceded only by zeros and at most one leading `+`.
pub proof fn lemma_parse_unsigned_shape(s: Seq<char>, max: nat)
    ensures
        parse_unsigned(s, max) matches Some(n) ==> n <= max && exists|z: int|
            0 <= z < s.len() && s.subrange(z, s.len() as int) == decimal(n) && forall|j: int|
                0 <= j < z ==> #[trigger] s[j] == '0' || (j == 0 && s[j] == '+'),
{
    if let Some(n) = parse_unsigned(s, max) {
        let d = unsigned_digits(s);
        let off: int = if s.len() > 0 && s[0] == '+' {
            1
        } else {
            0
        };
        assert(d =~= s.subrange(off, s.len() as int));
        lemma_digits_canonical(d);
        let z = choose|z: int|
            0 <= z < d.len() && (forall|j: int| 0 <= j < z ==> #[trigger] d[j] == '0')
                && d.subrange(z, d.len() as int) == decimal(digits_value(d));
        assert(s.subrange(z + off, s.len() as int) =~= d.subrange(z, d.len() as int));
        assert forall|j: int| 0 <= j < z + off implies #[trigger] s[j] == '0' || (j == 0 && s[j]
            == '+') by {
            if j >= off {
                assert(s[j] == d[j - off]);
            }
        }
    }
}

/// Reads `s` as an unsigned decimal number no larger than `max`: an
/// optional `+` followed by one or more ASCII digits, leading zeros allowed.
/// Returns `None` for any other text, and when the value exceeds `max`.
pub fn parse_unsigned_str(s: &str, max: u64) -> (r: Option<u64>)
    ensures
        match r {
            Some(v) => parse_unsigned(s@, max as nat) == Some(v as nat),
            None => parse_unsigned(s@, max as nat) is None,
        },
{
    broadcast use vstd::string::is_ascii_spec_bytes;

    if !s.is_ascii() {
        proof {
            if is_unsigned_text(s@) {
                let d = unsigned_digits(s@);
                assert forall|i: int| 0 <= i < s@.len() implies '\0' <= #[trigger] s@[i] <= '\u{7f}' by {
                    if s@.len() > 0 && s@[0] == '+' && i > 0 {
                        assert(d[i - 1] == s@[i]);
                        assert(is_digit(d[i - 1]));
                    } else if !(s@.len() > 0 && s@[0] == '+') {
                        assert(is_digit(d[i]));
                    }
                }
            }
        }
        return None;
    }
    let bytes = s.as_bytes();
    let n: usize = bytes.len();
    assert(bytes@.len() == s@.len());
    let ghost t = s@;
    let mut start: usize = 0;
    if n > 0 && bytes[0] == 43 {
        start = 1;
    }
    let ghost d = unsigned_digits(t);
    assert(d =~= t.subrange(start as int, n as int));
    if start >= n {
        return None;
    }
    let mut value: u64 = 0;
    let mut i: usize = start;
    while i < n
        invariant
            start <= i <= n,
            t == s@,
            d == unsigned_digits(t),
            d.len() > 0,
            n == t.len(),
            bytes@.len() == n,
            forall|k: int| 0 <= k < n ==> bytes@[k] == t[k] as u8,
            is_ascii_chars(t),
            d =~= t.subrange(start as int, n as int),
            value as nat == digits_value(d.subrange(0, i - start)),
            value <= max,
            forall|k: int| 0 <= k < i - start ==> is_digit(#[trigger] d[k]),
        decreases n - i,
    {
        let b: u8 = bytes[i];
        assert(b == t[i as int] as u8);
        assert(d[i - start] == t[i as int]);
        if b < 48 || b > 57 {
            assert(!is_digit(d[i - start]));
            return None;
        }
        let dig: u64 = (b - 48) as u64;
        assert(d.subrange(0, i - start + 1).drop_last() =~= d.subrange(0, i - start));
        assert(digit_value(d[i - start]) == dig);
        if dig > max || value > (max - dig) / 10 {
            proof {
                assert(value * 10 + dig > max) by (nonlinear_arith)
                    requires
                        dig > max || value > (max - dig) / 10,
                        dig <= 9,
                ;
                lemma_digits_value_prefix_grows(d, i - start + 1, d.len() as int);
                assert(d.subrange(0, d.len() as int) =~= d);
            }
            return None;
        }
        assert(value * 10 + dig <= max) by (nonlinear_arith)
            requires
                value <= (max - dig) / 10,
                dig <= max,
        ;
        value = value * 10 + dig;
        i = i + 1;
    }
    assert(d.subrange(0, d.len() as int) =~= d);
    Some(value)
}

} // verus!
