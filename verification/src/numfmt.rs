use vstd::prelude::*;
use vstd::string::StrSliceExecFns;

verus! {

/// The character for one decimal digit.
pub open spec fn digit_char(d: int) -> char {
    if d == 0 {
        '0'
    } else if d == 1 {
        '1'
    } else if d == 2 {
        '2'
    } else if d == 3 {
        '3'
    } else if d == 4 {
        '4'
    } else if d == 5 {
        '5'
    } else if d == 6 {
        '6'
    } else if d == 7 {
        '7'
    } else if d == 8 {
        '8'
    } else {
        '9'
    }
}

/// The decimal digits of a positive number, most significant first.
pub open spec fn dec_digits(n: int) -> Seq<char>
    decreases n,
{
    if n <= 0 {
        Seq::empty()
    } else if n < 10 {
        seq![digit_char(n)]
    } else {
        dec_digits(n / 10).push(digit_char(n % 10))
    }
}

/// The canonical decimal rendering of an integer: no leading zeros, no
/// plus sign, a minus sign for negative numbers.
pub open spec fn dec_chars(n: int) -> Seq<char> {
    if n == 0 {
        seq!['0']
    } else if n < 0 {
        seq!['-'] + dec_digits(-n)
    } else {
        dec_digits(n)
    }
}

pub open spec fn is_digit(c: char) -> bool {
    c == '0' || c == '1' || c == '2' || c == '3' || c == '4' || c == '5' || c == '6' || c == '7'
        || c == '8' || c == '9'
}

pub open spec fn digit_val(c: char) -> int {
    if c == '0' {
        0
    } else if c == '1' {
        1
    } else if c == '2' {
        2
    } else if c == '3' {
        3
    } else if c == '4' {
        4
    } else if c == '5' {
        5
    } else if c == '6' {
        6
    } else if c == '7' {
        7
    } else if c == '8' {
        8
    } else {
        9
    }
}

pub open spec fn all_digits(s: Seq<char>) -> bool {
    forall|i: int| 0 <= i < s.len() ==> is_digit(#[trigger] s[i])
}

/// The value of a digit string, most significant first.
pub open spec fn digits_val(s: Seq<char>) -> int
    decreases s.len(),
{
    if s.len() == 0 {
        0
    } else {
        digits_val(s.drop_last()) * 10 + digit_val(s.last())
    }
}

/// A canonical unsigned digit string: nonempty, digits only, and no
/// leading zero except for "0" itself.
pub open spec fn canonical_digits(s: Seq<char>) -> bool {
    s.len() > 0 && all_digits(s) && (s[0] != '0' || s.len() == 1)
}

/// What parsing a watermark string yields: the value, exactly when the
/// string is the canonical decimal rendering of a value in signed 64-bit
/// range.
pub open spec fn parse_watermark_spec(s: Seq<char>) -> Option<int> {
    if s.len() > 0 && s[0] == '-' {
        let d = s.subrange(1, s.len() as int);
        if canonical_digits(d) && digits_val(d) > 0 && -digits_val(d) >= i64::MIN {
            Some(-digits_val(d))
        } else {
            None
        }
    } else {
        if canonical_digits(s) && digits_val(s) <= i64::MAX {
            Some(digits_val(s))
        } else {
            None
        }
    }
}

/// Powers of ten.
pub open spec fn pow10(k: int) -> int
    decreases k,
{
    if k <= 0 {
        1
    } else {
        10 * pow10(k - 1)
    }
}

/// A canonical digit string of more than nineteen digits exceeds the
/// signed 64-bit range.
pub proof fn lemma_long_digits_large(s: Seq<char>)
    requires
        all_digits(s),
        s.len() > 19,
        s[0] != '0',
    ensures
        digits_val(s) > i64::MAX,
        digits_val(s) >= pow10(19),
    decreases s.len(),
{
    if s.len() == 20 {
        lemma_first_digit_lower_bound(s);
        assert(pow10(19) > i64::MAX) by {
            reveal_with_fuel(pow10, 21);
        }
    } else {
        lemma_long_digits_large(s.drop_last());
        assert(digits_val(s) == digits_val(s.drop_last()) * 10 + digit_val(s.last()));
        assert(digit_val(s.last()) >= 0);
        assert(pow10(19) > i64::MAX) by {
            reveal_with_fuel(pow10, 21);
        }
    }
}

/// A digit string without a leading zero is at least ten to one less than
/// its length.
pub proof fn lemma_first_digit_lower_bound(s: Seq<char>)
    requires
        all_digits(s),
        s.len() > 0,
        s[0] != '0',
    ensures
        digits_val(s) >= pow10(s.len() - 1),
    decreases s.len(),
{
    if s.len() == 1 {
        assert(is_digit(s[0]));
    } else {
        lemma_first_digit_lower_bound(s.drop_last());
        assert(digits_val(s) == digits_val(s.drop_last()) * 10 + digit_val(s.last()));
        assert(digit_val(s.last()) >= 0);
    }
}

/// The digits of a positive number form a canonical digit string holding
/// exactly that number.
pub proof fn lemma_dec_digits_props(n: int)
    requires
        n >= 1,
    ensures
        dec_digits(n).len() >= 1,
        all_digits(dec_digits(n)),
        dec_digits(n)[0] != '0',
        digits_val(dec_digits(n)) == n,
    decreases n,
{
    if n < 10 {
        let s = dec_digits(n);
        assert(s == seq![digit_char(n)]);
        assert(s.drop_last() =~= Seq::<char>::empty());
        reveal_with_fuel(digits_val, 2);
        assert(digits_val(s) == digit_val(digit_char(n)));
    } else {
        lemma_dec_digits_props(n / 10);
        let pre = dec_digits(n / 10);
        let s = dec_digits(n);
        assert(s == pre.push(digit_char(n % 10)));
        assert(s.drop_last() =~= pre);
        assert(s.last() == digit_char(n % 10));
        assert(digits_val(s) == digits_val(pre) * 10 + digit_val(digit_char(n % 10)));
        assert(digit_val(digit_char(n % 10)) == n % 10);
        assert forall|i: int| 0 <= i < s.len() implies is_digit(#[trigger] s[i]) by {
            if i < pre.len() {
                assert(s[i] == pre[i]);
            }
        }
        assert(s[0] == pre[0]);
    }
}

/// Parsing is the inverse of rendering: the canonical rendering of any
/// signed 64-bit value parses back to exactly that value. This is what
/// makes the persisted watermark round-trip through the metadata table.
pub proof fn lemma_watermark_round_trip(n: int)
    requires
        i64::MIN <= n <= i64::MAX,
    ensures
        parse_watermark_spec(dec_chars(n)) == Some(n),
{
    if n == 0 {
        let s = dec_chars(n);
        assert(s == seq!['0']);
        assert(s[0] == '0');
        assert(s.drop_last() =~= Seq::<char>::empty());
        reveal_with_fuel(digits_val, 2);
        assert(digits_val(s) == 0);
        assert(canonical_digits(s));
    } else if n > 0 {
        lemma_dec_digits_props(n);
        let s = dec_chars(n);
        assert(s == dec_digits(n));
        assert(s[0] != '-');
        assert(canonical_digits(s));
    } else {
        lemma_dec_digits_props(-n);
        let s = dec_chars(n);
        assert(s == seq!['-'] + dec_digits(-n));
        assert(s[0] == '-');
        let d = s.subrange(1, s.len() as int);
        assert(d =~= dec_digits(-n));
        assert(canonical_digits(d));
        assert(digits_val(d) == -n);
    }
}

/// Append the digits of a positive number to a string.
fn push_digits(out: &mut String, m: u64)
    requires
        m >= 1,
    ensures
        final(out)@ == old(out)@ + dec_digits(m as int),
    decreases m,
{
    if m >= 10 {
        push_digits(out, m / 10);
    }
    let d = m % 10;
    let ghost mid = out@;
    match d {
        0 => out.append("0"),
        1 => out.append("1"),
        2 => out.append("2"),
        3 => out.append("3"),
        4 => out.append("4"),
        5 => out.append("5"),
        6 => out.append("6"),
        7 => out.append("7"),
        8 => out.append("8"),
        _ => out.append("9"),
    }
    proof {
        reveal_strlit("0");
        reveal_strlit("1");
        reveal_strlit("2");
        reveal_strlit("3");
        reveal_strlit("4");
        reveal_strlit("5");
        reveal_strlit("6");
        reveal_strlit("7");
        reveal_strlit("8");
        reveal_strlit("9");
        assert(out@ =~= mid + seq![digit_char(d as int)]);
        if m < 10 {
            assert(dec_digits(m as int) == seq![digit_char(m as int)]);
            assert(out@ =~= old(out)@ + dec_digits(m as int));
        } else {
            assert(mid == old(out)@ + dec_digits(m as int / 10));
            assert(dec_digits(m as int) == dec_digits(m as int / 10).push(
                digit_char(m as int % 10),
            ));
            assert(out@ =~= old(out)@ + dec_digits(m as int));
        }
    }
}

/// The canonical decimal rendering of a signed 64-bit value, as the
/// metadata table stores the watermark.
pub fn watermark_string(w: i64) -> (r: String)
    ensures
        r@ == dec_chars(w as int),
{
    let mut out = String::new();
    if w == 0 {
        proof {
            reveal_strlit("0");
        }
        out.append("0");
        proof {
            assert(out@ =~= dec_chars(0));
        }
    } else if w > 0 {
        push_digits(&mut out, w as u64);
        proof {
            assert(out@ =~= dec_chars(w as int));
        }
    } else {
        proof {
            reveal_strlit("-");
        }
        out.append("-");
        let m: u64 = if w == i64::MIN {
            9223372036854775808u64
        } else {
            (-w) as u64
        };
        proof {
            assert(m as int == -(w as int));
        }
        push_digits(&mut out, m);
        proof {
            assert(out@ =~= dec_chars(w as int));
        }
    }
    out
}

/// Parse a watermark string: succeeds exactly on the canonical decimal
/// rendering of a value in signed 64-bit range, and yields that value.
pub fn parse_watermark(s: &str) -> (r: Option<i64>)
    ensures
        match r {
            Some(v) => parse_watermark_spec(s@) == Some(v as int),
            None => parse_watermark_spec(s@) is None,
        },
{
    let len = s.unicode_len();
    if len == 0 {
        return None;
    }
    let neg = s.get_char(0) == '-';
    let start: usize = if neg {
        1
    } else {
        0
    };
    let ghost d = s@.subrange(start as int, s@.len() as int);
    proof {
        if !neg {
            assert(d =~= s@);
        }
    }
    if len - start == 0 {
        // a bare minus sign
        proof {
            assert(!canonical_digits(d));
        }
        return None;
    }
    if len - start > 19 {
        proof {
            lemma_parse_long(s@, neg, d);
        }
        return None;
    }
    let mut acc: u64 = 0;
    let mut i: usize = start;
    while i < len
        invariant
            len == s@.len(),
            start <= i <= len,
            start == (if neg { 1int } else { 0int }),
            neg ==> s@[0] == '-',
            !neg ==> (len > 0 && s@[0] != '-'),
            d == s@.subrange(start as int, s@.len() as int),
            1 <= len - start <= 19,
            all_digits(d.take(i - start)),
            acc as int == digits_val(d.take(i - start)),
            (acc as int) < pow10(i - start),
        decreases len - i,
    {
        let c = s.get_char(i);
        let dv: u64 = match c {
            '0' => 0,
            '1' => 1,
            '2' => 2,
            '3' => 3,
            '4' => 4,
            '5' => 5,
            '6' => 6,
            '7' => 7,
            '8' => 8,
            '9' => 9,
            _ => {
                proof {
                    assert(d[i - start] == s@[i as int]);
                    assert(!is_digit(d[i - start]));
                    assert(!all_digits(d));
                    assert(!canonical_digits(d));
                    if !neg {
                        assert(parse_watermark_spec(s@) is None);
                    }
                }
                return None;
            },
        };
        proof {
            assert(pow10(i - start) <= pow10(18)) by {
                lemma_pow10_monotone(i - start, 18);
            }
            assert(pow10(18) < pow10(19)) by {
                reveal_with_fuel(pow10, 21);
            }
            assert(pow10(19) == 10000000000000000000) by {
                reveal_with_fuel(pow10, 21);
            }
            assert(d.take(i - start + 1).drop_last() =~= d.take(i - start));
            assert(d.take(i - start + 1).last() == d[i - start]);
            assert(d[i - start] == s@[i as int]);
            assert(digit_val(s@[i as int]) == dv as int);
            assert(is_digit(s@[i as int]));
        }
        acc = acc * 10 + dv;
        proof {
            assert(pow10(i - start + 1) == 10 * pow10(i - start));
        }
        i += 1;
    }
    proof {
        assert(d.take(len - start) =~= d);
        assert(pow10(19) == 10000000000000000000) by {
            reveal_with_fuel(pow10, 21);
        }
        assert(acc as int == digits_val(d));
    }
    // reject a leading zero, except for "0" itself
    if len - start > 1 && s.get_char(start) == '0' {
        proof {
            assert(d[0] == s@[start as int]);
            assert(!canonical_digits(d));
        }
        return None;
    }
    proof {
        assert(d[0] == s@[start as int]);
        assert(canonical_digits(d));
    }
    if neg {
        if acc == 0 {
            proof {
                assert(digits_val(d) == 0);
            }
            return None;
        }
        if acc > 9223372036854775808u64 {
            proof {
                assert(-digits_val(d) < i64::MIN);
            }
            return None;
        }
        if acc == 9223372036854775808u64 {
            return Some(i64::MIN);
        }
        Some(-(acc as i64))
    } else {
        if acc > i64::MAX as u64 {
            proof {
                assert(digits_val(d) > i64::MAX);
            }
            return None;
        }
        proof {
            assert(s@[0] != '-');
        }
        Some(acc as i64)
    }
}

/// Powers of ten are monotone in the exponent.
pub proof fn lemma_pow10_monotone(a: int, b: int)
    requires
        0 <= a <= b,
    ensures
        pow10(a) <= pow10(b),
    decreases b - a,
{
    if a < b {
        lemma_pow10_monotone(a, b - 1);
        assert(pow10(b) == 10 * pow10(b - 1));
        assert(pow10(b - 1) >= 1) by {
            lemma_pow10_positive(b - 1);
        }
    }
}

pub proof fn lemma_pow10_positive(k: int)
    ensures
        pow10(k) >= 1,
    decreases k,
{
    if k > 0 {
        lemma_pow10_positive(k - 1);
    }
}

/// A digit run of more than nineteen characters cannot parse: either some
/// character is not a digit, or the value exceeds the 64-bit range.
proof fn lemma_parse_long(s: Seq<char>, neg: bool, d: Seq<char>)
    requires
        neg ==> s.len() > 0 && s[0] == '-' && d == s.subrange(1, s.len() as int),
        !neg ==> (s.len() > 0 && s[0] != '-') && d == s.subrange(0, s.len() as int),
        d.len() > 19,
    ensures
        parse_watermark_spec(s) is None,
{
    if !neg {
        assert(d =~= s);
    }
    if canonical_digits(d) {
        assert(d[0] != '0' || d.len() == 1);
        lemma_long_digits_large(d);
        assert(digits_val(d) > i64::MAX);
        assert(pow10(19) > -(i64::MIN as int)) by {
            reveal_with_fuel(pow10, 21);
        }
        assert(-digits_val(d) < i64::MIN);
    }
}

} // verus!
