//! Decimal numbers in text: reading a `u8` the way `str::parse::<u8>` does, and
//! writing one the way `u8::to_string` does.
use vstd::prelude::*;

verus! {

/// `c` is one of `0`..`9`.
pub open spec fn is_digit(c: char) -> bool {
    48 <= (c as u32) && (c as u32) <= 57
}

/// The value of the decimal digit `c`.
pub open spec fn digit_value(c: char) -> int {
    (c as u32) - 48
}

/// The value of a run of decimal digits (0 for none).
pub open spec fn digits_value(s: Seq<char>) -> int
    decreases s.len(),
{
    if s.len() == 0 {
        0
    } else {
        digits_value(s.drop_last()) * 10 + digit_value(s.last())
    }
}

/// All characters of `s` are decimal digits.
pub open spec fn all_digits(s: Seq<char>) -> bool {
    forall|i: int| 0 <= i < s.len() ==> is_digit(#[trigger] s[i])
}

/// What `str::parse::<u8>` gives: an optional `+` followed by at least one digit,
/// with a value of at most 255.
pub open spec fn parse_u8_spec(s: Seq<char>) -> Option<u8> {
    let d = unsigned_part(s);
    if d.len() > 0 && all_digits(d) && digits_value(d) <= 255 {
        Some(digits_value(d) as u8)
    } else {
        None
    }
}

/// `s` without one leading `+`.
pub open spec fn unsigned_part(s: Seq<char>) -> Seq<char> {
    if s.len() > 0 && s[0] == '+' {
        s.drop_first()
    } else {
        s
    }
}

/// The character of the digit `d` (0 to 9).
pub open spec fn digit_char(d: int) -> char {
    (d + 48) as char
}

/// The decimal writing of `n`, without leading zeros.
pub open spec fn decimal(n: nat) -> Seq<char>
    decreases n,
{
    if n < 10 {
        seq![digit_char(n as int)]
    } else {
        decimal(n / 10) + seq![digit_char((n % 10) as int)]
    }
}

proof fn lemma_digits_value_nonneg(s: Seq<char>)
    requires
        all_digits(s),
    ensures
        digits_value(s) >= 0,
    decreases s.len(),
{
    if s.len() > 0 {
        assert(is_digit(s[s.len() - 1]));
        assert forall|i: int| 0 <= i < s.drop_last().len() implies is_digit(#[trigger] s.drop_last()[i]) by {
            assert(s.drop_last()[i] == s[i]);
        }
        lemma_digits_value_nonneg(s.drop_last());
    }
}

/// Reads `s` as `str::parse::<u8>` does.
pub fn parse_u8(s: &str) -> (r: Option<u8>)
    ensures
        r == parse_u8_spec(s@),
{
    let n = s.unicode_len();
    let mut start: usize = 0;
    if n > 0 && s.get_char(0) == '+' {
        start = 1;
    }
    let ghost d = s@.subrange(start as int, n as int);
    proof {
        if start == 1 {
            assert(s@.drop_first() =~= d);
        } else {
            assert(s@ =~= d);
        }
    }
    if start == n {
        return None;
    }
    let mut acc: u32 = 0;
    let mut i: usize = start;
    while i < n
        invariant
            start <= i <= n,
            n == s@.len(),
            d == s@.subrange(start as int, n as int),
            d == unsigned_part(s@),
            all_digits(d.take(i - start)),
            acc == if digits_value(d.take(i - start)) < 256 {
                digits_value(d.take(i - start))
            } else {
                256
            },
        decreases n - i,
    {
        let c = s.get_char(i);
        let u = c as u32;
        if u < 48 || u > 57 {
            proof {
                assert(d[i - start] == c);
                assert(!is_digit(d[i - start]));
                assert(!all_digits(d));
            }
            return None;
        }
        let ghost prev = d.take(i - start);
        let ghost next = d.take(i - start + 1);
        proof {
            assert(next.drop_last() =~= prev);
            assert(next.last() == c);
            assert forall|k: int| 0 <= k < next.len() implies is_digit(#[trigger] next[k]) by {
                if k < prev.len() {
                    assert(next[k] == prev[k]);
                }
            }
            lemma_digits_value_nonneg(prev);
        }
        if acc >= 256 {
            acc = 256;
        } else {
            let v = acc * 10 + (u - 48);
            if v >= 256 {
                acc = 256;
            } else {
                acc = v;
            }
        }
        i = i + 1;
    }
    proof {
        assert(d.take(n - start) =~= d);
    }
    if acc >= 256 {
        None
    } else {
        Some(acc as u8)
    }
}

/// Writes `n` in decimal, as `u8::to_string` does.
pub fn decimal_u8(n: u8) -> (r: String)
    ensures
        r@ == decimal(n as nat),
{
    let mut out = String::new();
    if n >= 100 {
        let s = digit_str(n / 100);
        out.append(s);
    }
    if n >= 10 {
        let s = digit_str((n / 10) % 10);
        out.append(s);
    }
    let s = digit_str(n % 10);
    out.append(s);
    proof {
        let m = n as nat;
        if m >= 100 {
            assert(decimal(m / 10) == decimal(m / 100) + seq![digit_char(((m / 10) % 10) as int)]);
            assert(decimal(m / 100) == seq![digit_char((m / 100) as int)]);
        } else if m >= 10 {
            assert(decimal(m / 10) == seq![digit_char((m / 10) as int)]);
            assert((m / 10) % 10 == m / 10);
        }
        assert(out@ =~= decimal(m));
    }
    out
}

/// The one-character text of the digit `d`.
fn digit_str(d: u8) -> (r: &'static str)
    requires
        d < 10,
    ensures
        r@ == seq![digit_char(d as int)],
{
    proof {
        reveal_strlit("0");
        reveal_strlit("1");
        reveal_strlit("2");
        reveal_strlit("3");
        reveal_strlit("4");
        reveal_strlit("5");
        reveal_strlit("6");
        reveal_strlit("7");
        reveal_strlit("8");
        reveal_strlit("9");
    }
    let r = if d == 0 {
        "0"
    } else if d == 1 {
        "1"
    } else if d == 2 {
        "2"
    } else if d == 3 {
        "3"
    } else if d == 4 {
        "4"
    } else if d == 5 {
        "5"
    } else if d == 6 {
        "6"
    } else if d == 7 {
        "7"
    } else if d == 8 {
        "8"
    } else {
        "9"
    };
    assert(r@ =~= seq![digit_char(d as int)]);
    r
}

} // verus!
