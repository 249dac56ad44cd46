//! Decimal integer text: the grammar accepted by the typed path and query
//! converters (an optional sign followed by one or more digits), its value,
//! and the canonical decimal rendering of a value, with parsing and
//! formatting verified against each other.

use vstd::arithmetic::div_mod::lemma_fundamental_div_mod;
use vstd::prelude::*;
use vstd::string::{StrSliceExecFns, StringExecFns};

verus! {

pub open spec fn is_digit(c: char) -> bool {
    '0' <= c && c <= '9'
}

pub open spec fn digit_val(c: char) -> nat
    recommends
        is_digit(c),
{
    (c as u32 - '0' as u32) as nat
}

pub open spec fn all_digits(s: Seq<char>) -> bool {
    forall|i: int| 0 <= i < s.len() ==> is_digit(#[trigger] s[i])
}

/// The value of a sequence of decimal digits, most significant first.
pub open spec fn digits_val(s: Seq<char>) -> nat
    decreases s.len(),
{
    if s.len() == 0 {
        0
    } else {
        digits_val(s.drop_last()) * 10 + digit_val(s.last())
    }
}

/// Whether `s` is integer text: an optional `+` (or, for signed types, `-`)
/// followed by at least one digit.  Exactly the texts the standard decimal
/// grammar accepts, with any value.
pub open spec fn int_text_ok(s: Seq<char>, signed: bool) -> bool {
    if s.len() == 0 {
        false
    } else if s[0] == '+' || (signed && s[0] == '-') {
        s.len() > 1 && all_digits(s.drop_first())
    } else {
        all_digits(s)
    }
}

/// The signed value of integer text.
pub open spec fn int_text_val(s: Seq<char>) -> int {
    if s.len() > 0 && s[0] == '-' {
        -(digits_val(s.drop_first()) as int)
    } else if s.len() > 0 && s[0] == '+' {
        digits_val(s.drop_first()) as int
    } else {
        digits_val(s) as int
    }
}

pub open spec fn digit_char(d: nat) -> char {
    if d == 0 {
        '0'
    } else if d == 1 {
        '1'
    } else if d == 2 {
        '2'
    } else if d == 3 {
        '3'
    } else if d == 4 {
        '4'
    } else if d == 5 {
        '5'
    } else if d == 6 {
        '6'
    } else if d == 7 {
        '7'
    } else if d == 8 {
        '8'
    } else {
        '9'
    }
}

/// The canonical decimal rendering of `n`: no sign, no leading zero except
/// for `n == 0` itself.
pub open spec fn dec_digits(n: nat) -> Seq<char>
    decreases n,
{
    if n < 10 {
        seq![digit_char(n)]
    } else {
        dec_digits(n / 10).push(digit_char(n % 10))
    }
}

/// The canonical decimal rendering of a signed value: a leading `-` for
/// negative values.
pub open spec fn int_dec(i: int) -> Seq<char> {
    if i < 0 {
        seq!['-'] + dec_digits((-i) as nat)
    } else {
        dec_digits(i as nat)
    }
}

/// The canonical rendering consists of digits and reads back as the value
/// it renders.
pub proof fn lemma_dec_digits_val(n: nat)
    ensures
        all_digits(dec_digits(n)),
        digits_val(dec_digits(n)) == n,
        dec_digits(n).len() >= 1,
    decreases n,
{
    if n < 10 {
        let s = dec_digits(n);
        assert(s.drop_last() =~= Seq::<char>::empty());
        assert(s.last() == digit_char(n));
        assert(digit_val(digit_char(n)) == n);
        assert(digits_val(Seq::<char>::empty()) == 0);
        assert(digits_val(s) == digits_val(s.drop_last()) * 10 + digit_val(s.last()));
        assert(digits_val(s) == n);
    } else {
        lemma_dec_digits_val(n / 10);
        lemma_fundamental_div_mod(n as int, 10);
        let s = dec_digits(n);
        let t = dec_digits(n / 10);
        assert(s == t.push(digit_char(n % 10)));
        assert(s.drop_last() =~= t);
        assert(digit_val(digit_char(n % 10)) == n % 10);
        assert(digits_val(s) == digits_val(t) * 10 + digit_val(digit_char(n % 10)));
        assert(n as int == 10 * ((n as int) / 10) + (n as int) % 10);
        assert((n as int) / 10 == (n / 10) as int);
        assert((n as int) % 10 == (n % 10) as int);
        assert(digits_val(s) == n);
        assert forall|i: int| 0 <= i < s.len() implies is_digit(#[trigger] s[i]) by {
            if i < t.len() {
                assert(s[i] == t[i]);
            }
        }
    }
}

/// A digit sequence is worth at least as much as any of its prefixes.
proof fn lemma_digits_val_prefix(s: Seq<char>, i: int)
    requires
        0 <= i <= s.len(),
    ensures
        digits_val(s) >= digits_val(s.take(i)),
    decreases s.len() - i,
{
    if i < s.len() {
        lemma_digits_val_prefix(s, i + 1);
        let t = s.take(i + 1);
        assert(t.drop_last() =~= s.take(i));
        assert(digits_val(t) == digits_val(s.take(i)) * 10 + digit_val(t.last()));
        assert(digits_val(t) >= digits_val(s.take(i)));
    } else {
        assert(s.take(i) =~= s);
    }
}

/// Reads the digits of `s` from position `from` on: succeeds exactly when
/// they are one or more digits whose value fits in `u128`.
pub fn parse_digits_u128(s: &str, from: usize) -> (r: Option<u128>)
    requires
        from as int <= s@.len(),
    ensures
        r is Some <==> (s@.len() > from && all_digits(s@.skip(from as int)) && digits_val(
            s@.skip(from as int),
        ) <= u128::MAX),
        r matches Some(v) ==> v as nat == digits_val(s@.skip(from as int)),
{
    let n = s.unicode_len();
    if from >= n {
        return None;
    }
    let ghost text = s@.skip(from as int);
    let mut acc: u128 = 0;
    let mut i: usize = from;
    proof {
        assert(text.take(0) =~= Seq::<char>::empty());
    }
    while i < n
        invariant
            from <= i <= n,
            n == s@.len(),
            text == s@.skip(from as int),
            all_digits(text.take(i - from)),
            acc as nat == digits_val(text.take(i - from)),
        decreases n - i,
    {
        let c = s.get_char(i);
        let cv = c as u32;
        proof {
            assert(text[i - from] == s@[i as int]);
        }
        if cv < '0' as u32 || cv > '9' as u32 {
            proof {
                assert(!is_digit(text[i - from]));
            }
            return None;
        }
        let d = (cv - '0' as u32) as u128;
        if acc > (u128::MAX - d) / 10 {
            proof {
                // The value so far already exceeds what u128 can hold once
                // extended by this digit, so the full text overflows too.
                assert(acc * 10 + d > u128::MAX) by (nonlinear_arith)
                    requires
                        acc > (u128::MAX - d) / 10,
                        d <= 9,
                ;
                let t = text.take(i - from + 1);
                assert(t.drop_last() =~= text.take(i - from));
                assert(t.last() == text[i - from]);
                assert(digits_val(t) == acc * 10 + d);
                lemma_digits_val_prefix(text, i - from + 1);
                assert(digits_val(text) > u128::MAX);
                assert forall|j: int| 0 <= j < t.len() implies is_digit(#[trigger] t[j]) by {
                    if j < t.len() - 1 {
                        assert(t[j] == text.take(i - from)[j]);
                    }
                }
            }
            return None;
        }
        proof {
            assert(acc * 10 + d <= u128::MAX) by (nonlinear_arith)
                requires
                    acc <= (u128::MAX - d) / 10,
                    d <= 9,
            ;
            let t = text.take(i - from + 1);
            assert(t.drop_last() =~= text.take(i - from));
            assert(t.last() == text[i - from]);
            assert forall|j: int| 0 <= j < t.len() implies is_digit(#[trigger] t[j]) by {
                if j < t.len() - 1 {
                    assert(t[j] == text.take(i - from)[j]);
                }
            }
        }
        acc = acc * 10 + d;
        i = i + 1;
    }
    proof {
        assert(text.take(n - from) =~= text);
    }
    Some(acc)
}

/// Reads optionally signed integer text: the sign (`-` only when `signed`)
/// and the magnitude, succeeding exactly when the text is well formed and
/// its magnitude fits in `u128`.
pub fn parse_int_text(s: &str, signed: bool) -> (r: Option<(bool, u128)>)
    ensures
        r is Some <==> (int_text_ok(s@, signed) && (if int_text_val(s@) < 0 {
            -int_text_val(s@)
        } else {
            int_text_val(s@)
        }) <= u128::MAX),
        r matches Some((neg, mag)) ==> int_text_val(s@) == (if neg {
            -(mag as int)
        } else {
            mag as int
        }),
        r matches Some((neg, mag)) ==> (neg ==> s@.len() > 0 && s@[0] == '-'),
{
    let n = s.unicode_len();
    if n == 0 {
        return None;
    }
    let first = s.get_char(0);
    if first == '+' || (signed && first == '-') {
        let neg = first == '-';
        proof {
            assert(s@.skip(1) =~= s@.drop_first());
        }
        match parse_digits_u128(s, 1) {
            Some(mag) => {
                proof {
                    assert(int_text_ok(s@, signed));
                }
                Some((neg, mag))
            },
            None => None,
        }
    } else {
        proof {
            assert(s@.skip(0) =~= s@);
        }
        match parse_digits_u128(s, 0) {
            Some(mag) => Some((false, mag)),
            None => None,
        }
    }
}

/// The one-character string of a decimal digit.
fn digit_str(d: u32) -> (r: &'static str)
    requires
        d < 10,
    ensures
        r@ == seq![digit_char(d as nat)],
{
    proof {
        reveal_strlit("0");
        reveal_strlit("1");
        reveal_strlit("2");
        reveal_strlit("3");
        reveal_strlit("4");
        reveal_strlit("5");
        reveal_strlit("6");
        reveal_strlit("7");
        reveal_strlit("8");
        reveal_strlit("9");
    }
    let r = match d {
        0 => "0",
        1 => "1",
        2 => "2",
        3 => "3",
        4 => "4",
        5 => "5",
        6 => "6",
        7 => "7",
        8 => "8",
        _ => "9",
    };
    proof {
        assert(r@ =~= seq![digit_char(d as nat)]);
    }
    r
}

/// Renders `n` in canonical decimal.
pub fn u128_to_dec(n: u128) -> (r: String)
    ensures
        r@ == dec_digits(n as nat),
    decreases n,
{
    if n < 10 {
        digit_str(n as u32).to_owned()
    } else {
        proof {
            lemma_fundamental_div_mod(n as int, 10);
        }
        let prefix = u128_to_dec(n / 10);
        let r = prefix.concat(digit_str((n % 10) as u32));
        proof {
            assert(dec_digits((n / 10) as nat) + seq![digit_char((n % 10) as nat)] =~= dec_digits(
                (n / 10) as nat,
            ).push(digit_char((n % 10) as nat)));
        }
        r
    }
}

} // verus!
