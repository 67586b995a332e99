//! Decimal text for the duplicate counter.
//!
//! Filenames carry their duplicate counter as decimal text between
//! parentheses, so the library needs its own verified rendering and parsing
//! of (possibly signed) decimal integers, together with the facts the
//! collision search depends on: rendering round-trips through parsing and is
//! injective.

use vstd::prelude::*;

verus! {

/// Whether `c` is a decimal digit.
pub open spec fn is_digit(c: char) -> bool {
    '0' <= c && c <= '9'
}

/// The numeric value of a digit character (meaningful only for digits).
pub open spec fn digit_val(c: char) -> int {
    if c == '0' {
        0
    } else if c == '1' {
        1
    } else if c == '2' {
        2
    } else if c == '3' {
        3
    } else if c == '4' {
        4
    } else if c == '5' {
        5
    } else if c == '6' {
        6
    } else if c == '7' {
        7
    } else if c == '8' {
        8
    } else {
        9
    }
}

/// The digit character for a value below ten.
pub open spec fn digit_char(d: int) -> char {
    if d == 0 {
        '0'
    } else if d == 1 {
        '1'
    } else if d == 2 {
        '2'
    } else if d == 3 {
        '3'
    } else if d == 4 {
        '4'
    } else if d == 5 {
        '5'
    } else if d == 6 {
        '6'
    } else if d == 7 {
        '7'
    } else if d == 8 {
        '8'
    } else {
        '9'
    }
}

/// The decimal text of a non-negative integer, without sign or leading zeros.
pub open spec fn dec_rep(n: nat) -> Seq<char>
    decreases n,
{
    if n < 10 {
        seq![digit_char(n as int)]
    } else {
        dec_rep(n / 10) + seq![digit_char((n % 10) as int)]
    }
}

/// The decimal text of an integer, with a leading `-` when negative.
pub open spec fn signed_rep(n: int) -> Seq<char> {
    if n < 0 {
        seq!['-'] + dec_rep((-n) as nat)
    } else {
        dec_rep(n as nat)
    }
}

/// Whether every character of `s` is a decimal digit.
pub open spec fn all_digits(s: Seq<char>) -> bool {
    forall|i: int| 0 <= i < s.len() ==> is_digit(#[trigger] s[i])
}

/// The value of a sequence of digit characters, read in base ten.
pub open spec fn dec_val(s: Seq<char>) -> int
    decreases s.len(),
{
    if s.len() == 0 {
        0
    } else {
        dec_val(s.drop_last()) * 10 + digit_val(s.last())
    }
}

proof fn lemma_digit_char_val(d: int)
    requires
        0 <= d < 10,
    ensures
        is_digit(digit_char(d)),
        digit_val(digit_char(d)) == d,
{
}

/// The decimal text of `n` is non-empty, consists of digits, and reads back
/// as `n`.
pub proof fn lemma_dec_rep_val(n: nat)
    ensures
        dec_rep(n).len() >= 1,
        all_digits(dec_rep(n)),
        dec_val(dec_rep(n)) == n,
    decreases n,
{
    if n < 10 {
        lemma_digit_char_val(n as int);
        let s = dec_rep(n);
        assert(s =~= seq![digit_char(n as int)]);
        assert(s.drop_last() =~= Seq::<char>::empty());
        assert(dec_val(s) == dec_val(s.drop_last()) * 10 + digit_val(s.last()));
        assert(dec_val(s.drop_last()) == 0);
        assert(s.last() == digit_char(n as int));
        assert(dec_val(s) == n);
    } else {
        vstd::arithmetic::div_mod::lemma_div_decreases(n as int, 10);
        lemma_dec_rep_val(n / 10);
        lemma_digit_char_val((n % 10) as int);
        let s = dec_rep(n);
        assert(s =~= dec_rep(n / 10) + seq![digit_char((n % 10) as int)]);
        assert(s.drop_last() =~= dec_rep(n / 10));
        assert(s.last() == digit_char((n % 10) as int));
        assert(dec_val(s) == dec_val(s.drop_last()) * 10 + digit_val(s.last()));
        assert(dec_val(s) == (n / 10) * 10 + (n % 10));
        vstd::arithmetic::div_mod::lemma_fundamental_div_mod(n as int, 10);
        assert(dec_val(s) == n);
    }
}

/// Distinct non-negative integers have distinct decimal texts.
pub proof fn lemma_dec_rep_injective(a: nat, b: nat)
    requires
        dec_rep(a) == dec_rep(b),
    ensures
        a == b,
{
    lemma_dec_rep_val(a);
    lemma_dec_rep_val(b);
}

/// Distinct integers have distinct signed decimal texts.
pub proof fn lemma_signed_rep_injective(a: int, b: int)
    requires
        signed_rep(a) == signed_rep(b),
    ensures
        a == b,
{
    lemma_dec_rep_val((if a < 0 {
        -a
    } else {
        a
    }) as nat);
    lemma_dec_rep_val((if b < 0 {
        -b
    } else {
        b
    }) as nat);
    if a < 0 && b < 0 {
        let x = dec_rep((-a) as nat);
        let y = dec_rep((-b) as nat);
        assert((seq!['-'] + x).len() == (seq!['-'] + y).len());
        assert(x =~= y) by {
            assert(forall|i: int|
                0 <= i < x.len() ==> x[i] == (seq!['-'] + x)[i + 1] && y[i] == (seq!['-']
                    + y)[i + 1]);
        }
        lemma_dec_rep_injective((-a) as nat, (-b) as nat);
    } else if a < 0 && b >= 0 {
        assert(signed_rep(a)[0] == '-');
        assert(is_digit(signed_rep(b)[0]));
    } else if a >= 0 && b < 0 {
        assert(signed_rep(b)[0] == '-');
        assert(is_digit(signed_rep(a)[0]));
    } else {
        lemma_dec_rep_injective(a as nat, b as nat);
    }
}

/// The length of a signed decimal text is at least one.
pub proof fn lemma_signed_rep_len(n: int)
    ensures
        signed_rep(n).len() >= 1,
        n >= 0 ==> !('-' == signed_rep(n)[0]),
{
    lemma_dec_rep_val((if n < 0 {
        -n
    } else {
        n
    }) as nat);
    if n >= 0 {
        assert(is_digit(signed_rep(n)[0]));
    }
}

/// What `str::parse::<i64>` accepts: an optional sign followed by at least
/// one digit.  The value is unbounded here; the executable parser also
/// enforces the `i64` range.
pub open spec fn parse_int(s: Seq<char>) -> Option<int> {
    let signed = s.len() > 0 && (s[0] == '+' || s[0] == '-');
    let body = if signed {
        s.subrange(1, s.len() as int)
    } else {
        s
    };
    if body.len() > 0 && all_digits(body) {
        if s.len() > 0 && s[0] == '-' {
            Some(-dec_val(body))
        } else {
            Some(dec_val(body))
        }
    } else {
        None
    }
}

/// The value of a digit string is non-negative.
pub proof fn lemma_dec_val_nonneg(s: Seq<char>)
    requires
        all_digits(s),
    ensures
        dec_val(s) >= 0,
    decreases s.len(),
{
    if s.len() > 0 {
        lemma_dec_val_nonneg(s.drop_last());
    }
}

/// Extending a digit string on the right can only increase its value.
pub proof fn lemma_dec_val_prefix(s: Seq<char>, k: int)
    requires
        all_digits(s),
        0 <= k <= s.len(),
    ensures
        dec_val(s.subrange(0, k)) <= dec_val(s),
    decreases s.len() - k,
{
    if k == s.len() {
        assert(s.subrange(0, k) =~= s);
    } else {
        let p = s.subrange(0, k);
        let q = s.subrange(0, k + 1);
        assert(q.drop_last() =~= p);
        assert(forall|i: int| 0 <= i < p.len() ==> is_digit(#[trigger] p[i]));
        lemma_dec_val_nonneg(p);
        assert(dec_val(q) == dec_val(p) * 10 + digit_val(q.last()));
        lemma_dec_val_prefix(s, k + 1);
    }
}

/// One decimal digit as static text.
fn digit_str(d: u64) -> (r: &'static str)
    requires
        d < 10,
    ensures
        r@ =~= seq![digit_char(d as int)],
{
    if d == 0 {
        proof {
            reveal_strlit("0");
        }
        "0"
    } else if d == 1 {
        proof {
            reveal_strlit("1");
        }
        "1"
    } else if d == 2 {
        proof {
            reveal_strlit("2");
        }
        "2"
    } else if d == 3 {
        proof {
            reveal_strlit("3");
        }
        "3"
    } else if d == 4 {
        proof {
            reveal_strlit("4");
        }
        "4"
    } else if d == 5 {
        proof {
            reveal_strlit("5");
        }
        "5"
    } else if d == 6 {
        proof {
            reveal_strlit("6");
        }
        "6"
    } else if d == 7 {
        proof {
            reveal_strlit("7");
        }
        "7"
    } else if d == 8 {
        proof {
            reveal_strlit("8");
        }
        "8"
    } else {
        proof {
            reveal_strlit("9");
        }
        "9"
    }
}

fn dec_u64(n: u64) -> (r: String)
    ensures
        r@ == dec_rep(n as nat),
    decreases n,
{
    if n < 10 {
        String::from_str(digit_str(n))
    } else {
        proof {
            vstd::arithmetic::div_mod::lemma_div_decreases(n as int, 10);
        }
        let mut s = dec_u64(n / 10);
        s.append(digit_str(n % 10));
        s
    }
}

/// The decimal text of `n`, equal to what `i64::to_string` produces.
pub fn to_decimal(n: i64) -> (r: String)
    ensures
        r@ == signed_rep(n as int),
{
    if n >= 0 {
        dec_u64(n as u64)
    } else {
        let magnitude: u64 = if n == i64::MIN {
            9223372036854775808u64
        } else {
            (-n) as u64
        };
        proof {
            reveal_strlit("-");
        }
        let mut s = String::from_str("-");
        s.append(dec_u64(magnitude).as_str());
        proof {
            assert(s@ =~= seq!['-'] + dec_rep(magnitude as nat));
        }
        s
    }
}

} // verus!
