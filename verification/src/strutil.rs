//! Small verified string utilities: equality, ASCII case folding, and the
//! decimal parsing/formatting that the property values need.

use vstd::prelude::*;

verus! {

/// A decimal digit character.
pub open spec fn spec_is_digit(c: char) -> bool {
    48 <= c as int <= 57
}

/// Every character of `s` is a decimal digit.
pub open spec fn spec_all_digits(s: Seq<char>) -> bool {
    forall|i: int| 0 <= i < s.len() ==> spec_is_digit(#[trigger] s[i])
}

/// The value of a run of decimal digits, most significant first.
pub open spec fn spec_digits_val(s: Seq<char>) -> int
    decreases s.len(),
{
    if s.len() == 0 {
        0
    } else {
        spec_digits_val(s.drop_last()) * 10 + (s.last() as int - 48)
    }
}

/// The character for the decimal digit `d`.
pub open spec fn spec_digit_char(d: int) -> char {
    ((48 + d) as u8) as char
}

/// How Rust's unsigned `parse` reads a string: an optional leading `+`,
/// then one or more decimal digits; anything else is rejected.
pub open spec fn spec_parse_uint(s: Seq<char>) -> Option<int> {
    let t = if s.len() > 0 && s[0] == '+' {
        s.drop_first()
    } else {
        s
    };
    if t.len() > 0 && spec_all_digits(t) {
        Some(spec_digits_val(t))
    } else {
        None
    }
}

/// The shortest decimal rendering of the non-negative integer `n`.
pub open spec fn spec_fmt_uint(n: int) -> Seq<char>
    recommends
        n >= 0,
    decreases n,
{
    if n < 10 {
        seq![spec_digit_char(n)]
    } else {
        spec_fmt_uint(n / 10).push(spec_digit_char(n % 10))
    }
}

/// ASCII upper-case letters fold to lower case; all else is unchanged.
pub open spec fn spec_lower(c: char) -> char {
    if 65 <= c as int <= 90 {
        ((c as int + 32) as u8) as char
    } else {
        c
    }
}

/// Equality of two character sequences up to ASCII case.
pub open spec fn spec_eq_ignore_ascii_case(a: Seq<char>, b: Seq<char>) -> bool {
    a.map_values(|c: char| spec_lower(c)) == b.map_values(|c: char| spec_lower(c))
}

/// Character-for-character string equality.
pub fn str_eq(a: &str, b: &str) -> (r: bool)
    ensures
        r == (a@ == b@),
{
    let la = a.unicode_len();
    let lb = b.unicode_len();
    if la != lb {
        return false;
    }
    let mut i: usize = 0;
    while i < la
        invariant
            la == a@.len(),
            la == b@.len(),
            i <= la,
            forall|j: int| 0 <= j < i ==> a@[j] == b@[j],
        decreases la - i,
    {
        if a.get_char(i) != b.get_char(i) {
            return false;
        }
        i = i + 1;
    }
    proof {
        assert(a@ =~= b@);
    }
    true
}

/// String equality up to ASCII case, as `str::eq_ignore_ascii_case`
/// defines it.
pub fn str_eq_ignore_ascii_case(a: &str, b: &str) -> (r: bool)
    ensures
        r == spec_eq_ignore_ascii_case(a@, b@),
{
    let la = a.unicode_len();
    let lb = b.unicode_len();
    if la != lb {
        proof {
            assert(a@.map_values(|c: char| spec_lower(c)).len() == la);
            assert(b@.map_values(|c: char| spec_lower(c)).len() == lb);
        }
        return false;
    }
    let mut i: usize = 0;
    while i < la
        invariant
            la == a@.len(),
            la == b@.len(),
            i <= la,
            forall|j: int| 0 <= j < i ==> spec_lower(a@[j]) == spec_lower(b@[j]),
        decreases la - i,
    {
        let ca = lower_char(a.get_char(i));
        let cb = lower_char(b.get_char(i));
        if ca != cb {
            proof {
                assert(a@.map_values(|c: char| spec_lower(c))[i as int] == spec_lower(a@[i as int]));
                assert(b@.map_values(|c: char| spec_lower(c))[i as int] == spec_lower(b@[i as int]));
            }
            return false;
        }
        i = i + 1;
    }
    proof {
        assert(a@.map_values(|c: char| spec_lower(c)) =~= b@.map_values(|c: char| spec_lower(c)));
    }
    true
}

/// Folds one character to ASCII lower case.
pub fn lower_char(c: char) -> (r: char)
    ensures
        r == spec_lower(c),
{
    let u = c as u32;
    if 65 <= u && u <= 90 {
        ((u + 32) as u8) as char
    } else {
        c
    }
}

/// Parses an unsigned decimal integer no greater than `cap`, accepting
/// exactly what Rust's unsigned `parse` accepts and rejecting values
/// above the cap.
pub fn parse_uint_capped(s: &str, cap: u64) -> (r: Option<u64>)
    ensures
        r == match spec_parse_uint(s@) {
            Some(v) => if v <= cap {
                Some(v as u64)
            } else {
                None::<u64>
            },
            None => None::<u64>,
        },
{
    let n = s.unicode_len();
    let start: usize = if n > 0 && s.get_char(0) == '+' {
        1
    } else {
        0
    };
    proof {
        if start == 1 {
            assert(s@.subrange(1, n as int) =~= s@.drop_first());
        } else {
            assert(s@.subrange(0, n as int) =~= s@);
        }
    }
    if start == n {
        return None;
    }
    let ghost t: Seq<char> = s@.subrange(start as int, n as int);
    let mut i: usize = start;
    let mut acc: u64 = 0;
    let mut over: bool = false;
    while i < n
        invariant
            n == s@.len(),
            start <= i <= n,
            t == s@.subrange(start as int, n as int),
            t == if s@.len() > 0 && s@[0] == '+' {
                s@.drop_first()
            } else {
                s@
            },
            spec_all_digits(s@.subrange(start as int, i as int)),
            !over ==> acc == spec_digits_val(s@.subrange(start as int, i as int)) && acc <= cap,
            over ==> spec_digits_val(s@.subrange(start as int, i as int)) > cap,
        decreases n - i,
    {
        let c = s.get_char(i);
        let u = c as u32;
        if u < 48 || u > 57 {
            proof {
                assert(t[i - start] == s@[i as int]);
                assert(!spec_is_digit(t[i - start]));
            }
            return None;
        }
        let d: u64 = (u - 48) as u64;
        proof {
            assert(s@.subrange(start as int, i + 1).drop_last() =~= s@.subrange(
                start as int,
                i as int,
            ));
            assert(s@.subrange(start as int, i + 1).last() == s@[i as int]);
        }
        if !over {
            match acc.checked_mul(10) {
                Some(x) => match x.checked_add(d) {
                    Some(y) => {
                        if y <= cap {
                            acc = y;
                        } else {
                            over = true;
                        }
                    },
                    None => {
                        over = true;
                    },
                },
                None => {
                    over = true;
                },
            }
        } else {
            proof {
                let prev = s@.subrange(start as int, i as int);
                let cur = s@.subrange(start as int, i + 1);
                assert(spec_digits_val(cur) == spec_digits_val(prev) * 10 + (s@[i as int] as int
                    - 48));
                assert(spec_digits_val(prev) * 10 >= spec_digits_val(prev)) by (nonlinear_arith)
                    requires
                        spec_digits_val(prev) > 0,
                ;
            }
        }
        i = i + 1;
    }
    proof {
        assert(s@.subrange(start as int, n as int) == t);
        lemma_digits_val_nonneg(t);
    }
    if over {
        None
    } else {
        Some(acc)
    }
}

/// The value of a digit run is never negative.
pub proof fn lemma_digits_val_nonneg(s: Seq<char>)
    requires
        spec_all_digits(s),
    ensures
        spec_digits_val(s) >= 0,
    decreases s.len(),
{
    if s.len() > 0 {
        assert(spec_all_digits(s.drop_last())) by {
            assert(forall|i: int|
                0 <= i < s.drop_last().len() ==> s.drop_last()[i] == #[trigger] s[i]);
        }
        lemma_digits_val_nonneg(s.drop_last());
        assert(spec_is_digit(s.last()));
        assert(spec_digits_val(s.drop_last()) * 10 >= 0) by (nonlinear_arith)
            requires
                spec_digits_val(s.drop_last()) >= 0,
        ;
    }
}

/// A parsed unsigned value is never negative.
pub proof fn lemma_parse_uint_nonneg(s: Seq<char>)
    ensures
        spec_parse_uint(s) matches Some(v) ==> v >= 0,
{
    let t = if s.len() > 0 && s[0] == '+' {
        s.drop_first()
    } else {
        s
    };
    if t.len() > 0 && spec_all_digits(t) {
        lemma_digits_val_nonneg(t);
    }
}

/// Parses a `u8` exactly as Rust's `str::parse::<u8>` does.
pub fn parse_u8(s: &str) -> (r: Option<u8>)
    ensures
        r == match spec_parse_uint(s@) {
            Some(v) => if v <= 255 {
                Some(v as u8)
            } else {
                None::<u8>
            },
            None => None::<u8>,
        },
{
    proof {
        lemma_parse_uint_nonneg(s@);
    }
    match parse_uint_capped(s, 255) {
        Some(v) => Some(v as u8),
        None => None,
    }
}

/// Parses a `usize` exactly as Rust's `str::parse::<usize>` does.
pub fn parse_usize(s: &str) -> (r: Option<usize>)
    ensures
        r == match spec_parse_uint(s@) {
            Some(v) => if v <= usize::MAX {
                Some(v as usize)
            } else {
                None::<usize>
            },
            None => None::<usize>,
        },
{
    proof {
        lemma_parse_uint_nonneg(s@);
    }
    match parse_uint_capped(s, usize::MAX as u64) {
        Some(v) => Some(v as usize),
        None => None,
    }
}

/// Relies on std's `FromIterator` for `String`: collecting characters
/// yields the string of exactly those characters, in order.
#[verifier::external_body]
pub fn string_from_chars(v: &Vec<char>) -> (r: String)
    ensures
        r@ == v@,
{
    v.iter().collect()
}

/// Renders `n` in decimal, shortest form.
pub fn fmt_u64(n: u64) -> (r: Vec<char>)
    ensures
        r@ == spec_fmt_uint(n as int),
{
    if n == 0 {
        let mut v: Vec<char> = Vec::new();
        v.push('0');
        proof {
            assert(spec_digit_char(0) as int == 48);
            assert('0' as int == 48);
            assert(v@ =~= spec_fmt_uint(0));
        }
        return v;
    }
    let mut out: Vec<char> = Vec::new();
    let mut m: u64 = n;
    while m > 0
        invariant
            m > 0 ==> spec_fmt_uint(n as int) == spec_fmt_uint(m as int) + out@,
            m == 0 ==> spec_fmt_uint(n as int) == out@,
        decreases m,
    {
        let d = m % 10;
        let c = ((48 + d) as u8) as char;
        proof {
            assert(c == spec_digit_char(d as int));
            if m >= 10 {
                assert(spec_fmt_uint(m as int) == spec_fmt_uint(m as int / 10).push(
                    spec_digit_char(m as int % 10),
                ));
                assert(spec_fmt_uint(m as int / 10).push(spec_digit_char(m as int % 10))
                    =~= spec_fmt_uint(m as int / 10) + seq![spec_digit_char(m as int % 10)]);
                assert((spec_fmt_uint(m as int / 10) + seq![spec_digit_char(m as int % 10)]) + out@
                    =~= spec_fmt_uint(m as int / 10) + (seq![spec_digit_char(m as int % 10)]
                    + out@));
            } else {
                assert(spec_fmt_uint(m as int) =~= seq![spec_digit_char(m as int)] + Seq::empty());
                assert(spec_fmt_uint(m as int) + out@ =~= seq![spec_digit_char(m as int)] + out@);
            }
            assert(out@.insert(0, c) =~= seq![c] + out@);
        }
        out.insert(0, c);
        m = m / 10;
    }
    out
}

/// Renders `n` in decimal as a `String`.
pub fn fmt_u64_string(n: u64) -> (r: String)
    ensures
        r@ == spec_fmt_uint(n as int),
{
    let v = fmt_u64(n);
    string_from_chars(&v)
}

/// The decimal rendering of a non-negative integer consists of digits
/// alone, and is never empty.
pub proof fn lemma_fmt_uint_digits(n: int)
    requires
        n >= 0,
    ensures
        spec_fmt_uint(n).len() >= 1,
        spec_all_digits(spec_fmt_uint(n)),
    decreases n,
{
    if n < 10 {
        assert(48 <= 48 + n <= 57);
        assert((((48 + n) as u8) as char) as int == 48 + n);
        assert(spec_is_digit(((48 + n) as u8) as char));
    } else {
        lemma_fmt_uint_digits(n / 10);
        assert(0 <= n % 10 < 10);
        assert(spec_is_digit(((48 + n % 10) as u8) as char));
        assert(forall|i: int|
            0 <= i < spec_fmt_uint(n).len() ==> spec_is_digit(#[trigger] spec_fmt_uint(n)[i]));
    }
}

/// Parsing the decimal rendering of `n` gives back exactly `n`:
/// the two sides of the numeric codec agree.
pub proof fn lemma_fmt_parse_roundtrip(n: int)
    requires
        n >= 0,
    ensures
        spec_parse_uint(spec_fmt_uint(n)) == Some(n),
    decreases n,
{
    lemma_fmt_uint_digits(n);
    lemma_digits_val_of_fmt(n);
    let s = spec_fmt_uint(n);
    assert(spec_is_digit(s[0]));
    assert(s[0] != '+') by {
        assert('+' as int == 43);
        assert(!spec_is_digit('+'));
    }
}

/// The digit-run value of the rendering of `n` is `n`.
proof fn lemma_digits_val_of_fmt(n: int)
    requires
        n >= 0,
    ensures
        spec_digits_val(spec_fmt_uint(n)) == n,
    decreases n,
{
    if n < 10 {
        let s = spec_fmt_uint(n);
        assert(s.len() == 1);
        assert(s.drop_last() =~= Seq::<char>::empty());
        assert(spec_digits_val(s.drop_last()) == 0);
        assert(s.last() == spec_digit_char(n));
        let b: u8 = (48 + n) as u8;
        assert(b as int == 48 + n);
        assert(spec_digit_char(n) == b as char);
        assert((b as char) as int == b as int);
    } else {
        lemma_digits_val_of_fmt(n / 10);
        let s = spec_fmt_uint(n);
        assert(s == spec_fmt_uint(n / 10).push(spec_digit_char(n % 10)));
        assert(s.drop_last() =~= spec_fmt_uint(n / 10));
        assert(s.last() == spec_digit_char(n % 10));
        assert(spec_digit_char(n % 10) as int == 48 + n % 10);
        assert(spec_digits_val(s) == (n / 10) * 10 + n % 10);
        vstd::arithmetic::div_mod::lemma_fundamental_div_mod(n, 10);
    }
}

} // verus!
