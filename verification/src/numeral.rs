//! Decimal and octal numerals: formatting (`{}` / `{:o}`) and parsing
//! (`str::parse` / `from_str_radix`) of unsigned integers, with the law
//! that parsing a formatted number gives the number back.
use vstd::prelude::*;

verus! {

/// The character of digit `d` (`d < 10`).
pub open spec fn digit_char(d: nat) -> char {
    ('0' as u32 + d) as char
}

/// The value of a digit character.
pub open spec fn digit_value(c: char) -> int {
    c as int - '0' as int
}

/// `c` is a digit of base `radix` (`radix <= 10`).
pub open spec fn is_radix_digit(c: char, radix: nat) -> bool {
    '0' as int <= c as int && (c as int) < '0' as int + radix
}

/// Every character of `s` is a digit of base `radix`.
pub open spec fn all_radix_digits(s: Seq<char>, radix: nat) -> bool {
    forall|i: int| 0 <= i < s.len() ==> is_radix_digit(#[trigger] s[i], radix)
}

/// The value of the digit string `s` in base `radix`.
pub open spec fn digits_value(s: Seq<char>, radix: nat) -> nat
    decreases s.len(),
{
    if s.len() == 0 {
        0
    } else {
        (digits_value(s.drop_last(), radix) * radix + digit_value(s.last())) as nat
    }
}

/// What `u*::from_str_radix(s, radix)` (and, for radix 10, `str::parse`) gives
/// for an unsigned type whose largest value is `max`: an optional `+` sign
/// followed by at least one digit, with a value that fits.
pub open spec fn parse_radix_spec(s: Seq<char>, radix: nat, max: nat) -> Option<nat> {
    let body = if s.len() > 0 && s[0] == '+' { s.drop_first() } else { s };
    if body.len() == 0 || !all_radix_digits(body, radix) || digits_value(body, radix) > max {
        None
    } else {
        Some(digits_value(body, radix))
    }
}

/// The digits of `n` in base `radix`, most significant first, without leading zeros.
pub open spec fn radix_digits(n: nat, radix: nat) -> Seq<char>
    decreases n,
{
    if radix < 2 || n < radix {
        seq![digit_char(n)]
    } else {
        proof {
            assert(n / radix < n) by (nonlinear_arith)
                requires radix >= 2, n >= radix;
        }
        radix_digits(n / radix, radix).push(digit_char(n % radix))
    }
}

/// Decimal numeral of `n` (as `{}` prints it).
pub open spec fn decimal(n: nat) -> Seq<char> {
    radix_digits(n, 10)
}

/// Octal numeral of `n` (as `{:o}` prints it).
pub open spec fn octal(n: nat) -> Seq<char> {
    radix_digits(n, 8)
}

proof fn lemma_digit_char(d: nat, radix: nat)
    requires
        d < radix <= 10,
    ensures
        is_radix_digit(digit_char(d), radix),
        digit_value(digit_char(d)) == d,
{
}

/// The digits of a number are digits of the base, and read back as the number.
pub proof fn lemma_radix_digits(n: nat, radix: nat)
    requires
        2 <= radix <= 10,
    ensures
        radix_digits(n, radix).len() >= 1,
        all_radix_digits(radix_digits(n, radix), radix),
        digits_value(radix_digits(n, radix), radix) == n,
        radix_digits(n, radix)[0] != '+',
    decreases n,
{
    if n < radix {
        lemma_digit_char(n, radix);
        let s = radix_digits(n, radix);
        assert(s.drop_last() =~= Seq::<char>::empty());
        assert(digits_value(s.drop_last(), radix) == 0);
        assert(0 * radix == 0);
    } else {
        assert(n / radix < n) by (nonlinear_arith)
            requires radix >= 2, n >= radix;
        lemma_radix_digits(n / radix, radix);
        let p = radix_digits(n / radix, radix);
        let s = radix_digits(n, radix);
        lemma_digit_char(n % radix, radix);
        assert(s.drop_last() =~= p);
        assert(n == (n / radix) * radix + n % radix) by (nonlinear_arith)
            requires radix > 0;
        assert forall|i: int| 0 <= i < s.len() implies is_radix_digit(#[trigger] s[i], radix) by {
            if i < p.len() {
                assert(s[i] == p[i]);
            }
        }
        assert(s[0] == p[0]);
    }
}

/// The numeral of a positive number does not start with `0`.
pub proof fn lemma_leading_digit(n: nat, radix: nat)
    requires
        2 <= radix <= 10,
        n > 0,
    ensures
        radix_digits(n, radix)[0] != '0',
    decreases n,
{
    if n < radix {
        lemma_digit_char(n, radix);
        assert(digit_value('0') == 0);
    } else {
        assert(n / radix < n && n / radix > 0) by (nonlinear_arith)
            requires radix >= 2, n >= radix;
        lemma_leading_digit(n / radix, radix);
        lemma_radix_digits(n / radix, radix);
        assert(radix_digits(n, radix)[0] == radix_digits(n / radix, radix)[0]);
    }
}

/// Parsing a formatted number gives the number back.
pub proof fn lemma_parse_radix_digits(n: nat, radix: nat, max: nat)
    requires
        2 <= radix <= 10,
        n <= max,
    ensures
        parse_radix_spec(radix_digits(n, radix), radix, max) == Some(n),
{
    lemma_radix_digits(n, radix);
}

proof fn lemma_digits_value_snoc(s: Seq<char>, c: char, radix: nat)
    ensures
        digits_value(s.push(c), radix) == (digits_value(s, radix) * radix + digit_value(c)) as nat,
{
    assert(s.push(c).drop_last() =~= s);
}

/// A longer digit string is worth at least as much as its prefix.
proof fn lemma_digits_value_prefix(s: Seq<char>, i: int, radix: nat)
    requires
        0 <= i <= s.len(),
        radix >= 1,
        all_radix_digits(s, radix),
    ensures
        digits_value(s, radix) >= digits_value(s.take(i), radix),
    decreases s.len() - i,
{
    if i < s.len() {
        lemma_digits_value_prefix(s, i + 1, radix);
        let t = s.take(i + 1);
        assert(t.drop_last() =~= s.take(i));
        assert(is_radix_digit(s[i], radix));
        let v = digits_value(s.take(i), radix);
        assert(v * radix >= v) by (nonlinear_arith)
            requires radix >= 1;
    } else {
        assert(s.take(i) =~= s);
    }
}

/// Formats `n` in base `radix` (`{}` for 10, `{:o}` for 8).
pub fn format_radix(n: u64, radix: u64) -> (s: String)
    requires
        2 <= radix <= 10,
    ensures
        s@ == radix_digits(n as nat, radix as nat),
{
    // digits collected least significant first
    let mut rev: Vec<char> = Vec::new();
    let mut m = n;
    let ghost mut acc: Seq<char> = Seq::empty();
    loop
        invariant_except_break
            radix_digits(n as nat, radix as nat) == radix_digits(m as nat, radix as nat) + acc,
        invariant
            2 <= radix <= 10,
            rev@ == acc.reverse(),
        ensures
            radix_digits(n as nat, radix as nat) == acc,
        decreases m,
    {
        let d = m % radix;
        let c = char_of_digit(d);
        if m < radix {
            proof {
                vstd::arithmetic::div_mod::lemma_small_mod(m as nat, radix as nat);
                assert(radix_digits(m as nat, radix as nat) == seq![c]);
            }
            rev.push(c);
            proof {
                acc = seq![c] + acc;
                assert(rev@ =~= acc.reverse());
            }
            break;
        }
        proof {
            assert(radix_digits(m as nat, radix as nat) == radix_digits((m / radix) as nat, radix as nat).push(c));
            assert(radix_digits((m / radix) as nat, radix as nat).push(c) + acc
                =~= radix_digits((m / radix) as nat, radix as nat) + (seq![c] + acc));
            acc = seq![c] + acc;
        }
        rev.push(c);
        proof {
            assert(rev@ =~= acc.reverse());
        }
        m = m / radix;
    }
    assert(radix_digits(n as nat, radix as nat) =~= acc);
    let mut s = String::new();
    let mut i = rev.len();
    while i > 0
        invariant
            i <= rev@.len(),
            rev@ == acc.reverse(),
            s@ == acc.take(acc.len() - i),
        decreases i,
    {
        i -= 1;
        crate::text::push_char(&mut s, rev[i]);
        assert(s@ =~= acc.take(acc.len() - i));
    }
    assert(acc.take(acc.len() as int) =~= acc);
    s
}

fn digit_of_char(c: char, radix: u64) -> (r: Option<u64>)
    requires
        2 <= radix <= 10,
    ensures
        r matches Some(d) ==> is_radix_digit(c, radix as nat) && d as int == digit_value(c),
        r is None ==> !is_radix_digit(c, radix as nat),
{
    let mut k: u64 = 0;
    while k < radix
        invariant
            k <= radix <= 10,
            forall|j: nat| j < k ==> #[trigger] digit_char(j) != c,
        decreases radix - k,
    {
        if char_of_digit(k) == c {
            return Some(k);
        }
        k += 1;
    }
    proof {
        if is_radix_digit(c, radix as nat) {
            let dv = digit_value(c);
            assert(digit_char(dv as nat) == c);
        }
    }
    None
}

fn char_of_digit(d: u64) -> (c: char)
    requires
        d < 10,
    ensures
        c == digit_char(d as nat),
{
    let v: u8 = 48 + d as u8;
    let c = v as char;
    assert(c == digit_char(d as nat));
    c
}

/// Decimal numeral of `n`.
pub fn format_decimal(n: u64) -> (s: String)
    ensures
        s@ == decimal(n as nat),
{
    format_radix(n, 10)
}

/// Octal numeral of `n`.
pub fn format_octal(n: u64) -> (s: String)
    ensures
        s@ == octal(n as nat),
{
    format_radix(n, 8)
}

/// Parses an unsigned numeral in base `radix` no larger than `max`
/// (`from_str_radix` / `str::parse` for unsigned types).
pub fn parse_radix(s: &[char], radix: u64, max: u64) -> (r: Option<u64>)
    requires
        2 <= radix <= 10,
    ensures
        r matches Some(v) ==> parse_radix_spec(s@, radix as nat, max as nat) == Some(v as nat),
        r is None ==> parse_radix_spec(s@, radix as nat, max as nat) is None,
{
    let start: usize = if s.len() > 0 && s[0] == '+' { 1 } else { 0 };
    let ghost body = if s@.len() > 0 && s@[0] == '+' { s@.drop_first() } else { s@ };
    assert(body =~= s@.subrange(start as int, s@.len() as int));
    if start >= s.len() {
        return None;
    }
    let mut value: u64 = 0;
    let mut i = start;
    while i < s.len()
        invariant
            2 <= radix <= 10,
            start <= i <= s@.len(),
            body == s@.subrange(start as int, s@.len() as int),
            body == (if s@.len() > 0 && s@[0] == '+' { s@.drop_first() } else { s@ }),
            body.len() > 0,
            all_radix_digits(body.take(i - start), radix as nat),
            value as nat == digits_value(body.take(i - start), radix as nat),
            value <= max,
        decreases s@.len() - i,
    {
        let c = s[i];
        let dd = digit_of_char(c, radix);
        if dd.is_none() {
            proof {
                assert(body[i - start] == c);
                assert(!is_radix_digit(body[i - start], radix as nat));
                assert(!all_radix_digits(body, radix as nat));
            }
            return None;
        }
        let d = dd.unwrap();
        let ghost prev = body.take(i - start);
        proof {
            assert(body.take(i - start + 1) =~= prev.push(c));
            lemma_digits_value_snoc(prev, c, radix as nat);
        }
        assert((value as u128) * (radix as u128) <= (u64::MAX as u128) * 10) by (nonlinear_arith)
            requires value <= u64::MAX, radix <= 10;
        let wide: u128 = (value as u128) * (radix as u128) + (d as u128);
        if wide > max as u128 {
            proof {
                let t = body.take(i - start + 1);
                assert forall|j: int| 0 <= j < t.len() implies is_radix_digit(#[trigger] t[j], radix as nat) by {
                    if j < prev.len() {
                        assert(t[j] == prev[j]);
                    } else {
                        assert(t[j] == c);
                    }
                }
                if all_radix_digits(body, radix as nat) {
                    lemma_digits_value_prefix(body, i - start + 1, radix as nat);
                }
            }
            return None;
        }
        value = wide as u64;
        i += 1;
        proof {
            let t = body.take(i - start);
            assert forall|j: int| 0 <= j < t.len() implies is_radix_digit(#[trigger] t[j], radix as nat) by {
                if j < prev.len() {
                    assert(t[j] == prev[j]);
                } else {
                    assert(t[j] == c);
                }
            }
        }
    }
    assert(body.take(s@.len() - start) =~= body);
    Some(value)
}

} // verus!
