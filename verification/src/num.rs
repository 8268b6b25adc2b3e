use vstd::arithmetic::div_mod::lemma_fundamental_div_mod;
use vstd::arithmetic::mul::lemma_mul_inequality;
use vstd::prelude::*;
use vstd::string::*;

verus! {

/// The single-character text of a decimal digit.
pub open spec fn digit_rep(d: int) -> Seq<char> {
    if d == 0 {
        "0"@
    } else if d == 1 {
        "1"@
    } else if d == 2 {
        "2"@
    } else if d == 3 {
        "3"@
    } else if d == 4 {
        "4"@
    } else if d == 5 {
        "5"@
    } else if d == 6 {
        "6"@
    } else if d == 7 {
        "7"@
    } else if d == 8 {
        "8"@
    } else {
        "9"@
    }
}

/// The decimal text of a natural number, without leading zeros.
pub open spec fn dec_rep(n: nat) -> Seq<char>
    decreases n,
{
    if n < 10 {
        digit_rep(n as int)
    } else {
        dec_rep(n / 10) + digit_rep((n % 10) as int)
    }
}

pub open spec fn is_digit(c: char) -> bool {
    c == '0' || c == '1' || c == '2' || c == '3' || c == '4' || c == '5' || c == '6' || c == '7'
        || c == '8' || c == '9'
}

/// The value of a digit character; meaningful only under `is_digit`.
pub open spec fn digit_val(c: char) -> int {
    if c == '0' {
        0
    } else if c == '1' {
        1
    } else if c == '2' {
        2
    } else if c == '3' {
        3
    } else if c == '4' {
        4
    } else if c == '5' {
        5
    } else if c == '6' {
        6
    } else if c == '7' {
        7
    } else if c == '8' {
        8
    } else {
        9
    }
}

/// Greedy scan of decimal digits from position `i`, folding them onto `acc`.
pub open spec fn scan_digits(s: Seq<char>, i: int, acc: nat) -> (nat, int)
    decreases s.len() - i
        when 0 <= i <= s.len()
{
    if i < s.len() && is_digit(s[i]) {
        scan_digits(s, i + 1, acc * 10 + digit_val(s[i]) as nat)
    } else {
        (acc, i)
    }
}

/// A decimal number in canonical form: a single `0`, or digits that do not
/// start with `0`.
pub open spec fn parse_number(s: Seq<char>, i: int) -> Option<(nat, int)> {
    if i < s.len() && s[i] == '0' {
        Some((0, i + 1))
    } else if i < s.len() && is_digit(s[i]) {
        Some(scan_digits(s, i, 0))
    } else {
        None
    }
}

fn digit_str(d: u64) -> (r: &'static str)
    requires
        d < 10,
    ensures
        r@ == digit_rep(d as int),
{
    if d == 0 {
        "0"
    } else if d == 1 {
        "1"
    } else if d == 2 {
        "2"
    } else if d == 3 {
        "3"
    } else if d == 4 {
        "4"
    } else if d == 5 {
        "5"
    } else if d == 6 {
        "6"
    } else if d == 7 {
        "7"
    } else if d == 8 {
        "8"
    } else {
        "9"
    }
}

/// The decimal text of `n`.
pub fn u64_to_string(n: u64) -> (r: String)
    ensures
        r@ == dec_rep(n as nat),
    decreases n,
{
    if n < 10 {
        digit_str(n).to_owned()
    } else {
        let prefix = u64_to_string(n / 10);
        prefix.concat(digit_str(n % 10))
    }
}

fn char_digit(c: char) -> (r: Option<u64>)
    ensures
        match r {
            Some(d) => is_digit(c) && d < 10 && d as int == digit_val(c),
            None => !is_digit(c),
        },
{
    if c == '0' {
        Some(0)
    } else if c == '1' {
        Some(1)
    } else if c == '2' {
        Some(2)
    } else if c == '3' {
        Some(3)
    } else if c == '4' {
        Some(4)
    } else if c == '5' {
        Some(5)
    } else if c == '6' {
        Some(6)
    } else if c == '7' {
        Some(7)
    } else if c == '8' {
        Some(8)
    } else if c == '9' {
        Some(9)
    } else {
        None
    }
}

proof fn lemma_scan_digits_lower(s: Seq<char>, i: int, acc: nat)
    requires
        0 <= i <= s.len(),
    ensures
        scan_digits(s, i, acc).0 >= acc,
        i <= scan_digits(s, i, acc).1 <= s.len(),
    decreases s.len() - i,
{
    if i < s.len() && is_digit(s[i]) {
        let d = digit_val(s[i]) as nat;
        assert(acc * 10 + d >= acc) by (nonlinear_arith);
        lemma_scan_digits_lower(s, i + 1, acc * 10 + d);
    }
}

fn scan_digits_exec(s: &str, i: usize, acc: u64) -> (r: Option<(u64, usize)>)
    requires
        i as int <= s@.len(),
    ensures
        match r {
            Some(p) => scan_digits(s@, i as int, acc as nat) == (p.0 as nat, p.1 as int) && i
                <= p.1 <= s@.len(),
            None => scan_digits(s@, i as int, acc as nat).0 > u64::MAX,
        },
    decreases s@.len() - i,
{
    let len = s.unicode_len();
    if i < len {
        let c = s.get_char(i);
        match char_digit(c) {
            Some(d) => {
                let limit = (u64::MAX - d) / 10;
                proof {
                    let b = u64::MAX as int - d as int;
                    lemma_fundamental_div_mod(b, 10);
                    if acc as int <= b / 10 {
                        lemma_mul_inequality(acc as int, b / 10, 10);
                    } else {
                        lemma_mul_inequality(b / 10 + 1, acc as int, 10);
                    }
                }
                if acc <= limit {
                    let acc2 = acc * 10 + d;
                    scan_digits_exec(s, i + 1, acc2)
                } else {
                    proof {
                        lemma_scan_digits_lower(s@, i as int + 1, acc as nat * 10 + d as nat);
                    }
                    None
                }
            },
            None => Some((acc, i)),
        }
    } else {
        Some((acc, i))
    }
}

/// Reads a canonical decimal number at position `i`, if one stands there and
/// fits the result type.
pub(crate) fn parse_number_exec(s: &str, i: usize) -> (r: Option<(u64, usize)>)
    requires
        i as int <= s@.len(),
    ensures
        match r {
            Some(p) => parse_number(s@, i as int) == Some((p.0 as nat, p.1 as int)) && i < p.1
                <= s@.len(),
            None => match parse_number(s@, i as int) {
                Some(q) => q.0 > u64::MAX,
                None => true,
            },
        },
{
    let len = s.unicode_len();
    if i < len {
        let c = s.get_char(i);
        if c == '0' {
            Some((0, i + 1))
        } else {
            match char_digit(c) {
                Some(d) => {
                    proof {
                        lemma_scan_digits_lower(s@, i as int + 1, digit_val(s@[i as int]) as nat);
                    }
                    scan_digits_exec(s, i, 0)
                },
                None => None,
            }
        }
    } else {
        None
    }
}

spec fn pow10(k: nat) -> nat
    decreases k,
{
    if k == 0 {
        1
    } else {
        10 * pow10((k - 1) as nat)
    }
}

proof fn lemma_digit_rep(d: int)
    requires
        0 <= d < 10,
    ensures
        digit_rep(d).len() == 1,
        is_digit(digit_rep(d)[0]),
        digit_val(digit_rep(d)[0]) == d,
        (digit_rep(d)[0] == '0') <==> (d == 0),
{
    reveal_strlit("0");
    reveal_strlit("1");
    reveal_strlit("2");
    reveal_strlit("3");
    reveal_strlit("4");
    reveal_strlit("5");
    reveal_strlit("6");
    reveal_strlit("7");
    reveal_strlit("8");
    reveal_strlit("9");
}

/// The decimal text of a number starts with `0` exactly when the number is 0.
proof fn lemma_dec_rep_first(n: nat)
    ensures
        dec_rep(n).len() >= 1,
        is_digit(dec_rep(n)[0]),
        (dec_rep(n)[0] == '0') <==> (n == 0),
    decreases n,
{
    if n < 10 {
        lemma_digit_rep(n as int);
    } else {
        lemma_dec_rep_first(n / 10);
    }
}

proof fn lemma_scan_dec_rep(s: Seq<char>, i: int, n: nat, acc: nat)
    requires
        0 <= i,
        i + dec_rep(n).len() <= s.len(),
        s.subrange(i, i + dec_rep(n).len()) == dec_rep(n),
    ensures
        scan_digits(s, i, acc) == scan_digits(
            s,
            i + dec_rep(n).len(),
            acc * pow10(dec_rep(n).len()) + n,
        ),
    decreases n,
{
    if n < 10 {
        lemma_digit_rep(n as int);
        assert(s[i] == dec_rep(n)[0]);
        assert(pow10(1) == 10 * pow10(0));
        assert(scan_digits(s, i, acc) == scan_digits(s, i + 1, acc * 10 + n));
    } else {
        let l1 = dec_rep(n / 10).len() as int;
        let q = n / 10;
        let r = n % 10;
        lemma_digit_rep(r as int);
        assert(dec_rep(n) == dec_rep(q) + digit_rep(r as int));
        assert(s.subrange(i, i + l1) =~= dec_rep(q)) by {
            assert forall|m: int| 0 <= m < l1 implies s.subrange(i, i + l1)[m] == dec_rep(q)[m] by {
                assert(s[i + m] == s.subrange(i, i + dec_rep(n).len())[m]);
                assert(dec_rep(n)[m] == dec_rep(q)[m]);
            }
        }
        lemma_scan_dec_rep(s, i, q, acc);
        let a1 = acc * pow10(l1 as nat) + q;
        assert(s[i + l1] == dec_rep(n)[l1]);
        assert(dec_rep(n)[l1] == digit_rep(r as int)[0]);
        assert(scan_digits(s, i + l1, a1) == scan_digits(s, i + l1 + 1, a1 * 10 + r));
        lemma_fundamental_div_mod(n as int, 10);
        assert(pow10((l1 + 1) as nat) == 10 * pow10(l1 as nat));
        assert((acc * pow10(l1 as nat) + q) * 10 + r == acc * (10 * pow10(l1 as nat)) + (10 * q
            + r)) by (nonlinear_arith);
        assert(a1 * 10 + r == acc * pow10((l1 + 1) as nat) + n);
    }
}

/// Parsing reads back exactly the decimal text that rendering wrote, when a
/// non-digit (or the end of the text) follows it.
pub(crate) proof fn lemma_parse_dec_rep(s: Seq<char>, i: int, n: nat)
    requires
        0 <= i,
        i + dec_rep(n).len() <= s.len(),
        s.subrange(i, i + dec_rep(n).len()) == dec_rep(n),
        i + dec_rep(n).len() == s.len() || !is_digit(s[i + dec_rep(n).len()]),
    ensures
        parse_number(s, i) == Some((n, i + dec_rep(n).len())),
{
    lemma_dec_rep_first(n);
    assert(s[i] == dec_rep(n)[0]);
    if n == 0 {
        assert(dec_rep(0nat).len() == 1) by {
            lemma_digit_rep(0);
        }
    } else {
        let j = i + dec_rep(n).len();
        lemma_scan_dec_rep(s, i, n, 0);
        assert(0 * pow10(dec_rep(n).len()) + n == n) by (nonlinear_arith);
        assert(scan_digits(s, j, n) == (n, j));
        assert(parse_number(s, i) == Some(scan_digits(s, i, 0)));
    }
}

} // verus!
