//! Building of text.

use vstd::prelude::*;

verus! {

/// The decimal digit `d` as a character.
pub open spec fn digit_char(d: int) -> char {
    if d == 0 {
        '0'
    } else if d == 1 {
        '1'
    } else if d == 2 {
        '2'
    } else if d == 3 {
        '3'
    } else if d == 4 {
        '4'
    } else if d == 5 {
        '5'
    } else if d == 6 {
        '6'
    } else if d == 7 {
        '7'
    } else if d == 8 {
        '8'
    } else {
        '9'
    }
}

/// The decimal digits of `n`, without leading zeros; `0` is "0".
pub open spec fn decimal(n: nat) -> Seq<char>
    decreases n,
{
    if n < 10 {
        seq![digit_char(n as int)]
    } else {
        decimal(n / 10).push(digit_char((n % 10) as int))
    }
}

/// `String::push_str` of std: `tail` is appended to `text`.
#[verifier::external_body]
pub(crate) fn push_str(text: &mut String, tail: &str)
    ensures
        final(text)@ == old(text)@ + tail@,
{
    text.push_str(tail);
}

/// `format!` of std with `{}` for an unsigned number: its decimal digits.
#[verifier::external_body]
pub(crate) fn decimal_string(n: u32) -> (res: String)
    ensures
        res@ == decimal(n as nat),
{
    format!("{}", n)
}

/// `String::push` of std: `c` is appended to `text`.
#[verifier::external_body]
pub(crate) fn push_char(text: &mut String, c: char)
    ensures
        final(text)@ == old(text)@.push(c),
{
    text.push(c);
}

/// The largest base that [`encode`] writes numbers in.
pub const MAX_BASE: usize = 64;

/// The base whose digits are the decimal digits and the letters of both
/// cases.
pub const ALPHANUMERIC_ONLY: usize = 62;

/// The base whose digits are the decimal digits and the small letters.
pub const CASE_INSENSITIVE: usize = 36;

/// The digits of the bases up to [`MAX_BASE`], by their values.
pub open spec fn spec_base_digits() -> Seq<char> {
    "0123456789abcdefghijklmnopqrstuvwxyzABCDEFGHIJKLMNOPQRSTUVWXYZ@$"@
}

/// The number `n` written in the base `base`, the most significant digit
/// first and without leading zeros; 0 is the single digit `0`.
pub open spec fn spec_encode(n: nat, base: nat) -> Seq<char>
    decreases n,
{
    if base < 2 || n < base {
        seq![spec_base_digits()[n as int]]
    } else {
        proof {
            assert(n / base < n) by (nonlinear_arith)
                requires
                    base >= 2,
                    n >= base,
            ;
        }
        spec_encode(n / base, base).push(spec_base_digits()[(n % base) as int])
    }
}

/// The text `digits` read backwards from its position `n`.
pub open spec fn spec_backwards(digits: Seq<char>, n: nat) -> Seq<char>
    decreases n,
{
    if n == 0 {
        Seq::empty()
    } else {
        seq![digits[n - 1]] + spec_backwards(digits, (n - 1) as nat)
    }
}

proof fn lemma_backwards_push(digits: Seq<char>, c: char, n: nat)
    requires
        n <= digits.len(),
    ensures
        spec_backwards(digits.push(c), n) == spec_backwards(digits, n),
    decreases n,
{
    if n > 0 {
        lemma_backwards_push(digits, c, (n - 1) as nat);
    }
}

/// Writes `n` in the base `base`.
pub fn encode(n: u128, base: usize) -> (res: String)
    requires
        2 <= base <= MAX_BASE,
    ensures
        res@ == spec_encode(n as nat, base as nat),
{
    proof {
        reveal_strlit("0123456789abcdefghijklmnopqrstuvwxyzABCDEFGHIJKLMNOPQRSTUVWXYZ@$");
    }
    let table = "0123456789abcdefghijklmnopqrstuvwxyzABCDEFGHIJKLMNOPQRSTUVWXYZ@$";
    let wide = base as u128;
    let mut digits: Vec<char> = Vec::new();
    let mut m = n;
    loop
        invariant_except_break
            spec_encode(n as nat, base as nat) == spec_encode(m as nat, base as nat)
                + spec_backwards(digits@, digits@.len()),
        invariant
            2 <= base <= MAX_BASE,
            wide == base,
            table@ == spec_base_digits(),
            table@.len() == 64,
        ensures
            spec_encode(n as nat, base as nat) == spec_backwards(digits@, digits@.len()),
        decreases m,
    {
        let d = (m % wide) as usize;
        let c = table.get_char(d);
        let ghost before = digits@;
        digits.push(c);
        proof {
            lemma_backwards_push(before, c, before.len());
            assert(spec_backwards(digits@, digits@.len()) =~= seq![c] + spec_backwards(
                before,
                before.len(),
            ));
            if m >= wide {
                assert(spec_encode(m as nat, base as nat) =~= spec_encode(
                    (m / wide) as nat,
                    base as nat,
                ).push(c));
                assert(spec_encode(m as nat, base as nat) + spec_backwards(before, before.len())
                    =~= spec_encode((m / wide) as nat, base as nat) + spec_backwards(
                    digits@,
                    digits@.len(),
                ));
            } else {
                assert(m % wide == m) by (nonlinear_arith)
                    requires
                        0 <= m < wide,
                ;
                assert(spec_encode(m as nat, base as nat) =~= seq![c]);
                assert(spec_encode(m as nat, base as nat) + spec_backwards(before, before.len())
                    =~= spec_backwards(digits@, digits@.len()));
            }
        }
        if m < wide {
            break ;
        }
        m = m / wide;
    }
    let mut res = String::new();
    let mut k: usize = digits.len();
    while k > 0
        invariant
            k <= digits@.len(),
            res@ + spec_backwards(digits@, k as nat) == spec_backwards(digits@, digits@.len()),
        decreases k,
    {
        k -= 1;
        let ghost before = res@;
        push_char(&mut res, digits[k]);
        assert(res@ + spec_backwards(digits@, k as nat) =~= before + spec_backwards(
            digits@,
            (k + 1) as nat,
        ));
    }
    assert(res@ =~= res@ + spec_backwards(digits@, 0));
    res
}

} // verus!
