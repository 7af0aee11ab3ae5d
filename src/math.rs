//! The integer part of the arithmetic endpoint: factorial expressions.
use vstd::prelude::*;

verus! {

/// The largest argument whose factorial fits in a `u64`.
pub const MAX_FACTORIAL_ARG: u64 = 20;

/// `n!` over the naturals.
pub open spec fn fact(n: nat) -> nat
    decreases n,
{
    if n == 0 {
        1
    } else {
        n * fact((n - 1) as nat)
    }
}

proof fn lemma_fact_positive(n: nat)
    ensures
        fact(n) >= 1,
    decreases n,
{
    if n > 0 {
        lemma_fact_positive((n - 1) as nat);
        assert(n * fact((n - 1) as nat) >= 1) by (nonlinear_arith)
            requires
                n >= 1,
                fact((n - 1) as nat) >= 1,
        ;
    }
}

proof fn lemma_fact_monotone(a: nat, b: nat)
    requires
        a <= b,
    ensures
        fact(a) <= fact(b),
    decreases b - a,
{
    if a < b {
        lemma_fact_monotone(a, (b - 1) as nat);
        lemma_fact_positive((b - 1) as nat);
        assert(fact((b - 1) as nat) <= b * fact((b - 1) as nat)) by (nonlinear_arith)
            requires
                b >= 1,
        ;
    }
}

proof fn lemma_fact_fits(n: nat)
    requires
        n <= 20,
    ensures
        fact(n) <= u64::MAX,
{
    reveal_with_fuel(fact, 2);
    assert(fact(1) == 1nat);
    assert(fact(2) == 2nat);
    assert(fact(3) == 6nat);
    assert(fact(4) == 24nat);
    assert(fact(5) == 120nat);
    assert(fact(6) == 720nat);
    assert(fact(7) == 5040nat);
    assert(fact(8) == 40320nat);
    assert(fact(9) == 362880nat);
    assert(fact(10) == 3628800nat);
    assert(fact(11) == 39916800nat);
    assert(fact(12) == 479001600nat);
    assert(fact(13) == 6227020800nat);
    assert(fact(14) == 87178291200nat);
    assert(fact(15) == 1307674368000nat);
    assert(fact(16) == 20922789888000nat);
    assert(fact(17) == 355687428096000nat);
    assert(fact(18) == 6402373705728000nat);
    assert(fact(19) == 121645100408832000nat);
    assert(fact(20) == 2432902008176640000nat);
    lemma_fact_monotone(n, 20);
}

/// `n!`, or an error when `n` exceeds `MAX_FACTORIAL_ARG`.
pub fn factorial(n: u64) -> (r: Result<u64, &'static str>)
    ensures
        n <= MAX_FACTORIAL_ARG ==> r == Ok::<u64, &'static str>(fact(n as nat) as u64),
        n > MAX_FACTORIAL_ARG ==> r == Err::<u64, &'static str>(
            "Factorial is too large. Maximum allowed is 20!",
        ),
{
    if n > MAX_FACTORIAL_ARG {
        return Err("Factorial is too large. Maximum allowed is 20!");
    }
    let mut acc: u64 = 1;
    let mut i: u64 = 0;
    while i < n
        invariant
            i <= n <= 20,
            acc as nat == fact(i as nat),
        decreases n - i,
    {
        proof {
            lemma_fact_fits((i + 1) as nat);
        }
        assert(fact((i + 1) as nat) == (i + 1) * fact(i as nat));
        i = i + 1;
        acc = acc * i;
    }
    Ok(acc)
}

/// Whether `c` is an ASCII decimal digit.
pub open spec fn is_digit(c: char) -> bool {
    '0' <= c <= '9'
}

/// The value of a string of decimal digits, most significant first.
pub open spec fn digits_value(s: Seq<char>) -> nat
    decreases s.len(),
{
    if s.len() == 0 {
        0
    } else {
        (digits_value(s.drop_last()) * 10 + (s.last() as int - '0' as int)) as nat
    }
}

/// The `u64` that a text denotes in decimal: an optional `+`, then one or
/// more digits whose value fits in 64 bits.
pub open spec fn u64_text(s: Seq<char>) -> Option<u64> {
    let d = if s.len() > 0 && s[0] == '+' {
        s.drop_first()
    } else {
        s
    };
    if d.len() > 0 && (forall|i: int| 0 <= i < d.len() ==> is_digit(#[trigger] d[i]))
        && digits_value(d) <= u64::MAX {
        Some(digits_value(d) as u64)
    } else {
        None
    }
}

/// Relies on `<u64 as FromStr>::from_str`: an optional `+` followed by
/// decimal digits is accepted when the value fits; anything else is an error.
#[verifier::external_body]
fn parse_u64(s: &str) -> (r: Option<u64>)
    ensures
        r == u64_text(s@),
{
    s.parse::<u64>().ok()
}

/// Whether an expression asks for a factorial: it ends in `!`.
pub open spec fn is_factorial_form(s: Seq<char>) -> bool {
    s.len() > 0 && s.last() == '!'
}

/// Reads `<n>!`. Any other expression gives `Ok(None)`; a text before the
/// `!` that is no `u64` gives an error, and so does an `n` above
/// `MAX_FACTORIAL_ARG`.
pub fn parse_factorial(expression: &str) -> (r: Result<Option<u64>, &'static str>)
    ensures
        !is_factorial_form(expression@) ==> r == Ok::<Option<u64>, &'static str>(None),
        is_factorial_form(expression@) ==> match u64_text(expression@.drop_last()) {
            None => r == Err::<Option<u64>, &'static str>("Invalid number for factorial"),
            Some(n) => if n <= MAX_FACTORIAL_ARG {
                r == Ok::<Option<u64>, &'static str>(Some(fact(n as nat) as u64))
            } else {
                r == Err::<Option<u64>, &'static str>(
                    "Factorial is too large. Maximum allowed is 20!",
                )
            },
        },
{
    let len = expression.unicode_len();
    if len == 0 || expression.get_char(len - 1) != '!' {
        return Ok(None);
    }
    let num_part = expression.substring_char(0, len - 1);
    assert(num_part@ == expression@.drop_last());
    match parse_u64(num_part) {
        None => Err("Invalid number for factorial"),
        Some(n) => match factorial(n) {
            Ok(v) => Ok(Some(v)),
            Err(e) => Err(e),
        },
    }
}

/// The whitespace-separated words of a text, in order.
pub uninterp spec fn words_of(s: Seq<char>) -> Seq<Seq<char>>;

/// Relies on `str::split_whitespace`: the words of the text, in order; the
/// result depends on the text alone.
#[verifier::external_body]
fn split_words(s: &str) -> (r: Vec<String>)
    ensures
        r@.map_values(|w: String| w@) == words_of(s@),
{
    s.split_whitespace().map(|w| w.to_string()).collect()
}

/// Splits a binary expression given as its words into its left operand,
/// operator and right operand; anything but exactly three words is an
/// error.
pub fn three_tokens(words: Vec<String>) -> (r: Result<(String, String, String), &'static str>)
    ensures
        words@.len() == 3 ==> (r matches Ok((a, op, b)) && a@ == words@[0]@ && op@ == words@[1]@
            && b@ == words@[2]@),
        words@.len() != 3 ==> r == Err::<(String, String, String), &'static str>("Invalid format. Expected: `<num> <operator> <num>`"),
{
    if words.len() != 3 {
        return Err("Invalid format. Expected: `<num> <operator> <num>`");
    }
    let mut words = words;
    let b = words.pop().unwrap();
    let op = words.pop().unwrap();
    let a = words.pop().unwrap();
    Ok((a, op, b))
}

/// The left operand, operator and right operand of `<num> <operator> <num>`,
/// as texts; any other number of words is an error.
pub fn expression_tokens(expression: &str) -> (r: Result<(String, String, String), &'static str>)
    ensures
        words_of(expression@).len() == 3 ==> (r matches Ok((a, op, b)) && a@ == words_of(
            expression@,
        )[0] && op@ == words_of(expression@)[1] && b@ == words_of(expression@)[2]),
        words_of(expression@).len() != 3 ==> r == Err::<(String, String, String), &'static str>(
            "Invalid format. Expected: `<num> <operator> <num>`",
        ),
{
    let words = split_words(expression);
    assert(words@.len() == words_of(expression@).len());
    proof {
        if words@.len() == 3 {
            assert(words@.map_values(|w: String| w@)[0] == words@[0]@);
            assert(words@.map_values(|w: String| w@)[1] == words@[1]@);
            assert(words@.map_values(|w: String| w@)[2] == words@[2]@);
        }
    }
    three_tokens(words)
}

} // verus!
