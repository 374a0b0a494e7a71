use crate::alum::lexer::chars_of;
use vstd::prelude::*;

verus! {

// The text that `f64`'s `FromStr` accepts, as its documentation gives it,
// after the text is lowercased:
//
//     Float  ::= Sign? ( 'inf' | 'infinity' | 'nan' | Number )
//     Number ::= ( Digit+ | Digit+ '.' Digit* | Digit* '.' Digit+ ) Exp?
//     Exp    ::= 'e' Sign? Digit+
//     Sign   ::= [+-]
//     Digit  ::= [0-9]

/// Whether `c` is a decimal digit.
pub open spec fn is_digit(c: char) -> bool {
    '0' <= c && c <= '9'
}

/// Whether `c` is `+` or `-`.
pub open spec fn is_sign(c: char) -> bool {
    c == '+' || c == '-'
}

/// Whether `c`, lowercased, is the lowercase letter `w`.
pub open spec fn lower_is(c: char, w: char) -> bool {
    c == w || ('A' <= c && c <= 'Z' && c as int + 32 == w as int)
}

/// Whether `s`, lowercased, is the lowercase word `w`.
pub open spec fn word_ignore_case(s: Seq<char>, w: Seq<char>) -> bool {
    s.len() == w.len() && forall|i: int| 0 <= i < s.len() ==> lower_is(#[trigger] s[i], w[i])
}

/// The end of the run of digits that starts at `i`.
pub open spec fn digits_end(s: Seq<char>, i: int) -> int
    decreases s.len() - i,
{
    if 0 <= i < s.len() && is_digit(s[i]) {
        digits_end(s, i + 1)
    } else {
        i
    }
}

/// Whether `s` from `i` on is empty or an exponent: `e` or `E`, an optional
/// sign, and at least one digit.
pub open spec fn exponent_from(s: Seq<char>, i: int) -> bool {
    i == s.len() || (0 <= i < s.len() && lower_is(s[i], 'e') && {
        let j = if i + 1 < s.len() && is_sign(s[i + 1]) {
            i + 2
        } else {
            i + 1
        };
        j < s.len() && digits_end(s, j) == s.len()
    })
}

/// Whether `s` is a decimal number: digits with at most one dot and at
/// least one digit, then an optional exponent.
pub open spec fn is_decimal(s: Seq<char>) -> bool {
    let a = digits_end(s, 0);
    if a < s.len() && s[a] == '.' {
        let b = digits_end(s, a + 1);
        (a > 0 || b > a + 1) && exponent_from(s, b)
    } else {
        a > 0 && exponent_from(s, a)
    }
}

/// Whether `s` is `inf`, `infinity` or `nan`, in any case.
pub open spec fn is_special(s: Seq<char>) -> bool {
    ||| word_ignore_case(s, seq!['i', 'n', 'f'])
    ||| word_ignore_case(s, seq!['i', 'n', 'f', 'i', 'n', 'i', 't', 'y'])
    ||| word_ignore_case(s, seq!['n', 'a', 'n'])
}

/// Whether `f64`'s `FromStr` accepts `s`.
pub open spec fn is_float_literal(s: Seq<char>) -> bool {
    let body = if s.len() > 0 && is_sign(s[0]) {
        s.drop_first()
    } else {
        s
    };
    is_special(body) || is_decimal(body)
}

/// Whether every character of `s` is a digit or a dot, as in a number token.
pub open spec fn digits_and_dots(s: Seq<char>) -> bool {
    forall|k: int| 0 <= k < s.len() ==> is_digit(#[trigger] s[k]) || s[k] == '.'
}

/// Whether `s` holds at most one dot.
pub open spec fn at_most_one_dot(s: Seq<char>) -> bool {
    forall|i: int, j: int| 0 <= i < j < s.len() && #[trigger] s[i] == '.' ==> #[trigger] s[j] != '.'
}

/// Whether `s` holds a digit.
pub open spec fn has_digit(s: Seq<char>) -> bool {
    exists|k: int| 0 <= k < s.len() && is_digit(#[trigger] s[k])
}

proof fn lemma_digits_run(s: Seq<char>, i: int)
    requires
        0 <= i <= s.len(),
    ensures
        i <= digits_end(s, i) <= s.len(),
        forall|k: int| i <= k < digits_end(s, i) ==> is_digit(#[trigger] s[k]),
        digits_end(s, i) < s.len() ==> !is_digit(s[digits_end(s, i)]),
    decreases s.len() - i,
{
    if i < s.len() && is_digit(s[i]) {
        lemma_digits_run(s, i + 1);
    }
}

/// A number token, a run of digits and dots, is text that `f64` accepts
/// exactly when it holds at most one dot and at least one digit.
pub proof fn law_number_token(s: Seq<char>)
    requires
        digits_and_dots(s),
    ensures
        is_float_literal(s) <==> at_most_one_dot(s) && has_digit(s),
{
    if s.len() > 0 {
        assert(!is_sign(s[0]));
        assert(!lower_is(s[0], 'i'));
        assert(!lower_is(s[0], 'n'));
    }
    assert(!is_special(s));
    let a = digits_end(s, 0);
    lemma_digits_run(s, 0);
    if a < s.len() {
        assert(s[a] == '.');
        let b = digits_end(s, a + 1);
        lemma_digits_run(s, a + 1);
        if b < s.len() {
            assert(s[b] == '.');
            assert(!lower_is(s[b], 'e'));
            assert(!at_most_one_dot(s));
        } else {
            assert(exponent_from(s, b));
            assert forall|i: int, j: int|
                0 <= i < j < s.len() && #[trigger] s[i] == '.' implies #[trigger] s[j] != '.' by {
                if i < a {
                    assert(is_digit(s[i]));
                }
                assert(i >= a);
                assert(j > a);
                assert(is_digit(s[j]));
            }
            if has_digit(s) {
                let k = choose|k: int| 0 <= k < s.len() && is_digit(#[trigger] s[k]);
                assert(k != a);
                if k < a {
                    assert(a > 0);
                } else {
                    assert(b > a + 1);
                }
            }
            if a > 0 {
                assert(is_digit(s[0]));
            } else if b > a + 1 {
                assert(is_digit(s[a + 1]));
            }
        }
    } else {
        assert(exponent_from(s, a));
        assert forall|i: int, j: int|
            0 <= i < j < s.len() && #[trigger] s[i] == '.' implies #[trigger] s[j] != '.' by {
            assert(is_digit(s[i]));
        }
        if a > 0 {
            assert(is_digit(s[0]));
        }
    }
}

fn digit(c: char) -> (r: bool)
    ensures
        r == is_digit(c),
{
    '0' <= c && c <= '9'
}

fn sign(c: char) -> (r: bool)
    ensures
        r == is_sign(c),
{
    c == '+' || c == '-'
}

fn char_lower_is(c: char, w: char) -> (r: bool)
    ensures
        r == lower_is(c, w),
{
    c == w || ('A' <= c && c <= 'Z' && (c as u32) + 32 == (w as u32))
}

fn scan_digits(s: &Vec<char>, i: usize) -> (e: usize)
    requires
        i <= s@.len(),
    ensures
        e == digits_end(s@, i as int),
{
    let mut j = i;
    while j < s.len() && digit(s[j])
        invariant
            i <= j <= s@.len(),
            digits_end(s@, i as int) == digits_end(s@, j as int),
        decreases s@.len() - j,
    {
        j = j + 1;
    }
    j
}

fn word_ignoring_case(s: &Vec<char>, w: &[char]) -> (r: bool)
    ensures
        r == word_ignore_case(s@, w@),
{
    if s.len() != w.len() {
        return false;
    }
    let mut k: usize = 0;
    while k < w.len()
        invariant
            s@.len() == w@.len(),
            k <= w@.len(),
            forall|m: int| 0 <= m < k ==> lower_is(#[trigger] s@[m], w@[m]),
        decreases w@.len() - k,
    {
        if !char_lower_is(s[k], w[k]) {
            return false;
        }
        k = k + 1;
    }
    true
}

fn exponent_at(s: &Vec<char>, i: usize) -> (r: bool)
    requires
        i <= s@.len(),
    ensures
        r == exponent_from(s@, i as int),
{
    if i == s.len() {
        return true;
    }
    if !char_lower_is(s[i], 'e') {
        return false;
    }
    let j = if i + 1 < s.len() && sign(s[i + 1]) {
        i + 2
    } else {
        i + 1
    };
    j < s.len() && scan_digits(s, j) == s.len()
}

/// Whether `f64`'s `FromStr` accepts `text`.
pub fn is_float_text(text: &str) -> (r: bool)
    ensures
        r == is_float_literal(text@),
{
    let all = chars_of(text);
    let start: usize = if all.len() > 0 && sign(all[0]) {
        1
    } else {
        0
    };
    let ghost body = all@.subrange(start as int, all@.len() as int);
    assert(body =~= (if all@.len() > 0 && is_sign(all@[0]) {
        all@.drop_first()
    } else {
        all@
    }));
    let mut s: Vec<char> = Vec::new();
    let mut k = start;
    while k < all.len()
        invariant
            start <= k <= all@.len(),
            s@ == all@.subrange(start as int, k as int),
        decreases all@.len() - k,
    {
        s.push(all[k]);
        k = k + 1;
    }
    assert(s@ =~= body);
    if word_ignoring_case(&s, &['i', 'n', 'f']) || word_ignoring_case(
        &s,
        &['i', 'n', 'f', 'i', 'n', 'i', 't', 'y'],
    ) || word_ignoring_case(&s, &['n', 'a', 'n']) {
        return true;
    }
    let a = scan_digits(&s, 0);
    proof {
        lemma_digits_run(s@, 0);
    }
    if a < s.len() && s[a] == '.' {
        let b = scan_digits(&s, a + 1);
        proof {
            lemma_digits_run(s@, a + 1);
        }
        (a > 0 || b > a + 1) && exponent_at(&s, b)
    } else {
        a > 0 && exponent_at(&s, a)
    }
}

} // verus!
