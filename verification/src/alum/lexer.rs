use crate::alum::token::{tokens_view, SpecToken, Token};
use vstd::prelude::*;

verus! {

/// How the lexer treats a character.
#[derive(Debug, Clone, Copy, PartialEq, Eq, Structural)]
pub enum CharClass {
    /// Space, tab, line feed or form feed: skipped.
    Blank,
    /// A decimal digit or a dot: part of a number.
    NumberChar,
    /// An ASCII letter: part of a word.
    Letter,
    /// Any other character: a token of its own.
    Other,
}

/// The class of a character.
pub open spec fn class_of(c: char) -> CharClass {
    if c == ' ' || c == '\t' || c == '\n' || c == '\x0C' {
        CharClass::Blank
    } else if ('0' <= c && c <= '9') || c == '.' {
        CharClass::NumberChar
    } else if ('a' <= c && c <= 'z') || ('A' <= c && c <= 'Z') {
        CharClass::Letter
    } else {
        CharClass::Other
    }
}

/// The end of the run of characters of class `cls` that starts at `i`.
pub open spec fn run_end(s: Seq<char>, i: int, cls: CharClass) -> int
    decreases s.len() - i,
{
    if 0 <= i < s.len() && class_of(s[i]) == cls {
        run_end(s, i + 1, cls)
    } else {
        i
    }
}

/// The token for a word: a keyword, or else an identifier.
pub open spec fn word_token(w: Seq<char>) -> SpecToken {
    if w == seq!['f', 'u', 'n'] {
        Token::Fun
    } else if w == seq!['g', 'l', 'o', 'b', 'a', 'l'] {
        Token::Global
    } else if w == seq!['l', 'e', 't'] {
        Token::Let
    } else if w == seq!['i', 'f'] {
        Token::If
    } else if w == seq!['w', 'h', 'i', 'l', 'e'] {
        Token::While
    } else if w == seq!['r', 'e', 't', 'u', 'r', 'n'] {
        Token::Return
    } else {
        Token::Ident(w)
    }
}

/// The token for a character that is neither blank, nor part of a number,
/// nor a letter: a punctuation token, or else an error token.
pub open spec fn symbol_token(c: char) -> SpecToken {
    if c == '(' {
        Token::LParen
    } else if c == ')' {
        Token::RParen
    } else if c == '[' {
        Token::LBracket
    } else if c == ']' {
        Token::RBracket
    } else if c == '{' {
        Token::LCurly
    } else if c == '}' {
        Token::RCurly
    } else if c == '@' {
        Token::Period
    } else if c == ',' {
        Token::Comma
    } else if c == ':' {
        Token::Colon
    } else if c == ';' {
        Token::Semicolon
    } else if c == '+' {
        Token::Add
    } else if c == '-' {
        Token::Sub
    } else if c == '*' {
        Token::Mul
    } else if c == '/' {
        Token::Div
    } else if c == '=' {
        Token::Assign
    } else if c == '%' {
        Token::Rem
    } else {
        Token::Error
    }
}

/// A run of one class that starts at `i` ends after `i`, and no later than
/// the end of the text.
pub proof fn lemma_run_end(s: Seq<char>, i: int, cls: CharClass)
    requires
        0 <= i <= s.len(),
    ensures
        i <= run_end(s, i, cls) <= s.len(),
        i < s.len() && class_of(s[i]) == cls ==> i < run_end(s, i, cls),
        forall|k: int| i <= k < run_end(s, i, cls) ==> class_of(#[trigger] s[k]) == cls,
        run_end(s, i, cls) < s.len() ==> class_of(s[run_end(s, i, cls)]) != cls,
    decreases s.len() - i,
{
    if i < s.len() && class_of(s[i]) == cls {
        lemma_run_end(s, i + 1, cls);
    }
}

/// The tokens of `s` from position `i` on: blanks are skipped; a maximal run
/// of digits and dots is a number; a maximal run of letters is a keyword or
/// an identifier; any other character is a token of its own.
pub open spec fn lex_from(s: Seq<char>, i: int) -> Seq<SpecToken>
    decreases s.len() - i,
{
    if i < 0 || i >= s.len() {
        seq![]
    } else {
        let cls = class_of(s[i]);
        let e = run_end(s, i, cls);
        proof {
            lemma_run_end(s, i, cls);
        }
        match cls {
            CharClass::Blank => lex_from(s, e),
            CharClass::NumberChar => seq![Token::Number(s.subrange(i, e))] + lex_from(s, e),
            CharClass::Letter => seq![word_token(s.subrange(i, e))] + lex_from(s, e),
            CharClass::Other => seq![symbol_token(s[i])] + lex_from(s, i + 1),
        }
    }
}

/// The tokens of a source text.
pub open spec fn lex_spec(s: Seq<char>) -> Seq<SpecToken> {
    lex_from(s, 0)
}

/// Whether a token is one that the lexer can give: a number is a non-empty
/// run of digits and dots; an identifier is a non-empty run of letters that
/// is not a keyword.
pub open spec fn well_formed_token(t: SpecToken) -> bool {
    match t {
        Token::Number(n) => n.len() > 0 && forall|k: int|
            0 <= k < n.len() ==> class_of(#[trigger] n[k]) == CharClass::NumberChar,
        Token::Ident(w) => w.len() > 0 && (forall|k: int|
            0 <= k < w.len() ==> class_of(#[trigger] w[k]) == CharClass::Letter) && word_token(w)
            == Token::Ident(w),
        _ => true,
    }
}

proof fn lemma_lex_from_well_formed(s: Seq<char>, i: int)
    ensures
        forall|k: int|
            0 <= k < lex_from(s, i).len() ==> well_formed_token(#[trigger] lex_from(s, i)[k]),
    decreases s.len() - i,
{
    if 0 <= i < s.len() {
        let cls = class_of(s[i]);
        let e = run_end(s, i, cls);
        lemma_run_end(s, i, cls);
        lemma_lex_from_well_formed(s, e);
        lemma_lex_from_well_formed(s, i + 1);
        let w = s.subrange(i, e);
        assert forall|k: int| 0 <= k < w.len() implies class_of(#[trigger] w[k]) == cls by {
            assert(w[k] == s[i + k]);
        }
        let t = match cls {
            CharClass::NumberChar => Token::Number(w),
            CharClass::Letter => word_token(w),
            _ => symbol_token(s[i]),
        };
        assert(well_formed_token(t));
        if cls == CharClass::Blank {
            assert(lex_from(s, i) == lex_from(s, e));
        } else {
            let rest = if cls == CharClass::Other {
                lex_from(s, i + 1)
            } else {
                lex_from(s, e)
            };
            assert(lex_from(s, i) == seq![t] + rest);
            assert forall|k: int| 0 <= k < lex_from(s, i).len() implies well_formed_token(
                #[trigger] lex_from(s, i)[k],
            ) by {
                if k > 0 {
                    assert(lex_from(s, i)[k] == rest[k - 1]);
                }
            }
        }
    }
}

/// Every token that the lexer gives is well formed: numbers and identifiers
/// are non-empty runs of their characters, and no identifier is a keyword.
pub proof fn law_lex_well_formed(s: Seq<char>)
    ensures
        forall|k: int|
            0 <= k < lex_spec(s).len() ==> well_formed_token(#[trigger] lex_spec(s)[k]),
{
    lemma_lex_from_well_formed(s, 0);
}

proof fn lemma_run_end_shift(c: Seq<char>, d: Seq<char>, k: int, j: int, cls: CharClass)
    requires
        0 <= k,
        c.len() == k + d.len(),
        forall|m: int| 0 <= m < d.len() ==> c[k + m] == d[m],
        0 <= j <= d.len(),
    ensures
        run_end(c, k + j, cls) == k + run_end(d, j, cls),
    decreases d.len() - j,
{
    if j < d.len() {
        assert(c[k + j] == d[j]);
        lemma_run_end_shift(c, d, k, j + 1, cls);
    }
}

proof fn lemma_lex_shift(c: Seq<char>, d: Seq<char>, k: int, j: int)
    requires
        0 <= k,
        c.len() == k + d.len(),
        forall|m: int| 0 <= m < d.len() ==> c[k + m] == d[m],
        0 <= j <= d.len(),
    ensures
        lex_from(c, k + j) == lex_from(d, j),
    decreases d.len() - j,
{
    if j < d.len() {
        assert(c[k + j] == d[j]);
        let cls = class_of(d[j]);
        lemma_run_end(d, j, cls);
        lemma_run_end_shift(c, d, k, j, cls);
        let e = run_end(d, j, cls);
        lemma_lex_shift(c, d, k, e);
        lemma_lex_shift(c, d, k, j + 1);
        assert(c.subrange(k + j, k + e) =~= d.subrange(j, e));
    }
}

proof fn lemma_run_end_prefix(a: Seq<char>, c: Seq<char>, i: int, cls: CharClass)
    requires
        a.len() <= c.len(),
        forall|m: int| 0 <= m < a.len() ==> c[m] == a[m],
        0 <= i <= a.len(),
    ensures
        run_end(a, i, cls) < a.len() ==> run_end(c, i, cls) == run_end(a, i, cls),
        run_end(a, i, cls) == a.len() ==> run_end(c, i, cls) == run_end(c, a.len() as int, cls),
    decreases a.len() - i,
{
    if i < a.len() {
        assert(c[i] == a[i]);
        lemma_run_end_prefix(a, c, i + 1, cls);
    }
}

proof fn lemma_lex_join(a: Seq<char>, b: Seq<char>, i: int)
    requires
        0 <= i <= a.len(),
    ensures
        lex_from(a + seq![' '] + b, i) == lex_from(a, i) + lex_from(b, 0),
    decreases a.len() - i,
{
    let c = a + seq![' '] + b;
    let n = a.len() as int;
    assert forall|m: int| 0 <= m < a.len() implies c[m] == a[m] by {}
    assert forall|m: int| 0 <= m < b.len() implies c[n + 1 + m] == b[m] by {}
    lemma_run_end_shift(c, b, n + 1, 0, CharClass::Blank);
    lemma_lex_shift(c, b, n + 1, 0);
    lemma_run_end(b, 0, CharClass::Blank);
    lemma_lex_shift(c, b, n + 1, run_end(b, 0, CharClass::Blank));
    // From the blank on, `c` lexes as `b` does.
    assert(lex_from(c, n) == lex_from(b, 0)) by {
        assert(c[n] == ' ');
        lemma_run_end(c, n, CharClass::Blank);
        assert(run_end(c, n, CharClass::Blank) == run_end(c, n + 1, CharClass::Blank));
    }
    if i < n {
        let cls = class_of(a[i]);
        let e = run_end(a, i, cls);
        lemma_run_end(a, i, cls);
        lemma_run_end_prefix(a, c, i, cls);
        assert(c[i] == a[i]);
        if cls == CharClass::Other {
            lemma_lex_join(a, b, i + 1);
            assert(lex_from(a, i) == seq![symbol_token(a[i])] + lex_from(a, i + 1));
            assert(lex_from(c, i) == seq![symbol_token(a[i])] + lex_from(c, i + 1));
            assert(lex_from(c, i) =~= lex_from(a, i) + lex_from(b, 0));
        } else if cls == CharClass::Blank && e == n {
            assert(lex_from(a, n) =~= Seq::<SpecToken>::empty());
            lemma_run_end(c, n, CharClass::Blank);
            assert(lex_from(c, n) == lex_from(c, run_end(c, n, CharClass::Blank)));
            assert(lex_from(c, i) =~= lex_from(a, i) + lex_from(b, 0));
        } else {
            if cls != CharClass::Blank && e == n {
                assert(class_of(c[n]) == CharClass::Blank);
                lemma_run_end(c, n, cls);
            }
            assert(run_end(c, i, cls) == e);
            lemma_lex_join(a, b, e);
            assert(c.subrange(i, e) =~= a.subrange(i, e));
            assert(lex_from(c, i) =~= lex_from(a, i) + lex_from(b, 0));
        }
    } else {
        assert(lex_from(a, n) =~= Seq::<SpecToken>::empty());
        assert(lex_from(c, n) =~= lex_from(a, n) + lex_from(b, 0));
    }
}

/// A non-empty text made only of decimal digits and dots lexes to exactly
/// one token: the number with that text.
pub proof fn law_lex_number_text(s: Seq<char>)
    requires
        s.len() > 0,
        forall|k: int| 0 <= k < s.len() ==> ('0' <= #[trigger] s[k] && s[k] <= '9') || s[k] == '.',
    ensures
        lex_spec(s) == seq![Token::<Seq<char>>::Number(s)],
{
    assert(class_of(s[0]) == CharClass::NumberChar);
    lemma_run_end(s, 0, CharClass::NumberChar);
    let e = run_end(s, 0, CharClass::NumberChar);
    if e < s.len() {
        assert(class_of(s[e]) == CharClass::NumberChar);
    }
    assert(e == s.len());
    assert(s.subrange(0, e) =~= s);
    assert(lex_from(s, e) =~= Seq::<SpecToken>::empty());
    assert(lex_spec(s) =~= seq![Token::<Seq<char>>::Number(s)]);
}

/// Two texts joined by a space lex as the first and then the second: no
/// token spans a blank.
pub proof fn law_lex_join_blank(a: Seq<char>, b: Seq<char>)
    ensures
        lex_spec(a + seq![' '] + b) == lex_spec(a) + lex_spec(b),
{
    lemma_lex_join(a, b, 0);
}

pub(crate) fn chars_of(source: &str) -> (r: Vec<char>)
    ensures
        r@ == source@,
{
    let mut out: Vec<char> = Vec::new();
    for c in it: source.chars()
        invariant
            out@ == it.seq().take(it.index() as int),
            it.seq() == source@,
    {
        out.push(c);
    }
    out
}

fn char_class(c: char) -> (r: CharClass)
    ensures
        r == class_of(c),
{
    if c == ' ' || c == '\t' || c == '\n' || c == '\x0C' {
        CharClass::Blank
    } else if ('0' <= c && c <= '9') || c == '.' {
        CharClass::NumberChar
    } else if ('a' <= c && c <= 'z') || ('A' <= c && c <= 'Z') {
        CharClass::Letter
    } else {
        CharClass::Other
    }
}

fn scan_run(s: &Vec<char>, i: usize, cls: CharClass) -> (e: usize)
    requires
        i <= s@.len(),
    ensures
        e == run_end(s@, i as int, cls),
{
    let mut j = i;
    while j < s.len() && char_class(s[j]) == cls
        invariant
            i <= j <= s@.len(),
            run_end(s@, i as int, cls) == run_end(s@, j as int, cls),
        decreases s@.len() - j,
    {
        j = j + 1;
    }
    j
}

fn is_word(s: &Vec<char>, i: usize, e: usize, w: &[char]) -> (r: bool)
    requires
        i <= e <= s@.len(),
    ensures
        r == (s@.subrange(i as int, e as int) == w@),
{
    if e - i != w.len() {
        return false;
    }
    let mut k: usize = 0;
    while k < w.len()
        invariant
            e - i == w@.len(),
            i <= e <= s@.len(),
            k <= w@.len(),
            forall|m: int| 0 <= m < k ==> s@[i + m] == w@[m],
        decreases w@.len() - k,
    {
        if s[i + k] != w[k] {
            return false;
        }
        k = k + 1;
    }
    assert(s@.subrange(i as int, e as int) =~= w@);
    true
}

fn word_to_token(s: &Vec<char>, i: usize, e: usize, text: String) -> (t: Token<String>)
    requires
        i <= e <= s@.len(),
        text@ == s@.subrange(i as int, e as int),
    ensures
        t@ == word_token(s@.subrange(i as int, e as int)),
{
    let ghost w = s@.subrange(i as int, e as int);
    if is_word(s, i, e, &['f', 'u', 'n']) {
        assert(w == seq!['f', 'u', 'n']);
        Token::Fun
    } else if is_word(s, i, e, &['g', 'l', 'o', 'b', 'a', 'l']) {
        assert(w == seq!['g', 'l', 'o', 'b', 'a', 'l']);
        Token::Global
    } else if is_word(s, i, e, &['l', 'e', 't']) {
        assert(w == seq!['l', 'e', 't']);
        Token::Let
    } else if is_word(s, i, e, &['i', 'f']) {
        assert(w == seq!['i', 'f']);
        Token::If
    } else if is_word(s, i, e, &['w', 'h', 'i', 'l', 'e']) {
        assert(w == seq!['w', 'h', 'i', 'l', 'e']);
        Token::While
    } else if is_word(s, i, e, &['r', 'e', 't', 'u', 'r', 'n']) {
        assert(w == seq!['r', 'e', 't', 'u', 'r', 'n']);
        Token::Return
    } else {
        Token::Ident(text)
    }
}

fn symbol_to_token(c: char) -> (t: Token<String>)
    ensures
        t@ == symbol_token(c),
{
    if c == '(' {
        Token::LParen
    } else if c == ')' {
        Token::RParen
    } else if c == '[' {
        Token::LBracket
    } else if c == ']' {
        Token::RBracket
    } else if c == '{' {
        Token::LCurly
    } else if c == '}' {
        Token::RCurly
    } else if c == '@' {
        Token::Period
    } else if c == ',' {
        Token::Comma
    } else if c == ':' {
        Token::Colon
    } else if c == ';' {
        Token::Semicolon
    } else if c == '+' {
        Token::Add
    } else if c == '-' {
        Token::Sub
    } else if c == '*' {
        Token::Mul
    } else if c == '/' {
        Token::Div
    } else if c == '=' {
        Token::Assign
    } else if c == '%' {
        Token::Rem
    } else {
        Token::Error
    }
}

/// Splits a source text into its tokens.
pub fn lex(source: &str) -> (r: Vec<Token<String>>)
    ensures
        tokens_view(r@) == lex_spec(source@),
{
    let chars = chars_of(source);
    let n = chars.len();
    let mut out: Vec<Token<String>> = Vec::new();
    let mut i: usize = 0;
    while i < n
        invariant
            n == chars@.len(),
            chars@ == source@,
            i <= n,
            tokens_view(out@) + lex_from(chars@, i as int) == lex_spec(chars@),
        decreases n - i,
    {
        let cls = char_class(chars[i]);
        proof {
            lemma_run_end(chars@, i as int, cls);
        }
        let ghost rest = lex_from(chars@, i as int);
        let ghost before = tokens_view(out@);
        match cls {
            CharClass::Blank => {
                i = scan_run(&chars, i, cls);
            },
            CharClass::NumberChar => {
                let e = scan_run(&chars, i, cls);
                let text = String::from_str(source.substring_char(i, e));
                out.push(Token::Number(text));
                proof {
                    assert(tokens_view(out@) =~= before.push(Token::Number(chars@.subrange(i as int, e as int))));
                }
                i = e;
            },
            CharClass::Letter => {
                let e = scan_run(&chars, i, cls);
                let text = String::from_str(source.substring_char(i, e));
                let t = word_to_token(&chars, i, e, text);
                out.push(t);
                proof {
                    assert(tokens_view(out@) =~= before.push(t@));
                }
                i = e;
            },
            CharClass::Other => {
                let t = symbol_to_token(chars[i]);
                out.push(t);
                proof {
                    assert(tokens_view(out@) =~= before.push(t@));
                }
                i = i + 1;
            },
        }
    }
    out
}

} // verus!
