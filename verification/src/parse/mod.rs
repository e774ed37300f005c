//! Reading an expression from text: the errors, and the lexer.
//!
//! The grammar that the tokens feed:
//!
//! ```text
//! expr    := term (('+' | '-') term)*
//! term    := unary (('*' | '/' | '%') unary)*
//! unary   := ('-' | '+') unary | power
//! power   := primary ('^' unary)?          -- right-associative
//! primary := number | name | name '(' args ')' | '(' expr ')'
//! args    := expr (',' expr)*
//! ```
//!
//! The lexer reads the text byte by byte, each byte taken as the character
//! of the same number (so a byte above `0x7f` reads as its Latin-1
//! character). Numbers and names carry the byte span of their text; the
//! [`grammar`] turns the tokens into a syntax tree.

use vstd::prelude::*;
use vstd::string::StringSliceAdditionalSpecFns;

pub mod grammar;
pub mod variables;

pub use self::variables::free_variables;

verus! {

/// The text could not be read as an expression.
#[derive(Clone, Debug, PartialEq, Eq)]
pub enum ParseError {
    /// The input had nothing in it.
    Empty,
    /// A character that cannot appear in an expression, at a byte offset.
    BadCharacter { found: char, at: usize },
    /// Something was expected and something else was there.
    Expected { expected: &'static str, found: String, at: usize },
    /// Input ended in the middle of something.
    UnexpectedEnd { after: String },
    /// Text after a complete expression.
    TrailingInput { rest: String, at: usize },
    /// A function name nothing is registered for.
    UnknownFunction { name: String, known: String },
    /// A function called with the wrong number of arguments.
    WrongArity { name: String, wanted: usize, given: usize },
}

/// One lexical item. Numbers and names carry the byte span of their text.
#[derive(Clone, Copy, Debug, PartialEq, Eq, Structural)]
pub enum Token {
    Number { start: usize, end: usize },
    Name { start: usize, end: usize },
    Plus,
    Minus,
    Star,
    Slash,
    Percent,
    Caret,
    LParen,
    RParen,
    Comma,
}

/// Why the text does not split into tokens.
pub enum LexFailure {
    /// Nothing but white space.
    Empty,
    /// A byte that starts no token, read as a character, and its offset.
    BadCharacter(char, int),
    /// A number whose digits and points do not spell a number, by its span.
    BadNumber(int, int),
}

/// ASCII decimal digit.
pub open spec fn is_digit(c: u8) -> bool {
    0x30 <= c <= 0x39
}

/// White space (`char::is_whitespace`) among the characters up to `0xff`.
pub open spec fn latin1_white(c: u8) -> bool {
    (0x09 <= c <= 0x0d) || c == 0x20 || c == 0x85 || c == 0xa0
}

/// Alphabetic (`char::is_alphabetic`) among the characters up to `0xff`.
pub open spec fn latin1_alphabetic(c: u8) -> bool {
    ||| 0x41 <= c <= 0x5a
    ||| 0x61 <= c <= 0x7a
    ||| c == 0xaa
    ||| c == 0xb5
    ||| c == 0xba
    ||| 0xc0 <= c <= 0xd6
    ||| 0xd8 <= c <= 0xf6
    ||| 0xf8 <= c
}

/// Numeric (`char::is_numeric`) among the characters up to `0xff`.
pub open spec fn latin1_numeric(c: u8) -> bool {
    is_digit(c) || c == 0xb2 || c == 0xb3 || c == 0xb9 || (0xbc <= c <= 0xbe)
}

/// A byte that continues a name: alphanumeric or `_`.
pub open spec fn name_byte(c: u8) -> bool {
    latin1_alphabetic(c) || latin1_numeric(c) || c == 0x5f
}

/// A byte of a number's mantissa: a digit or `.`.
pub open spec fn mantissa_byte(c: u8) -> bool {
    is_digit(c) || c == 0x2e
}

/// The single-byte operator tokens.
pub open spec fn operator_token(c: u8) -> Option<Token> {
    if c == 0x2b {
        Some(Token::Plus)
    } else if c == 0x2d {
        Some(Token::Minus)
    } else if c == 0x2a {
        Some(Token::Star)
    } else if c == 0x2f {
        Some(Token::Slash)
    } else if c == 0x25 {
        Some(Token::Percent)
    } else if c == 0x5e {
        Some(Token::Caret)
    } else if c == 0x28 {
        Some(Token::LParen)
    } else if c == 0x29 {
        Some(Token::RParen)
    } else if c == 0x2c {
        Some(Token::Comma)
    } else {
        None
    }
}

/// End of the run of digits from `i`.
pub open spec fn digits_end(b: Seq<u8>, i: int) -> int
    decreases b.len() - i,
{
    if 0 <= i < b.len() && is_digit(b[i]) {
        digits_end(b, i + 1)
    } else {
        i
    }
}

/// End of the run of digits and points from `i`.
pub open spec fn mantissa_end(b: Seq<u8>, i: int) -> int
    decreases b.len() - i,
{
    if 0 <= i < b.len() && mantissa_byte(b[i]) {
        mantissa_end(b, i + 1)
    } else {
        i
    }
}

/// End of the run of name bytes from `i`.
pub open spec fn name_end(b: Seq<u8>, i: int) -> int
    decreases b.len() - i,
{
    if 0 <= i < b.len() && name_byte(b[i]) {
        name_end(b, i + 1)
    } else {
        i
    }
}

/// End of the number that starts at `i`: its mantissa, and an exponent
/// when an `e` or `E`, an optional sign and at least one digit follow; an
/// `e` without digits after it is not part of the number.
pub open spec fn number_end(b: Seq<u8>, i: int) -> int {
    let j = mantissa_end(b, i);
    if j < b.len() && (b[j] == 0x65 || b[j] == 0x45) {
        let k = if j + 1 < b.len() && (b[j + 1] == 0x2b || b[j + 1] == 0x2d) {
            j + 2
        } else {
            j + 1
        };
        if k < b.len() && is_digit(b[k]) {
            digits_end(b, k)
        } else {
            j
        }
    } else {
        j
    }
}

/// How many points `m` holds.
pub open spec fn point_count(m: Seq<u8>) -> nat
    decreases m.len(),
{
    if m.len() == 0 {
        0
    } else {
        point_count(m.drop_last()) + if m.last() == 0x2e {
            1nat
        } else {
            0nat
        }
    }
}

/// A run of digits and points that spells a number: at most one point, and
/// at least one digit.
pub open spec fn mantissa_valid(m: Seq<u8>) -> bool {
    point_count(m) <= 1 && exists|k: int| 0 <= k < m.len() && is_digit(#[trigger] m[k])
}

pub proof fn lemma_run_ends(b: Seq<u8>, i: int)
    requires
        0 <= i <= b.len(),
    ensures
        i <= digits_end(b, i) <= b.len(),
        i <= mantissa_end(b, i) <= b.len(),
        i <= name_end(b, i) <= b.len(),
    decreases b.len() - i,
{
    if i < b.len() {
        lemma_run_ends(b, i + 1);
    }
}

pub proof fn lemma_number_end(b: Seq<u8>, i: int)
    requires
        0 <= i < b.len(),
        mantissa_byte(b[i]),
    ensures
        i < mantissa_end(b, i) <= number_end(b, i) <= b.len(),
{
    lemma_run_ends(b, i + 1);
    let j = mantissa_end(b, i);
    lemma_run_ends(b, j);
    if j < b.len() && (b[j] == 0x65 || b[j] == 0x45) {
        let k = if j + 1 < b.len() && (b[j + 1] == 0x2b || b[j + 1] == 0x2d) {
            j + 2
        } else {
            j + 1
        };
        if k < b.len() {
            lemma_run_ends(b, k);
        }
    }
}

/// `r` with `t` in front of its tokens; a failure stays as it is.
pub open spec fn cons_token(t: (Token, usize), r: Result<Seq<(Token, usize)>, LexFailure>) -> Result<
    Seq<(Token, usize)>,
    LexFailure,
> {
    match r {
        Ok(ts) => Ok(seq![t] + ts),
        Err(e) => Err(e),
    }
}

/// The tokens of `b` from byte `i` on, each with its start offset, or the
/// first failure.
pub open spec fn scan(b: Seq<u8>, i: int) -> Result<Seq<(Token, usize)>, LexFailure>
    decreases b.len() - i,
{
    if i < 0 || i >= b.len() {
        Ok(Seq::empty())
    } else {
        let c = b[i];
        if latin1_white(c) {
            scan(b, i + 1)
        } else if operator_token(c) is Some {
            cons_token((operator_token(c)->0, i as usize), scan(b, i + 1))
        } else if mantissa_byte(c) {
            proof {
                lemma_number_end(b, i);
            }
            let j = number_end(b, i);
            if mantissa_valid(b.subrange(i, mantissa_end(b, i))) {
                cons_token(
                    (Token::Number { start: i as usize, end: j as usize }, i as usize),
                    scan(b, j),
                )
            } else {
                Err(LexFailure::BadNumber(i, j))
            }
        } else if latin1_alphabetic(c) || c == 0x5f {
            proof {
                lemma_run_ends(b, i + 1);
            }
            let j = name_end(b, i);
            cons_token((Token::Name { start: i as usize, end: j as usize }, i as usize), scan(b, j))
        } else {
            Err(LexFailure::BadCharacter(c as char, i))
        }
    }
}

/// The tokens of `b`, or why there are none.
pub open spec fn lex_spec(b: Seq<u8>) -> Result<Seq<(Token, usize)>, LexFailure> {
    match scan(b, 0) {
        Ok(ts) => if ts.len() == 0 {
            Err(LexFailure::Empty)
        } else {
            Ok(ts)
        },
        Err(e) => Err(e),
    }
}

/// The bytes of `s`, each read as the character of the same number.
pub open spec fn latin1_text(s: Seq<u8>) -> Seq<char> {
    s.map_values(|c: u8| c as char)
}

/// A byte that can stand in a number's text.
pub open spec fn number_byte(c: u8) -> bool {
    mantissa_byte(c) || c == 0x65 || c == 0x45 || c == 0x2b || c == 0x2d
}

/// `r` reports what [`lex_spec`] says of `b`: the same tokens, or the error
/// for the same failure.
pub open spec fn lexed_as(b: Seq<u8>, r: Result<Vec<(Token, usize)>, ParseError>) -> bool {
    match lex_spec(b) {
        Ok(ts) => r matches Ok(v) && v@ == ts,
        Err(LexFailure::Empty) => r matches Err(ParseError::Empty),
        Err(LexFailure::BadCharacter(c, at)) => r matches Err(
            ParseError::BadCharacter { found, at: a },
        ) && found == c && a == at,
        Err(LexFailure::BadNumber(start, end)) => r matches Err(
            ParseError::Expected { expected, found, at },
        ) && expected@ == "a number"@ && at == start && found@ == "`"@ + latin1_text(
            b.subrange(start, end),
        ) + "`"@,
    }
}

/// Every number and name token spans bytes of `b`.
pub open spec fn spans_fit(ts: Seq<(Token, usize)>, len: nat) -> bool {
    forall|i: int|
        0 <= i < ts.len() ==> match #[trigger] ts[i].0 {
            Token::Number { start, end } => start <= end <= len,
            Token::Name { start, end } => start <= end <= len,
            _ => true,
        }
}

proof fn lemma_cons_fits(t: (Token, usize), rest: Seq<(Token, usize)>, len: nat)
    requires
        spans_fit(rest, len),
        match t.0 {
            Token::Number { start, end } => start <= end <= len,
            Token::Name { start, end } => start <= end <= len,
            _ => true,
        },
    ensures
        spans_fit(seq![t] + rest, len),
{
    let all = seq![t] + rest;
    assert forall|k: int| 0 <= k < all.len() implies match #[trigger] all[k].0 {
        Token::Number { start, end } => start <= end <= len,
        Token::Name { start, end } => start <= end <= len,
        _ => true,
    } by {
        if k == 0 {
            assert(all[0] == t);
        } else {
            assert(all[k] == rest[k - 1]);
        }
    }
}

pub proof fn lemma_scan_spans_fit(b: Seq<u8>, i: int)
    requires
        0 <= i,
        b.len() <= usize::MAX,
    ensures
        scan(b, i) matches Ok(ts) ==> spans_fit(ts, b.len()),
    decreases b.len() - i,
{
    if 0 <= i < b.len() {
        let c = b[i];
        if latin1_white(c) {
            lemma_scan_spans_fit(b, i + 1);
        } else if operator_token(c) is Some {
            lemma_scan_spans_fit(b, i + 1);
            if let Ok(rest) = scan(b, i + 1) {
                lemma_cons_fits((operator_token(c)->0, i as usize), rest, b.len());
            }
        } else if mantissa_byte(c) {
            lemma_number_end(b, i);
            let j = number_end(b, i);
            lemma_scan_spans_fit(b, j);
            if let Ok(rest) = scan(b, j) {
                lemma_cons_fits(
                    (Token::Number { start: i as usize, end: j as usize }, i as usize),
                    rest,
                    b.len(),
                );
            }
        } else if latin1_alphabetic(c) || c == 0x5f {
            lemma_run_ends(b, i + 1);
            let j = name_end(b, i);
            lemma_scan_spans_fit(b, j);
            if let Ok(rest) = scan(b, j) {
                lemma_cons_fits(
                    (Token::Name { start: i as usize, end: j as usize }, i as usize),
                    rest,
                    b.len(),
                );
            }
        }
    }
}

pub proof fn lemma_lex_spans_fit(b: Seq<u8>)
    requires
        b.len() <= usize::MAX,
    ensures
        lex_spec(b) matches Ok(ts) ==> spans_fit(ts, b.len()),
{
    lemma_scan_spans_fit(b, 0);
}

/// The start offset of a token: the offset it is listed with.
pub open spec fn token_start(t: (Token, usize)) -> int {
    match t.0 {
        Token::Number { start, .. } => start as int,
        Token::Name { start, .. } => start as int,
        _ => t.1 as int,
    }
}

/// Tokens come in the order of the text, each at or after `from`, their
/// offsets strictly increasing, each number and name listed at the offset
/// where its span starts.
pub open spec fn in_text_order(ts: Seq<(Token, usize)>, from: int) -> bool {
    &&& forall|i: int| 0 <= i < ts.len() ==> from <= #[trigger] ts[i].1
    &&& forall|i: int, j: int| 0 <= i < j < ts.len() ==> #[trigger] ts[i].1 < #[trigger] ts[j].1
    &&& forall|i: int| 0 <= i < ts.len() ==> token_start(#[trigger] ts[i]) == ts[i].1
}

proof fn lemma_scan_in_order(b: Seq<u8>, i: int)
    requires
        0 <= i,
        b.len() <= usize::MAX,
    ensures
        scan(b, i) matches Ok(ts) ==> in_text_order(ts, i),
    decreases b.len() - i,
{
    if 0 <= i < b.len() {
        let c = b[i];
        let next = if latin1_white(c) || operator_token(c) is Some {
            i + 1
        } else if mantissa_byte(c) {
            lemma_number_end(b, i);
            number_end(b, i)
        } else if latin1_alphabetic(c) || c == 0x5f {
            lemma_run_ends(b, i + 1);
            name_end(b, i)
        } else {
            i + 1
        };
        lemma_scan_in_order(b, next);
        if !latin1_white(c) {
            if let Ok(all) = scan(b, i) {
                let rest = scan(b, next)->Ok_0;
                assert(all == seq![all[0]] + rest);
                assert(all[0].1 == i);
                assert forall|x: int, y: int| 0 <= x < y < all.len() implies #[trigger] all[x].1
                    < #[trigger] all[y].1 by {
                    assert(all[y] == rest[y - 1]);
                    if x > 0 {
                        assert(all[x] == rest[x - 1]);
                    }
                }
                assert forall|x: int| 0 <= x < all.len() implies i <= #[trigger] all[x].1 by {
                    if x > 0 {
                        assert(all[x] == rest[x - 1]);
                    }
                }
                assert forall|x: int| 0 <= x < all.len() implies token_start(#[trigger] all[x])
                    == all[x].1 by {
                    if x > 0 {
                        assert(all[x] == rest[x - 1]);
                    }
                }
            }
        }
    }
}

/// The tokens of a text come in the order of the text: offsets strictly
/// increase, and each number and name is listed where its span starts.
pub proof fn law_tokens_follow_the_text(b: Seq<u8>)
    requires
        b.len() <= usize::MAX,
    ensures
        lex_spec(b) matches Ok(ts) ==> in_text_order(ts, 0),
{
    lemma_scan_in_order(b, 0);
}

fn white(c: u8) -> (w: bool)
    ensures
        w == latin1_white(c),
{
    (0x09 <= c && c <= 0x0d) || c == 0x20 || c == 0x85 || c == 0xa0
}

fn alphabetic(c: u8) -> (a: bool)
    ensures
        a == latin1_alphabetic(c),
{
    (0x41 <= c && c <= 0x5a) || (0x61 <= c && c <= 0x7a) || c == 0xaa || c == 0xb5 || c == 0xba
        || (0xc0 <= c && c <= 0xd6) || (0xd8 <= c && c <= 0xf6) || 0xf8 <= c
}

fn digit(c: u8) -> (d: bool)
    ensures
        d == is_digit(c),
{
    0x30 <= c && c <= 0x39
}

fn continues_name(c: u8) -> (n: bool)
    ensures
        n == name_byte(c),
{
    alphabetic(c) || digit(c) || c == 0xb2 || c == 0xb3 || c == 0xb9 || (0xbc <= c && c <= 0xbe)
        || c == 0x5f
}

fn operator(c: u8) -> (t: Option<Token>)
    ensures
        t == operator_token(c),
{
    if c == 0x2b {
        Some(Token::Plus)
    } else if c == 0x2d {
        Some(Token::Minus)
    } else if c == 0x2a {
        Some(Token::Star)
    } else if c == 0x2f {
        Some(Token::Slash)
    } else if c == 0x25 {
        Some(Token::Percent)
    } else if c == 0x5e {
        Some(Token::Caret)
    } else if c == 0x28 {
        Some(Token::LParen)
    } else if c == 0x29 {
        Some(Token::RParen)
    } else if c == 0x2c {
        Some(Token::Comma)
    } else {
        None
    }
}

/// The one-character text of a byte of a number.
fn number_piece(c: u8) -> (piece: &'static str)
    requires
        number_byte(c),
    ensures
        piece@ == seq![c as char],
{
    proof {
        reveal_strlit("0");
        reveal_strlit("1");
        reveal_strlit("2");
        reveal_strlit("3");
        reveal_strlit("4");
        reveal_strlit("5");
        reveal_strlit("6");
        reveal_strlit("7");
        reveal_strlit("8");
        reveal_strlit("9");
        reveal_strlit(".");
        reveal_strlit("e");
        reveal_strlit("E");
        reveal_strlit("+");
        reveal_strlit("-");
    }
    if c == 0x30 {
        "0"
    } else if c == 0x31 {
        "1"
    } else if c == 0x32 {
        "2"
    } else if c == 0x33 {
        "3"
    } else if c == 0x34 {
        "4"
    } else if c == 0x35 {
        "5"
    } else if c == 0x36 {
        "6"
    } else if c == 0x37 {
        "7"
    } else if c == 0x38 {
        "8"
    } else if c == 0x39 {
        "9"
    } else if c == 0x2e {
        "."
    } else if c == 0x65 {
        "e"
    } else if c == 0x45 {
        "E"
    } else if c == 0x2b {
        "+"
    } else {
        "-"
    }
}

/// The text of `b[start..end]` between backquotes.
fn quoted_number(b: &[u8], start: usize, end: usize) -> (q: String)
    requires
        start <= end <= b@.len(),
        forall|k: int| start <= k < end ==> number_byte(#[trigger] b@[k]),
    ensures
        q@ == "`"@ + latin1_text(b@.subrange(start as int, end as int)) + "`"@,
{
    let mut q = String::from_str("`");
    let mut k = start;
    while k < end
        invariant
            start <= k <= end <= b@.len(),
            forall|m: int| start <= m < end ==> number_byte(#[trigger] b@[m]),
            q@ == "`"@ + latin1_text(b@.subrange(start as int, k as int)),
        decreases end - k,
    {
        let piece = number_piece(b[k]);
        q.append(piece);
        proof {
            assert(latin1_text(b@.subrange(start as int, k + 1)) =~= latin1_text(
                b@.subrange(start as int, k as int),
            ).push(b@[k as int] as char));
        }
        k = k + 1;
    }
    q.append("`");
    q
}

/// Split the text into tokens, each with the byte offset where it starts.
///
/// White space is skipped. An operator is one byte; a number is a run of
/// digits and points with an optional exponent, and must have at most one
/// point and at least one digit; a name starts with a letter or `_` and
/// runs over letters, digits and `_`. Anything else is a bad character.
pub fn lex(text: &str) -> (r: Result<Vec<(Token, usize)>, ParseError>)
    ensures
        lexed_as(text.spec_bytes(), r),
{
    let b = text.as_bytes();
    let ghost bs = b@;
    let n = b.len();
    let mut out: Vec<(Token, usize)> = Vec::new();
    let mut i: usize = 0;
    while i < n
        invariant
            b@ == bs,
            bs == text.spec_bytes(),
            n == bs.len(),
            i <= n,
            scan(bs, 0) == (match scan(bs, i as int) {
                Ok(ts) => Ok(out@ + ts),
                Err(e) => Err::<Seq<(Token, usize)>, LexFailure>(e),
            }),
        decreases n - i,
    {
        let c = b[i];
        if white(c) {
            i = i + 1;
        } else if let Some(t) = operator(c) {
            proof {
                assert(out@.push((t, i)) + scan(bs, i + 1)->Ok_0 =~= out@ + (seq![(t, i)] + scan(
                    bs,
                    i + 1,
                )->Ok_0));
            }
            out.push((t, i));
            i = i + 1;
        } else if digit(c) || c == 0x2e {
            proof {
                lemma_number_end(bs, i as int);
            }
            let mut j = i;
            while j < n && (digit(b[j]) || b[j] == 0x2e)
                invariant
                    b@ == bs,
                    n == bs.len(),
                    i <= j <= n,
                    mantissa_end(bs, i as int) == mantissa_end(bs, j as int),
                    forall|k: int| i <= k < j ==> mantissa_byte(#[trigger] bs[k]),
                decreases n - j,
            {
                j = j + 1;
            }
            let mantissa = j;
            let mut points: usize = 0;
            let mut any_digit = false;
            let mut k = i;
            while k < mantissa
                invariant
                    b@ == bs,
                    i <= k <= mantissa <= n,
                    n == bs.len(),
                    points == point_count(bs.subrange(i as int, k as int)),
                    points <= k - i,
                    any_digit == exists|m: int| i <= m < k && is_digit(#[trigger] bs[m]),
                decreases mantissa - k,
            {
                assert(bs.subrange(i as int, k + 1).drop_last() =~= bs.subrange(i as int, k as int));
                if b[k] == 0x2e {
                    points = points + 1;
                }
                if digit(b[k]) {
                    any_digit = true;
                }
                k = k + 1;
            }
            proof {
                let m = bs.subrange(i as int, mantissa as int);
                if any_digit {
                    let w = choose|w: int| i <= w < mantissa && is_digit(#[trigger] bs[w]);
                    assert(m[w - i] == bs[w]);
                }
                if exists|w: int| 0 <= w < m.len() && is_digit(#[trigger] m[w]) {
                    let w = choose|w: int| 0 <= w < m.len() && is_digit(#[trigger] m[w]);
                    assert(bs[i + w] == m[w]);
                }
            }
            // An exponent, but only when a digit follows the `e` and its sign.
            if j < n && (b[j] == 0x65 || b[j] == 0x45) {
                let mut k = j + 1;
                if k < n && (b[k] == 0x2b || b[k] == 0x2d) {
                    k = k + 1;
                }
                if k < n && digit(b[k]) {
                    let ghost from = k;
                    while k < n && digit(b[k])
                        invariant
                            b@ == bs,
                            n == bs.len(),
                            from <= k <= n,
                            digits_end(bs, from as int) == digits_end(bs, k as int),
                            forall|m: int| from <= m < k ==> is_digit(#[trigger] bs[m]),
                        decreases n - k,
                    {
                        k = k + 1;
                    }
                    j = k;
                }
            }
            assert(j == number_end(bs, i as int));
            if points > 1 || !any_digit {
                let found = quoted_number(b, i, j);
                return Err(ParseError::Expected { expected: "a number", found, at: i });
            }
            let t = Token::Number { start: i, end: j };
            proof {
                assert(out@.push((t, i)) + scan(bs, j as int)->Ok_0 =~= out@ + (seq![(t, i)] + scan(
                    bs,
                    j as int,
                )->Ok_0));
            }
            out.push((t, i));
            i = j;
        } else if alphabetic(c) || c == 0x5f {
            proof {
                lemma_run_ends(bs, i + 1);
            }
            let mut j = i;
            while j < n && continues_name(b[j])
                invariant
                    b@ == bs,
                    n == bs.len(),
                    i <= j <= n,
                    name_end(bs, i as int) == name_end(bs, j as int),
                decreases n - j,
            {
                j = j + 1;
            }
            let t = Token::Name { start: i, end: j };
            proof {
                assert(out@.push((t, i)) + scan(bs, j as int)->Ok_0 =~= out@ + (seq![(t, i)] + scan(
                    bs,
                    j as int,
                )->Ok_0));
            }
            out.push((t, i));
            i = j;
        } else {
            return Err(ParseError::BadCharacter { found: c as char, at: i });
        }
    }
    if out.len() == 0 {
        return Err(ParseError::Empty);
    }
    assert(out@ + Seq::<(Token, usize)>::empty() =~= out@);
    Ok(out)
}

/// Every byte of `d` is a decimal digit.
pub open spec fn all_digits(d: Seq<u8>) -> bool {
    forall|k: int| 0 <= k < d.len() ==> is_digit(#[trigger] d[k])
}

/// A run of mantissa bytes from `i` to `j`, ended by the text or by a
/// byte that is not one, ends the mantissa at `j`.
proof fn lemma_mantissa_run(b: Seq<u8>, i: int, j: int)
    requires
        0 <= i <= j <= b.len(),
        forall|k: int| i <= k < j ==> mantissa_byte(#[trigger] b[k]),
        j == b.len() || !mantissa_byte(b[j]),
    ensures
        mantissa_end(b, i) == j,
    decreases j - i,
{
    if i < j {
        lemma_mantissa_run(b, i + 1, j);
    }
}

/// A run of digits from `i` to the end of the text ends the digits there.
proof fn lemma_digit_run(b: Seq<u8>, i: int)
    requires
        0 <= i <= b.len(),
        forall|k: int| i <= k < b.len() ==> is_digit(#[trigger] b[k]),
    ensures
        digits_end(b, i) == b.len(),
    decreases b.len() - i,
{
    if i < b.len() {
        lemma_digit_run(b, i + 1);
    }
}

/// Digits hold no point.
proof fn lemma_digits_have_no_point(d: Seq<u8>)
    requires
        all_digits(d),
    ensures
        point_count(d) == 0,
    decreases d.len(),
{
    if d.len() > 0 {
        assert(all_digits(d.drop_last()));
        lemma_digits_have_no_point(d.drop_last());
        assert(is_digit(d[d.len() - 1]));
    }
}

/// A number in exponent notation is one token whether or not its exponent
/// has a sign: for digit strings `d` and `m`, the text `d` `e` `m`, and the
/// same with `+` or `-` after the `e` (or with `E`), lexes as a single
/// number spanning the whole text.
pub proof fn law_exponent_sign_is_part_of_the_number(
    d: Seq<u8>,
    e: u8,
    sign: Seq<u8>,
    m: Seq<u8>,
)
    requires
        d.len() >= 1,
        m.len() >= 1,
        all_digits(d),
        all_digits(m),
        e == 0x65u8 || e == 0x45u8,
        sign == Seq::<u8>::empty() || sign == seq![0x2bu8] || sign == seq![0x2du8],
        d.len() + 2 + m.len() <= usize::MAX,
    ensures
        ({
            let b = d + seq![e] + sign + m;
            lex_spec(b) == Ok::<Seq<(Token, usize)>, LexFailure>(
                seq![(Token::Number { start: 0, end: b.len() as usize }, 0usize)],
            )
        }),
{
    let b = d + seq![e] + sign + m;
    let j = d.len() as int;
    let k = j + 1 + sign.len();
    assert forall|x: int| 0 <= x < j implies mantissa_byte(#[trigger] b[x]) by {
        assert(b[x] == d[x]);
    }
    assert(b[j] == e);
    lemma_mantissa_run(b, 0, j);
    assert forall|x: int| k <= x < b.len() implies is_digit(#[trigger] b[x]) by {
        assert(b[x] == m[x - k]);
    }
    assert(b[k] == m[0]);
    if sign.len() == 1 {
        assert(b[j + 1] == sign[0]);
    }
    lemma_digit_run(b, k);
    assert(number_end(b, 0) == b.len());
    assert(b.subrange(0, j) =~= d);
    lemma_digits_have_no_point(d);
    assert(is_digit(d[0]));
    assert(mantissa_valid(b.subrange(0, mantissa_end(b, 0))));
    assert(mantissa_byte(b[0]));
    assert(scan(b, b.len() as int) == Ok::<Seq<(Token, usize)>, LexFailure>(Seq::empty()));
    let t = (Token::Number { start: 0, end: b.len() as usize }, 0usize);
    assert(seq![t] + Seq::<(Token, usize)>::empty() =~= seq![t]);
    assert(scan(b, 0) == Ok::<Seq<(Token, usize)>, LexFailure>(seq![t]));
}

/// A decimal number is one token: for digit strings `d` and `f`, `d`,
/// `d.f`, `d.` and `.f` (where not empty of digits) each lex as a single
/// number spanning the whole text.
pub proof fn law_decimal_number_is_one_token(d: Seq<u8>, point: bool, f: Seq<u8>)
    requires
        all_digits(d),
        all_digits(f),
        d.len() + f.len() >= 1,
        !point ==> f.len() == 0,
        d.len() + 1 + f.len() <= usize::MAX,
    ensures
        ({
            let b = if point {
                d + seq![0x2eu8] + f
            } else {
                d
            };
            lex_spec(b) == Ok::<Seq<(Token, usize)>, LexFailure>(
                seq![(Token::Number { start: 0, end: b.len() as usize }, 0usize)],
            )
        }),
{
    let b = if point {
        d + seq![0x2eu8] + f
    } else {
        d
    };
    assert forall|x: int| 0 <= x < b.len() implies mantissa_byte(#[trigger] b[x]) by {
        if x < d.len() {
            assert(b[x] == d[x]);
        } else if x > d.len() {
            assert(b[x] == f[x - d.len() - 1]);
        }
    }
    lemma_mantissa_run(b, 0, b.len() as int);
    assert(number_end(b, 0) == b.len());
    assert(b.subrange(0, b.len() as int) =~= b);
    if point {
        lemma_points_after_digits(d, f);
    } else {
        lemma_digits_have_no_point(d);
    }
    if d.len() > 0 {
        assert(is_digit(b[0]));
    } else {
        assert(b[1] == f[0]);
        assert(is_digit(b[1]));
    }
    assert(mantissa_valid(b.subrange(0, mantissa_end(b, 0))));
    assert(mantissa_byte(b[0]));
    assert(scan(b, b.len() as int) == Ok::<Seq<(Token, usize)>, LexFailure>(Seq::empty()));
    let t = (Token::Number { start: 0, end: b.len() as usize }, 0usize);
    assert(seq![t] + Seq::<(Token, usize)>::empty() =~= seq![t]);
    assert(scan(b, 0) == Ok::<Seq<(Token, usize)>, LexFailure>(seq![t]));
}

/// Digits, a point, then digits hold exactly one point.
proof fn lemma_points_after_digits(d: Seq<u8>, f: Seq<u8>)
    requires
        all_digits(d),
        all_digits(f),
    ensures
        point_count(d + seq![0x2eu8] + f) == 1,
    decreases f.len(),
{
    if f.len() == 0 {
        let b = d + seq![0x2eu8];
        assert(b.drop_last() =~= d);
        lemma_digits_have_no_point(d);
        assert(d + seq![0x2eu8] + f =~= b);
    } else {
        let g = f.drop_last();
        assert(all_digits(g));
        lemma_points_after_digits(d, g);
        let b = d + seq![0x2eu8] + f;
        assert(b.drop_last() =~= d + seq![0x2eu8] + g);
        assert(b.last() == f.last());
        assert(is_digit(f[f.len() - 1]));
    }
}

} // verus!
