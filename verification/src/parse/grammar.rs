//! The grammar: tokens to a syntax tree, by recursive descent.
//!
//! `unary` sits above `power`, and that ordering is the whole subtlety: a
//! leading minus applies to the finished power, so `-2^2` is `-(2^2)`; the
//! exponent of `power` is a `unary`, so `2^-1` parses; and since that
//! exponent recurses back through `unary` into `power`, `2^3^2` is
//! `2^(3^2)`.

use vstd::prelude::*;

use crate::constants::chars_of;
use crate::expression::model::FunctionModel;
use crate::function::ArithmaFunction;
use crate::parse::{lex, lexed_as, lemma_lex_spans_fit, spans_fit, ParseError, Token};
use vstd::string::StringSliceAdditionalSpecFns;

verus! {

/// The binary operators of the grammar.
#[derive(Clone, Copy, Debug, PartialEq, Eq, Structural)]
pub enum BinaryOp {
    Add,
    Sub,
    Mul,
    Div,
    /// `a % b`, which stands for `a - b * floor(a / b)`.
    Rem,
    /// `a ^ b`, right-associative.
    Pow,
}

/// A parsed expression. Numbers and variables carry the byte span of their
/// text, a call the span of the function's name.
#[derive(Debug, PartialEq, Eq)]
pub enum Syntax {
    Number { start: usize, end: usize },
    Variable { start: usize, end: usize },
    Neg(Box<Syntax>),
    Binary(BinaryOp, Box<Syntax>, Box<Syntax>),
    Call { start: usize, end: usize, args: Vec<Syntax> },
}

/// The mathematical form of a [`Syntax`] tree.
pub enum SyntaxModel {
    Number(int, int),
    Variable(int, int),
    Neg(Box<SyntaxModel>),
    Binary(BinaryOp, Box<SyntaxModel>, Box<SyntaxModel>),
    Call(int, int, Seq<SyntaxModel>),
}

impl Syntax {
    pub open spec fn model(&self) -> SyntaxModel
        decreases self,
    {
        match self {
            Syntax::Number { start, end } => SyntaxModel::Number(*start as int, *end as int),
            Syntax::Variable { start, end } => SyntaxModel::Variable(*start as int, *end as int),
            Syntax::Neg(e) => SyntaxModel::Neg(Box::new(e.model())),
            Syntax::Binary(op, l, r) => SyntaxModel::Binary(
                *op,
                Box::new(l.model()),
                Box::new(r.model()),
            ),
            Syntax::Call { start, end, args } => SyntaxModel::Call(
                *start as int,
                *end as int,
                Seq::new(
                    args@.len(),
                    |i: int|
                        if 0 <= i < args@.len() {
                            args@[i].model()
                        } else {
                            SyntaxModel::Number(0, 0)
                        },
                ),
            ),
        }
    }
}

/// The models of a list of trees.
pub open spec fn models(v: Seq<Syntax>) -> Seq<SyntaxModel> {
    Seq::new(v.len(), |i: int| v[i].model())
}

/// What the grammar wanted where it found something else.
#[derive(Clone, Copy, Debug, PartialEq, Eq, Structural)]
pub enum Expectation {
    /// A closing `)`.
    ClosingParen,
    /// A number, a name, or `(`.
    Operand,
}

/// Why the tokens do not form an expression. Positions are token indices.
#[derive(Clone, Copy, Debug, PartialEq, Eq, Structural)]
pub enum SyntaxError {
    /// The token at `index` is not what the grammar wanted there.
    Expected { expected: Expectation, index: usize },
    /// The tokens end in the middle of something; `after` is the last token
    /// read.
    UnexpectedEnd { after: usize },
    /// A complete expression ends before the token at `index`.
    TrailingInput { index: usize },
    /// The name token at `index` calls no known function.
    UnknownFunction { index: usize },
    /// The function named at `index` takes `wanted` arguments, not `given`.
    WrongArity { index: usize, wanted: usize, given: usize },
}

/// Every function a written expression may call, with its argument count,
/// sorted by name.
pub const FUNCTIONS: [(&'static str, usize); 22] = [
    ("abs", 1),
    ("acos", 1),
    ("asin", 1),
    ("atan", 1),
    ("atan2", 2),
    ("cbrt", 1),
    ("ceil", 1),
    ("cos", 1),
    ("cosh", 1),
    ("exp", 1),
    ("floor", 1),
    ("ln", 1),
    ("log", 1),
    ("log10", 1),
    ("log2", 1),
    ("round", 1),
    ("sign", 1),
    ("sin", 1),
    ("sinh", 1),
    ("sqrt", 1),
    ("tan", 1),
    ("tanh", 1),
];

/// The function table as text: `(name, arity)` pairs in table order.
pub open spec fn function_pairs() -> Seq<(Seq<char>, nat)> {
    FUNCTIONS@.map_values(|p: (&'static str, usize)| (p.0@, p.1 as nat))
}

/// The argument count of the first function in `pairs` called `name`.
pub open spec fn arity_in(pairs: Seq<(Seq<char>, nat)>, name: Seq<char>) -> Option<nat>
    decreases pairs.len(),
{
    if pairs.len() == 0 {
        None
    } else if pairs[0].0 == name {
        Some(pairs[0].1)
    } else {
        arity_in(pairs.skip(1), name)
    }
}

/// ASCII upper-case letters to lower case; every other byte as it is.
pub open spec fn ascii_lower(c: u8) -> u8 {
    if 0x41 <= c <= 0x5a {
        (c + 0x20) as u8
    } else {
        c
    }
}

/// The name `b[start..end]` as it is looked up: lower-cased, each byte read
/// as the character of the same number.
pub open spec fn name_key(b: Seq<u8>, start: int, end: int) -> Seq<char> {
    b.subrange(start, end).map_values(|c: u8| ascii_lower(c) as char)
}

/// The token at `p`, if there is one.
pub open spec fn peek(ts: Seq<(Token, usize)>, p: int) -> Option<Token> {
    if 0 <= p < ts.len() {
        Some(ts[p].0)
    } else {
        None
    }
}

/// The tokens ran out at `p`: the last token read is the one before.
pub open spec fn ended(p: int) -> SyntaxError {
    SyntaxError::UnexpectedEnd { after: if p >= 1 {
        (p - 1) as usize
    } else {
        0
    } }
}

/// The results of the grammar's rules: a tree and the position after it.
pub type Parsed = Result<(SyntaxModel, int), SyntaxError>;

/// `expr := term (('+' | '-') term)*`
pub open spec fn p_expr(ts: Seq<(Token, usize)>, b: Seq<u8>, p: int) -> Parsed
    decreases ts.len() - p, 4int,
{
    if p < 0 || p > ts.len() {
        Err(ended(p))
    } else {
        match p_term(ts, b, p) {
            Err(e) => Err(e),
            Ok((left, q)) => if p < q <= ts.len() {
                p_expr_rest(ts, b, q, left)
            } else {
                Err(ended(q))
            },
        }
    }
}

/// The `(('+' | '-') term)*` after a first term `left`.
pub open spec fn p_expr_rest(ts: Seq<(Token, usize)>, b: Seq<u8>, p: int, left: SyntaxModel) -> Parsed
    decreases ts.len() - p, 4int,
{
    if p < 0 || p > ts.len() {
        Err(ended(p))
    } else {
        let op = match peek(ts, p) {
            Some(Token::Plus) => Some(BinaryOp::Add),
            Some(Token::Minus) => Some(BinaryOp::Sub),
            _ => None,
        };
        match op {
            None => Ok((left, p)),
            Some(op) => match p_term(ts, b, p + 1) {
                Err(e) => Err(e),
                Ok((right, q)) => if p < q <= ts.len() {
                    p_expr_rest(
                        ts,
                        b,
                        q,
                        SyntaxModel::Binary(op, Box::new(left), Box::new(right)),
                    )
                } else {
                    Err(ended(q))
                },
            },
        }
    }
}

/// `term := unary (('*' | '/' | '%') unary)*`
pub open spec fn p_term(ts: Seq<(Token, usize)>, b: Seq<u8>, p: int) -> Parsed
    decreases ts.len() - p, 3int,
{
    if p < 0 || p > ts.len() {
        Err(ended(p))
    } else {
        match p_unary(ts, b, p) {
            Err(e) => Err(e),
            Ok((left, q)) => if p < q <= ts.len() {
                p_term_rest(ts, b, q, left)
            } else {
                Err(ended(q))
            },
        }
    }
}

/// The `(('*' | '/' | '%') unary)*` after a first operand `left`.
pub open spec fn p_term_rest(ts: Seq<(Token, usize)>, b: Seq<u8>, p: int, left: SyntaxModel) -> Parsed
    decreases ts.len() - p, 3int,
{
    if p < 0 || p > ts.len() {
        Err(ended(p))
    } else {
        let op = match peek(ts, p) {
            Some(Token::Star) => Some(BinaryOp::Mul),
            Some(Token::Slash) => Some(BinaryOp::Div),
            Some(Token::Percent) => Some(BinaryOp::Rem),
            _ => None,
        };
        match op {
            None => Ok((left, p)),
            Some(op) => match p_unary(ts, b, p + 1) {
                Err(e) => Err(e),
                Ok((right, q)) => if p < q <= ts.len() {
                    p_term_rest(
                        ts,
                        b,
                        q,
                        SyntaxModel::Binary(op, Box::new(left), Box::new(right)),
                    )
                } else {
                    Err(ended(q))
                },
            },
        }
    }
}

/// `unary := ('-' | '+') unary | power`
pub open spec fn p_unary(ts: Seq<(Token, usize)>, b: Seq<u8>, p: int) -> Parsed
    decreases ts.len() - p, 2int,
{
    if p < 0 || p > ts.len() {
        Err(ended(p))
    } else {
        match peek(ts, p) {
            Some(Token::Minus) => match p_unary(ts, b, p + 1) {
                Err(e) => Err(e),
                Ok((e, q)) => Ok((SyntaxModel::Neg(Box::new(e)), q)),
            },
            Some(Token::Plus) => p_unary(ts, b, p + 1),
            _ => p_power(ts, b, p),
        }
    }
}

/// `power := primary ('^' unary)?`
pub open spec fn p_power(ts: Seq<(Token, usize)>, b: Seq<u8>, p: int) -> Parsed
    decreases ts.len() - p, 1int,
{
    if p < 0 || p > ts.len() {
        Err(ended(p))
    } else {
        match p_primary(ts, b, p) {
            Err(e) => Err(e),
            Ok((base, q)) => if p < q <= ts.len() {
                if peek(ts, q) == Some(Token::Caret) {
                    match p_unary(ts, b, q + 1) {
                        Err(e) => Err(e),
                        Ok((exponent, r)) => Ok(
                            (
                                SyntaxModel::Binary(
                                    BinaryOp::Pow,
                                    Box::new(base),
                                    Box::new(exponent),
                                ),
                                r,
                            ),
                        ),
                    }
                } else {
                    Ok((base, q))
                }
            } else {
                Err(ended(q))
            },
        }
    }
}

/// `p` is at a closing `)`: the position after it, or the error.
pub open spec fn p_close(ts: Seq<(Token, usize)>, p: int) -> Result<int, SyntaxError> {
    match peek(ts, p) {
        Some(Token::RParen) => Ok(p + 1),
        Some(_) => Err(SyntaxError::Expected { expected: Expectation::ClosingParen, index: p as usize }),
        None => Err(ended(p)),
    }
}

/// A call of the function named by the token at `at`, spanning
/// `b[start..end]`, with `args`.
pub open spec fn p_call(
    b: Seq<u8>,
    at: int,
    start: int,
    end: int,
    args: Seq<SyntaxModel>,
) -> Result<SyntaxModel, SyntaxError> {
    match arity_in(function_pairs(), name_key(b, start, end)) {
        None => Err(SyntaxError::UnknownFunction { index: at as usize }),
        Some(arity) => if args.len() != arity {
            Err(
                SyntaxError::WrongArity {
                    index: at as usize,
                    wanted: arity as usize,
                    given: args.len() as usize,
                },
            )
        } else {
            Ok(SyntaxModel::Call(start, end, args))
        },
    }
}

/// `primary := number | name | name '(' args ')' | '(' expr ')'`
pub open spec fn p_primary(ts: Seq<(Token, usize)>, b: Seq<u8>, p: int) -> Parsed
    decreases ts.len() - p, 0int,
{
    if p < 0 || p >= ts.len() {
        Err(ended(p))
    } else {
        match ts[p].0 {
            Token::Number { start, end } => Ok((SyntaxModel::Number(start as int, end as int), p + 1)),
            Token::LParen => match p_expr(ts, b, p + 1) {
                Err(e) => Err(e),
                Ok((inner, q)) => match p_close(ts, q) {
                    Err(e) => Err(e),
                    Ok(r) => Ok((inner, r)),
                },
            },
            Token::Name { start, end } => if peek(ts, p + 1) == Some(Token::LParen) {
                match p_args(ts, b, p + 2, Seq::empty()) {
                    Err(e) => Err(e),
                    Ok((args, q)) => match p_close(ts, q) {
                        Err(e) => Err(e),
                        Ok(r) => match p_call(b, p, start as int, end as int, args) {
                            Err(e) => Err(e),
                            Ok(call) => Ok((call, r)),
                        },
                    },
                }
            } else {
                Ok((SyntaxModel::Variable(start as int, end as int), p + 1))
            },
            _ => Err(SyntaxError::Expected { expected: Expectation::Operand, index: p as usize }),
        }
    }
}

/// `args := expr (',' expr)*`, after the arguments `acc` read so far.
pub open spec fn p_args(ts: Seq<(Token, usize)>, b: Seq<u8>, p: int, acc: Seq<SyntaxModel>) -> Result<
    (Seq<SyntaxModel>, int),
    SyntaxError,
>
    decreases ts.len() - p, 5int,
{
    if p < 0 || p > ts.len() {
        Err(ended(p))
    } else {
        match p_expr(ts, b, p) {
            Err(e) => Err(e),
            Ok((arg, q)) => if p < q <= ts.len() {
                if peek(ts, q) == Some(Token::Comma) {
                    p_args(ts, b, q + 1, acc.push(arg))
                } else {
                    Ok((acc.push(arg), q))
                }
            } else {
                Err(ended(q))
            },
        }
    }
}

/// The whole token list as one expression: an expression that ends before
/// the last token leaves trailing input.
pub open spec fn parse_spec(ts: Seq<(Token, usize)>, b: Seq<u8>) -> Result<SyntaxModel, SyntaxError> {
    match p_expr(ts, b, 0) {
        Err(e) => Err(e),
        Ok((e, q)) => if q < ts.len() {
            Err(SyntaxError::TrailingInput { index: q as usize })
        } else {
            Ok(e)
        },
    }
}

/// `r` is what the spec result `spec` says: the same tree and position, or
/// the same error.
pub open spec fn parsed_as(spec: Parsed, r: Result<(Syntax, usize), SyntaxError>) -> bool {
    match spec {
        Ok((m, q)) => r matches Ok((s, q2)) && s.model() == m && q2 == q,
        Err(e) => r == Err::<(Syntax, usize), SyntaxError>(e),
    }
}

/// After arguments `acc` ending at `q`: more after a comma, or the end of
/// the list.
pub open spec fn args_after(ts: Seq<(Token, usize)>, b: Seq<u8>, q: int, acc: Seq<SyntaxModel>) -> Result<
    (Seq<SyntaxModel>, int),
    SyntaxError,
> {
    if peek(ts, q) == Some(Token::Comma) {
        p_args(ts, b, q + 1, acc)
    } else {
        Ok((acc, q))
    }
}

fn ended_at(p: usize) -> (e: SyntaxError)
    ensures
        e == ended(p as int),
{
    SyntaxError::UnexpectedEnd {
        after: if p >= 1 {
            p - 1
        } else {
            0
        },
    }
}

/// Whether `b[start..end]`, lower-cased, spells `name`.
fn key_matches(b: &[u8], start: usize, end: usize, name: &str) -> (m: bool)
    requires
        start <= end <= b@.len(),
    ensures
        m == (name_key(b@, start as int, end as int) == name@),
{
    let chars = chars_of(name);
    let ghost key = name_key(b@, start as int, end as int);
    if chars.len() != end - start {
        assert(key.len() != name@.len());
        return false;
    }
    let mut k: usize = 0;
    while k < chars.len()
        invariant
            chars@ == name@,
            chars@.len() == end - start,
            start <= end <= b@.len(),
            key == name_key(b@, start as int, end as int),
            k <= chars@.len(),
            forall|j: int| 0 <= j < k ==> chars@[j] == key[j],
        decreases chars@.len() - k,
    {
        let c = b[start + k];
        let lower = if 0x41 <= c && c <= 0x5a {
            c + 0x20
        } else {
            c
        };
        assert(key[k as int] == lower as char);
        if chars[k] != lower as char {
            return false;
        }
        k = k + 1;
    }
    assert(key =~= name@);
    true
}

/// The argument count of the function that `b[start..end]` names.
fn arity_of(b: &[u8], start: usize, end: usize) -> (a: Option<usize>)
    requires
        start <= end <= b@.len(),
    ensures
        match arity_in(function_pairs(), name_key(b@, start as int, end as int)) {
            Some(n) => a matches Some(k) && k as nat == n,
            None => a is None,
        },
{
    let ghost key = name_key(b@, start as int, end as int);
    let mut i: usize = 0;
    assert(function_pairs().skip(0) =~= function_pairs());
    while i < FUNCTIONS.len()
        invariant
            0 <= i <= FUNCTIONS@.len(),
            start <= end <= b@.len(),
            key == name_key(b@, start as int, end as int),
            arity_in(function_pairs(), key) == arity_in(function_pairs().skip(i as int), key),
        decreases FUNCTIONS@.len() - i,
    {
        let (name, arity) = FUNCTIONS[i];
        proof {
            assert(function_pairs().skip(i as int)[0] == (name@, arity as nat));
            assert(function_pairs().skip(i as int).skip(1) =~= function_pairs().skip(i + 1));
        }
        if key_matches(b, start, end, name) {
            return Some(arity);
        }
        i = i + 1;
    }
    assert(function_pairs().skip(i as int).len() == 0);
    None
}

/// A sum, difference, product, quotient or remainder node: the operators
/// that bind looser than a sign.
pub open spec fn is_loose_binary(m: SyntaxModel) -> bool {
    m matches SyntaxModel::Binary(op, _, _) && (op is Add || op is Sub || op is Mul || op is Div
        || op is Rem)
}

/// The position of the first token from `p` on that is not a sign.
pub open spec fn after_signs(ts: Seq<(Token, usize)>, p: int) -> int
    decreases ts.len() - p,
{
    if 0 <= p < ts.len() && (ts[p].0 is Minus || ts[p].0 is Plus) {
        after_signs(ts, p + 1)
    } else {
        p
    }
}

/// A power whose tree is a loose operator node was written in parentheses.
proof fn lemma_power_loose_is_parenthesised(ts: Seq<(Token, usize)>, b: Seq<u8>, p: int)
    requires
        p_power(ts, b, p) matches Ok((m, _)) && is_loose_binary(m),
    ensures
        0 <= p < ts.len() && ts[p].0 is LParen,
{
}

/// A signed operand whose tree is a loose operator node was written in
/// parentheses after its signs.
proof fn lemma_unary_loose_is_parenthesised(ts: Seq<(Token, usize)>, b: Seq<u8>, p: int)
    requires
        p_unary(ts, b, p) matches Ok((m, _)) && is_loose_binary(m),
    ensures
        0 <= after_signs(ts, p) < ts.len() && ts[after_signs(ts, p)].0 is LParen,
    decreases ts.len() - p,
{
    if 0 <= p < ts.len() && ts[p].0 is Plus {
        lemma_unary_loose_is_parenthesised(ts, b, p + 1);
    } else if 0 <= p < ts.len() && ts[p].0 is Minus {
    } else {
        lemma_power_loose_is_parenthesised(ts, b, p);
    }
}

/// A leading minus binds only to its operand: the tree read from a minus
/// is a negation, and the negated tree is a sum, difference, product,
/// quotient or remainder only when it was written in parentheses after the
/// minus (and any further signs). So `-1 + 2` reads as `(-1) + 2`, never as
/// `-(1 + 2)`.
pub proof fn law_minus_binds_to_its_operand(ts: Seq<(Token, usize)>, b: Seq<u8>, p: int)
    requires
        0 <= p < ts.len(),
        ts[p].0 is Minus,
        p_unary(ts, b, p) is Ok,
    ensures
        p_unary(ts, b, p) matches Ok((m, _)) && m matches SyntaxModel::Neg(x) && (is_loose_binary(
            *x,
        ) ==> 0 <= after_signs(ts, p + 1) < ts.len() && ts[after_signs(ts, p + 1)].0 is LParen),
{
    let (m, q) = p_unary(ts, b, p)->Ok_0;
    let x = p_unary(ts, b, p + 1)->Ok_0.0;
    if is_loose_binary(x) {
        lemma_unary_loose_is_parenthesised(ts, b, p + 1);
    }
}

/// The sign of a difference or sum binds to its first operand alone:
/// `-a + b` reads as `(-a) + b` and `-a - b` as `(-a) - b`, for all
/// numbers `a` and `b`.
pub proof fn law_negated_first_operand(
    ts: Seq<(Token, usize)>,
    b: Seq<u8>,
    s1: usize,
    e1: usize,
    s2: usize,
    e2: usize,
)
    requires
        ts.len() == 4,
        ts[0].0 is Minus,
        ts[1].0 == (Token::Number { start: s1, end: e1 }),
        ts[2].0 is Plus || ts[2].0 is Minus,
        ts[3].0 == (Token::Number { start: s2, end: e2 }),
    ensures
        parse_spec(ts, b) == Ok::<SyntaxModel, SyntaxError>(
            SyntaxModel::Binary(
                if ts[2].0 is Plus {
                    BinaryOp::Add
                } else {
                    BinaryOp::Sub
                },
                Box::new(SyntaxModel::Neg(Box::new(SyntaxModel::Number(s1 as int, e1 as int)))),
                Box::new(SyntaxModel::Number(s2 as int, e2 as int)),
            ),
        ),
{
    let n1 = SyntaxModel::Number(s1 as int, e1 as int);
    let n2 = SyntaxModel::Number(s2 as int, e2 as int);
    assert(p_primary(ts, b, 1) == Ok::<(SyntaxModel, int), SyntaxError>((n1, 2)));
    assert(p_power(ts, b, 1) == Ok::<(SyntaxModel, int), SyntaxError>((n1, 2)));
    assert(p_unary(ts, b, 1) == Ok::<(SyntaxModel, int), SyntaxError>((n1, 2)));
    let neg = SyntaxModel::Neg(Box::new(n1));
    assert(p_unary(ts, b, 0) == Ok::<(SyntaxModel, int), SyntaxError>((neg, 2)));
    assert(p_term_rest(ts, b, 2, neg) == Ok::<(SyntaxModel, int), SyntaxError>((neg, 2)));
    assert(p_term(ts, b, 0) == Ok::<(SyntaxModel, int), SyntaxError>((neg, 2)));
    assert(p_primary(ts, b, 3) == Ok::<(SyntaxModel, int), SyntaxError>((n2, 4)));
    assert(p_power(ts, b, 3) == Ok::<(SyntaxModel, int), SyntaxError>((n2, 4)));
    assert(p_unary(ts, b, 3) == Ok::<(SyntaxModel, int), SyntaxError>((n2, 4)));
    assert(p_term_rest(ts, b, 4, n2) == Ok::<(SyntaxModel, int), SyntaxError>((n2, 4)));
    assert(p_term(ts, b, 3) == Ok::<(SyntaxModel, int), SyntaxError>((n2, 4)));
    let op = if ts[2].0 is Plus {
        BinaryOp::Add
    } else {
        BinaryOp::Sub
    };
    let whole = SyntaxModel::Binary(op, Box::new(neg), Box::new(n2));
    assert(p_expr_rest(ts, b, 4, whole) == Ok::<(SyntaxModel, int), SyntaxError>((whole, 4)));
    assert(p_expr_rest(ts, b, 2, neg) == Ok::<(SyntaxModel, int), SyntaxError>((whole, 4)));
    assert(p_expr(ts, b, 0) == Ok::<(SyntaxModel, int), SyntaxError>((whole, 4)));
}

/// The tree of a number token.
pub open spec fn number_model(t: Token) -> SyntaxModel {
    match t {
        Token::Number { start, end } => SyntaxModel::Number(start as int, end as int),
        _ => SyntaxModel::Number(0, 0),
    }
}

/// The operator a token stands for between two operands.
pub open spec fn infix_op(t: Token) -> BinaryOp {
    match t {
        Token::Plus => BinaryOp::Add,
        Token::Minus => BinaryOp::Sub,
        Token::Star => BinaryOp::Mul,
        Token::Slash => BinaryOp::Div,
        Token::Percent => BinaryOp::Rem,
        _ => BinaryOp::Pow,
    }
}

/// `+` or `-`.
pub open spec fn is_additive(t: Token) -> bool {
    t is Plus || t is Minus
}

/// `*`, `/` or `%`.
pub open spec fn is_multiplicative(t: Token) -> bool {
    t is Star || t is Slash || t is Percent
}

/// `op(l, r)`.
pub open spec fn node(op: BinaryOp, l: SyntaxModel, r: SyntaxModel) -> SyntaxModel {
    SyntaxModel::Binary(op, Box::new(l), Box::new(r))
}

/// A number not followed by `^` reads as itself, as a unary and as a term
/// operand.
proof fn lemma_number_operand(ts: Seq<(Token, usize)>, b: Seq<u8>, p: int)
    requires
        0 <= p < ts.len(),
        ts[p].0 is Number,
        p + 1 >= ts.len() || !(ts[p + 1].0 is Caret),
    ensures
        p_primary(ts, b, p) == Ok::<(SyntaxModel, int), SyntaxError>((number_model(ts[p].0), p + 1)),
        p_power(ts, b, p) == Ok::<(SyntaxModel, int), SyntaxError>((number_model(ts[p].0), p + 1)),
        p_unary(ts, b, p) == Ok::<(SyntaxModel, int), SyntaxError>((number_model(ts[p].0), p + 1)),
{
}

/// Multiplication, division and remainder bind tighter than addition and
/// subtraction, on either side: for numbers `a`, `b`, `c`, `a + b * c`
/// reads as `a + (b * c)` and `a * b + c` as `(a * b) + c`.
pub proof fn law_products_bind_tighter_than_sums(ts: Seq<(Token, usize)>, b: Seq<u8>)
    requires
        ts.len() == 5,
        ts[0].0 is Number,
        ts[2].0 is Number,
        ts[4].0 is Number,
        (is_additive(ts[1].0) && is_multiplicative(ts[3].0)) || (is_multiplicative(ts[1].0)
            && is_additive(ts[3].0)),
    ensures
        ({
            let a = number_model(ts[0].0);
            let x = number_model(ts[2].0);
            let c = number_model(ts[4].0);
            parse_spec(ts, b) == Ok::<SyntaxModel, SyntaxError>(
                if is_additive(ts[1].0) {
                    node(infix_op(ts[1].0), a, node(infix_op(ts[3].0), x, c))
                } else {
                    node(infix_op(ts[3].0), node(infix_op(ts[1].0), a, x), c)
                },
            )
        }),
{
    let a = number_model(ts[0].0);
    let x = number_model(ts[2].0);
    let c = number_model(ts[4].0);
    lemma_number_operand(ts, b, 0);
    lemma_number_operand(ts, b, 2);
    lemma_number_operand(ts, b, 4);
    if is_additive(ts[1].0) {
        let prod = node(infix_op(ts[3].0), x, c);
        assert(p_term_rest(ts, b, 5, prod) == Ok::<(SyntaxModel, int), SyntaxError>((prod, 5)));
        assert(p_term_rest(ts, b, 3, x) == Ok::<(SyntaxModel, int), SyntaxError>((prod, 5)));
        assert(p_term(ts, b, 2) == Ok::<(SyntaxModel, int), SyntaxError>((prod, 5)));
        assert(p_term_rest(ts, b, 1, a) == Ok::<(SyntaxModel, int), SyntaxError>((a, 1)));
        assert(p_term(ts, b, 0) == Ok::<(SyntaxModel, int), SyntaxError>((a, 1)));
        let whole = node(infix_op(ts[1].0), a, prod);
        assert(p_expr_rest(ts, b, 5, whole) == Ok::<(SyntaxModel, int), SyntaxError>((whole, 5)));
        assert(p_expr_rest(ts, b, 1, a) == Ok::<(SyntaxModel, int), SyntaxError>((whole, 5)));
        assert(p_expr(ts, b, 0) == Ok::<(SyntaxModel, int), SyntaxError>((whole, 5)));
    } else {
        let prod = node(infix_op(ts[1].0), a, x);
        assert(p_term_rest(ts, b, 3, prod) == Ok::<(SyntaxModel, int), SyntaxError>((prod, 3)));
        assert(p_term_rest(ts, b, 1, a) == Ok::<(SyntaxModel, int), SyntaxError>((prod, 3)));
        assert(p_term(ts, b, 0) == Ok::<(SyntaxModel, int), SyntaxError>((prod, 3)));
        assert(p_term_rest(ts, b, 5, c) == Ok::<(SyntaxModel, int), SyntaxError>((c, 5)));
        assert(p_term(ts, b, 4) == Ok::<(SyntaxModel, int), SyntaxError>((c, 5)));
        let whole = node(infix_op(ts[3].0), prod, c);
        assert(p_expr_rest(ts, b, 5, whole) == Ok::<(SyntaxModel, int), SyntaxError>((whole, 5)));
        assert(p_expr_rest(ts, b, 3, prod) == Ok::<(SyntaxModel, int), SyntaxError>((whole, 5)));
        assert(p_expr(ts, b, 0) == Ok::<(SyntaxModel, int), SyntaxError>((whole, 5)));
    }
}

/// Operators of one level group to the left: for numbers `a`, `b`, `c`,
/// `a - b - c` reads as `(a - b) - c` and `a / b / c` as `(a / b) / c`.
pub proof fn law_same_level_operators_group_left(ts: Seq<(Token, usize)>, b: Seq<u8>)
    requires
        ts.len() == 5,
        ts[0].0 is Number,
        ts[2].0 is Number,
        ts[4].0 is Number,
        (is_additive(ts[1].0) && is_additive(ts[3].0)) || (is_multiplicative(ts[1].0)
            && is_multiplicative(ts[3].0)),
    ensures
        parse_spec(ts, b) == Ok::<SyntaxModel, SyntaxError>(
            node(
                infix_op(ts[3].0),
                node(infix_op(ts[1].0), number_model(ts[0].0), number_model(ts[2].0)),
                number_model(ts[4].0),
            ),
        ),
{
    let a = number_model(ts[0].0);
    let x = number_model(ts[2].0);
    let c = number_model(ts[4].0);
    lemma_number_operand(ts, b, 0);
    lemma_number_operand(ts, b, 2);
    lemma_number_operand(ts, b, 4);
    let first = node(infix_op(ts[1].0), a, x);
    let whole = node(infix_op(ts[3].0), first, c);
    if is_additive(ts[1].0) {
        assert(p_term_rest(ts, b, 1, a) == Ok::<(SyntaxModel, int), SyntaxError>((a, 1)));
        assert(p_term(ts, b, 0) == Ok::<(SyntaxModel, int), SyntaxError>((a, 1)));
        assert(p_term_rest(ts, b, 3, x) == Ok::<(SyntaxModel, int), SyntaxError>((x, 3)));
        assert(p_term(ts, b, 2) == Ok::<(SyntaxModel, int), SyntaxError>((x, 3)));
        assert(p_term_rest(ts, b, 5, c) == Ok::<(SyntaxModel, int), SyntaxError>((c, 5)));
        assert(p_term(ts, b, 4) == Ok::<(SyntaxModel, int), SyntaxError>((c, 5)));
        assert(p_expr_rest(ts, b, 5, whole) == Ok::<(SyntaxModel, int), SyntaxError>((whole, 5)));
        assert(p_expr_rest(ts, b, 3, first) == Ok::<(SyntaxModel, int), SyntaxError>((whole, 5)));
        assert(p_expr_rest(ts, b, 1, a) == Ok::<(SyntaxModel, int), SyntaxError>((whole, 5)));
        assert(p_expr(ts, b, 0) == Ok::<(SyntaxModel, int), SyntaxError>((whole, 5)));
    } else {
        assert(p_term_rest(ts, b, 5, whole) == Ok::<(SyntaxModel, int), SyntaxError>((whole, 5)));
        assert(p_term_rest(ts, b, 3, first) == Ok::<(SyntaxModel, int), SyntaxError>((whole, 5)));
        assert(p_term_rest(ts, b, 1, a) == Ok::<(SyntaxModel, int), SyntaxError>((whole, 5)));
        assert(p_term(ts, b, 0) == Ok::<(SyntaxModel, int), SyntaxError>((whole, 5)));
        assert(p_expr_rest(ts, b, 5, whole) == Ok::<(SyntaxModel, int), SyntaxError>((whole, 5)));
        assert(p_expr(ts, b, 0) == Ok::<(SyntaxModel, int), SyntaxError>((whole, 5)));
    }
}

/// Powers group to the right and bind tighter than a sign: for numbers
/// `a`, `b`, `c`, `a ^ b ^ c` reads as `a ^ (b ^ c)`, and `-a ^ b` as
/// `-(a ^ b)`.
pub proof fn law_powers_group_right_under_a_sign(ts: Seq<(Token, usize)>, b: Seq<u8>)
    requires
        (ts.len() == 5 && ts[0].0 is Number && ts[1].0 is Caret && ts[2].0 is Number
            && ts[3].0 is Caret && ts[4].0 is Number) || (ts.len() == 4 && ts[0].0 is Minus
            && ts[1].0 is Number && ts[2].0 is Caret && ts[3].0 is Number),
    ensures
        ts.len() == 5 ==> parse_spec(ts, b) == Ok::<SyntaxModel, SyntaxError>(
            node(
                BinaryOp::Pow,
                number_model(ts[0].0),
                node(BinaryOp::Pow, number_model(ts[2].0), number_model(ts[4].0)),
            ),
        ),
        ts.len() == 4 ==> parse_spec(ts, b) == Ok::<SyntaxModel, SyntaxError>(
            SyntaxModel::Neg(
                Box::new(node(BinaryOp::Pow, number_model(ts[1].0), number_model(ts[3].0))),
            ),
        ),
{
    if ts.len() == 5 {
        let a = number_model(ts[0].0);
        let x = number_model(ts[2].0);
        let c = number_model(ts[4].0);
        lemma_number_operand(ts, b, 4);
        assert(p_primary(ts, b, 2) == Ok::<(SyntaxModel, int), SyntaxError>((x, 3)));
        let inner = node(BinaryOp::Pow, x, c);
        assert(p_power(ts, b, 2) == Ok::<(SyntaxModel, int), SyntaxError>((inner, 5)));
        assert(p_unary(ts, b, 2) == Ok::<(SyntaxModel, int), SyntaxError>((inner, 5)));
        assert(p_primary(ts, b, 0) == Ok::<(SyntaxModel, int), SyntaxError>((a, 1)));
        let whole = node(BinaryOp::Pow, a, inner);
        assert(p_power(ts, b, 0) == Ok::<(SyntaxModel, int), SyntaxError>((whole, 5)));
        assert(p_unary(ts, b, 0) == Ok::<(SyntaxModel, int), SyntaxError>((whole, 5)));
        assert(p_term_rest(ts, b, 5, whole) == Ok::<(SyntaxModel, int), SyntaxError>((whole, 5)));
        assert(p_term(ts, b, 0) == Ok::<(SyntaxModel, int), SyntaxError>((whole, 5)));
        assert(p_expr_rest(ts, b, 5, whole) == Ok::<(SyntaxModel, int), SyntaxError>((whole, 5)));
        assert(p_expr(ts, b, 0) == Ok::<(SyntaxModel, int), SyntaxError>((whole, 5)));
    } else {
        let a = number_model(ts[1].0);
        let x = number_model(ts[3].0);
        lemma_number_operand(ts, b, 3);
        assert(p_primary(ts, b, 1) == Ok::<(SyntaxModel, int), SyntaxError>((a, 2)));
        let pw = node(BinaryOp::Pow, a, x);
        assert(p_power(ts, b, 1) == Ok::<(SyntaxModel, int), SyntaxError>((pw, 4)));
        assert(p_unary(ts, b, 1) == Ok::<(SyntaxModel, int), SyntaxError>((pw, 4)));
        let whole = SyntaxModel::Neg(Box::new(pw));
        assert(p_unary(ts, b, 0) == Ok::<(SyntaxModel, int), SyntaxError>((whole, 4)));
        assert(p_term_rest(ts, b, 4, whole) == Ok::<(SyntaxModel, int), SyntaxError>((whole, 4)));
        assert(p_term(ts, b, 0) == Ok::<(SyntaxModel, int), SyntaxError>((whole, 4)));
        assert(p_expr_rest(ts, b, 4, whole) == Ok::<(SyntaxModel, int), SyntaxError>((whole, 4)));
        assert(p_expr(ts, b, 0) == Ok::<(SyntaxModel, int), SyntaxError>((whole, 4)));
    }
}

/// The function the entry at position `i` of [`FUNCTIONS`] calls.
pub open spec fn table_function(i: int) -> FunctionModel {
    if i == 0 {
        FunctionModel::Abs
    } else if i == 1 {
        FunctionModel::Acos
    } else if i == 2 {
        FunctionModel::Asin
    } else if i == 3 {
        FunctionModel::Atan
    } else if i == 4 {
        FunctionModel::Atan2
    } else if i == 5 {
        FunctionModel::Cbrt
    } else if i == 6 {
        FunctionModel::Ceil
    } else if i == 7 {
        FunctionModel::Cos
    } else if i == 8 {
        FunctionModel::Cosh
    } else if i == 9 {
        FunctionModel::Exp
    } else if i == 10 {
        FunctionModel::Floor
    } else if i == 11 {
        FunctionModel::Ln
    } else if i == 12 {
        FunctionModel::Log
    } else if i == 13 {
        FunctionModel::Log10
    } else if i == 14 {
        FunctionModel::Log2
    } else if i == 15 {
        FunctionModel::Round
    } else if i == 16 {
        FunctionModel::Sign
    } else if i == 17 {
        FunctionModel::Sin
    } else if i == 18 {
        FunctionModel::Sinh
    } else if i == 19 {
        FunctionModel::Sqrt
    } else if i == 20 {
        FunctionModel::Tan
    } else {
        FunctionModel::Tanh
    }
}

/// The function the entry at position `i` of [`FUNCTIONS`] calls.
pub fn function_at(i: usize) -> (f: ArithmaFunction)
    requires
        i < FUNCTIONS@.len(),
    ensures
        f@ == table_function(i as int),
{
    match i {
        0 => ArithmaFunction::Abs,
        1 => ArithmaFunction::Acos,
        2 => ArithmaFunction::Asin,
        3 => ArithmaFunction::Atan,
        4 => ArithmaFunction::Atan2,
        5 => ArithmaFunction::Cbrt,
        6 => ArithmaFunction::Ceil,
        7 => ArithmaFunction::Cos,
        8 => ArithmaFunction::Cosh,
        9 => ArithmaFunction::Exp,
        10 => ArithmaFunction::Floor,
        11 => ArithmaFunction::Ln,
        12 => ArithmaFunction::Log,
        13 => ArithmaFunction::Log10,
        14 => ArithmaFunction::Log2,
        15 => ArithmaFunction::Round,
        16 => ArithmaFunction::Sign,
        17 => ArithmaFunction::Sin,
        18 => ArithmaFunction::Sinh,
        19 => ArithmaFunction::Sqrt,
        20 => ArithmaFunction::Tan,
        _ => ArithmaFunction::Tanh,
    }
}

/// The position of the first entry of `pairs` called `name`.
pub open spec fn index_in(pairs: Seq<(Seq<char>, nat)>, name: Seq<char>) -> Option<nat>
    decreases pairs.len(),
{
    if pairs.len() == 0 {
        None
    } else if pairs[0].0 == name {
        Some(0)
    } else {
        match index_in(pairs.skip(1), name) {
            Some(i) => Some(i + 1),
            None => None,
        }
    }
}

/// The function that `b[start..end]` names, matched without regard to
/// ASCII case.
pub fn call_target(b: &[u8], start: usize, end: usize) -> (r: Option<ArithmaFunction>)
    requires
        start <= end <= b@.len(),
    ensures
        match index_in(function_pairs(), name_key(b@, start as int, end as int)) {
            Some(i) => r matches Some(f) && f@ == table_function(i as int),
            None => r is None,
        },
{
    let ghost key = name_key(b@, start as int, end as int);
    let mut i: usize = 0;
    assert(function_pairs().skip(0) =~= function_pairs());
    while i < FUNCTIONS.len()
        invariant
            0 <= i <= FUNCTIONS@.len(),
            start <= end <= b@.len(),
            key == name_key(b@, start as int, end as int),
            index_in(function_pairs(), key) == match index_in(function_pairs().skip(i as int), key) {
                Some(k) => Some((k + i) as nat),
                None => None::<nat>,
            },
        decreases FUNCTIONS@.len() - i,
    {
        let (name, arity) = FUNCTIONS[i];
        proof {
            assert(function_pairs().skip(i as int)[0] == (name@, arity as nat));
            assert(function_pairs().skip(i as int).skip(1) =~= function_pairs().skip(i + 1));
        }
        if key_matches(b, start, end, name) {
            return Some(function_at(i));
        }
        i = i + 1;
    }
    assert(function_pairs().skip(i as int).len() == 0);
    None
}

fn close(ts: &[(Token, usize)], p: usize) -> (r: Result<usize, SyntaxError>)
    requires
        p <= ts@.len(),
    ensures
        match p_close(ts@, p as int) {
            Ok(n) => r == Ok::<usize, SyntaxError>(n as usize),
            Err(e) => r == Err::<usize, SyntaxError>(e),
        },
{
    if p < ts.len() {
        if ts[p].0 == Token::RParen {
            Ok(p + 1)
        } else {
            Err(SyntaxError::Expected { expected: Expectation::ClosingParen, index: p })
        }
    } else {
        Err(ended_at(p))
    }
}

fn expr(ts: &[(Token, usize)], b: &[u8], p: usize) -> (r: Result<(Syntax, usize), SyntaxError>)
    requires
        p <= ts@.len(),
        spans_fit(ts@, b@.len()),
    ensures
        parsed_as(p_expr(ts@, b@, p as int), r),
        r matches Ok((_, q)) ==> p < q <= ts@.len(),
    decreases ts@.len() - p, 4int,
{
    let (first, q0) = match term(ts, b, p) {
        Ok(x) => x,
        Err(e) => {
            return Err(e);
        },
    };
    let mut left = first;
    let mut q = q0;
    while q < ts.len() && (ts[q].0 == Token::Plus || ts[q].0 == Token::Minus)
        invariant
            p < q <= ts@.len(),
            spans_fit(ts@, b@.len()),
            p_expr(ts@, b@, p as int) == p_expr_rest(ts@, b@, q as int, left.model()),
        decreases ts@.len() - q,
    {
        let op = if ts[q].0 == Token::Plus {
            BinaryOp::Add
        } else {
            BinaryOp::Sub
        };
        let (right, r) = match term(ts, b, q + 1) {
            Ok(x) => x,
            Err(e) => {
                return Err(e);
            },
        };
        left = Syntax::Binary(op, Box::new(left), Box::new(right));
        q = r;
    }
    Ok((left, q))
}

fn term(ts: &[(Token, usize)], b: &[u8], p: usize) -> (r: Result<(Syntax, usize), SyntaxError>)
    requires
        p <= ts@.len(),
        spans_fit(ts@, b@.len()),
    ensures
        parsed_as(p_term(ts@, b@, p as int), r),
        r matches Ok((_, q)) ==> p < q <= ts@.len(),
    decreases ts@.len() - p, 3int,
{
    let (first, q0) = match unary(ts, b, p) {
        Ok(x) => x,
        Err(e) => {
            return Err(e);
        },
    };
    let mut left = first;
    let mut q = q0;
    while q < ts.len() && (ts[q].0 == Token::Star || ts[q].0 == Token::Slash || ts[q].0
        == Token::Percent)
        invariant
            p < q <= ts@.len(),
            spans_fit(ts@, b@.len()),
            p_term(ts@, b@, p as int) == p_term_rest(ts@, b@, q as int, left.model()),
        decreases ts@.len() - q,
    {
        let op = if ts[q].0 == Token::Star {
            BinaryOp::Mul
        } else if ts[q].0 == Token::Slash {
            BinaryOp::Div
        } else {
            BinaryOp::Rem
        };
        let (right, r) = match unary(ts, b, q + 1) {
            Ok(x) => x,
            Err(e) => {
                return Err(e);
            },
        };
        left = Syntax::Binary(op, Box::new(left), Box::new(right));
        q = r;
    }
    Ok((left, q))
}

fn unary(ts: &[(Token, usize)], b: &[u8], p: usize) -> (r: Result<(Syntax, usize), SyntaxError>)
    requires
        p <= ts@.len(),
        spans_fit(ts@, b@.len()),
    ensures
        parsed_as(p_unary(ts@, b@, p as int), r),
        r matches Ok((_, q)) ==> p < q <= ts@.len(),
    decreases ts@.len() - p, 2int,
{
    if p < ts.len() && ts[p].0 == Token::Minus {
        match unary(ts, b, p + 1) {
            Ok((e, q)) => Ok((Syntax::Neg(Box::new(e)), q)),
            Err(e) => Err(e),
        }
    } else if p < ts.len() && ts[p].0 == Token::Plus {
        unary(ts, b, p + 1)
    } else {
        power(ts, b, p)
    }
}

fn power(ts: &[(Token, usize)], b: &[u8], p: usize) -> (r: Result<(Syntax, usize), SyntaxError>)
    requires
        p <= ts@.len(),
        spans_fit(ts@, b@.len()),
    ensures
        parsed_as(p_power(ts@, b@, p as int), r),
        r matches Ok((_, q)) ==> p < q <= ts@.len(),
    decreases ts@.len() - p, 1int,
{
    let (base, q) = match primary(ts, b, p) {
        Ok(x) => x,
        Err(e) => {
            return Err(e);
        },
    };
    if q < ts.len() && ts[q].0 == Token::Caret {
        match unary(ts, b, q + 1) {
            Ok((exponent, r)) => Ok(
                (Syntax::Binary(BinaryOp::Pow, Box::new(base), Box::new(exponent)), r),
            ),
            Err(e) => Err(e),
        }
    } else {
        Ok((base, q))
    }
}

fn primary(ts: &[(Token, usize)], b: &[u8], p: usize) -> (r: Result<(Syntax, usize), SyntaxError>)
    requires
        p <= ts@.len(),
        spans_fit(ts@, b@.len()),
    ensures
        parsed_as(p_primary(ts@, b@, p as int), r),
        r matches Ok((_, q)) ==> p < q <= ts@.len(),
    decreases ts@.len() - p, 0int,
{
    if p >= ts.len() {
        return Err(ended_at(p));
    }
    match ts[p].0 {
        Token::Number { start, end } => Ok((Syntax::Number { start, end }, p + 1)),
        Token::LParen => {
            let (inner, q) = match expr(ts, b, p + 1) {
                Ok(x) => x,
                Err(e) => {
                    return Err(e);
                },
            };
            match close(ts, q) {
                Ok(r) => Ok((inner, r)),
                Err(e) => Err(e),
            }
        },
        Token::Name { start, end } => {
            if p + 1 < ts.len() && ts[p + 1].0 == Token::LParen {
                let (first, q0) = match expr(ts, b, p + 2) {
                    Ok(x) => x,
                    Err(e) => {
                        return Err(e);
                    },
                };
                let mut args: Vec<Syntax> = Vec::new();
                args.push(first);
                let mut q = q0;
                proof {
                    assert(models(args@) =~= Seq::<SyntaxModel>::empty().push(args@[0].model()));
                }
                while q < ts.len() && ts[q].0 == Token::Comma
                    invariant
                        p + 2 < q <= ts@.len(),
                        ts@[p as int].0 == (Token::Name { start, end }),
                        ts@[p + 1].0 == Token::LParen,
                        spans_fit(ts@, b@.len()),
                        p_args(ts@, b@, p + 2, Seq::empty()) == args_after(
                            ts@,
                            b@,
                            q as int,
                            models(args@),
                        ),
                    decreases ts@.len() - q,
                {
                    let (arg, r) = match expr(ts, b, q + 1) {
                        Ok(x) => x,
                        Err(e) => {
                            return Err(e);
                        },
                    };
                    let ghost before = args@;
                    args.push(arg);
                    proof {
                        assert(models(args@) =~= models(before).push(args@.last().model()));
                    }
                    q = r;
                }
                let after = match close(ts, q) {
                    Ok(n) => n,
                    Err(e) => {
                        return Err(e);
                    },
                };
                proof {
                    assert(spans_fit(ts@, b@.len()));
                    assert(match ts@[p as int].0 {
                        Token::Number { start, end } => start <= end <= b@.len(),
                        Token::Name { start, end } => start <= end <= b@.len(),
                        _ => true,
                    });
                }
                match arity_of(b, start, end) {
                    None => Err(SyntaxError::UnknownFunction { index: p }),
                    Some(arity) => if args.len() != arity {
                        Err(SyntaxError::WrongArity { index: p, wanted: arity, given: args.len() })
                    } else {
                        let ghost argm = models(args@);
                        let call = Syntax::Call { start, end, args };
                        proof {
                            assert(call.model() == SyntaxModel::Call(
                                start as int,
                                end as int,
                                argm,
                            )) by {
                                assert(call.model()->Call_2 =~= argm);
                            }
                        }
                        Ok((call, after))
                    },
                }
            } else {
                Ok((Syntax::Variable { start, end }, p + 1))
            }
        },
        _ => Err(SyntaxError::Expected { expected: Expectation::Operand, index: p }),
    }
}

/// Read the tokens of `text` as one expression.
pub fn parse_tokens(tokens: &[(Token, usize)], text: &str) -> (r: Result<Syntax, SyntaxError>)
    requires
        spans_fit(tokens@, text.spec_bytes().len()),
    ensures
        match parse_spec(tokens@, text.spec_bytes()) {
            Ok(m) => r matches Ok(s) && s.model() == m,
            Err(e) => r == Err::<Syntax, SyntaxError>(e),
        },
{
    let b = text.as_bytes();
    match expr(tokens, b, 0) {
        Err(e) => Err(e),
        Ok((e, q)) => if q < tokens.len() {
            Err(SyntaxError::TrailingInput { index: q })
        } else {
            Ok(e)
        },
    }
}

/// Why a text is not an expression: its characters, or its grammar.
#[derive(Debug, PartialEq, Eq)]
pub enum ReadError {
    Lexical(ParseError),
    Grammatical(SyntaxError),
}

/// Read an expression from text: split it into tokens, then read them by
/// the grammar.
pub fn parse_syntax(text: &str) -> (r: Result<Syntax, ReadError>)
    ensures
        match lex_spec_of(text) {
            Err(_) => r matches Err(ReadError::Lexical(e)) && lexed_as(
                text.spec_bytes(),
                Err::<Vec<(Token, usize)>, ParseError>(e),
            ),
            Ok(ts) => match parse_spec(ts, text.spec_bytes()) {
                Ok(m) => r matches Ok(s) && s.model() == m,
                Err(e) => r == Err::<Syntax, ReadError>(ReadError::Grammatical(e)),
            },
        },
{
    let n = text.as_bytes().len();
    match lex(text) {
        Err(e) => Err(ReadError::Lexical(e)),
        Ok(tokens) => {
            proof {
                lemma_lex_spans_fit(text.spec_bytes());
            }
            match parse_tokens(tokens.as_slice(), text) {
                Ok(s) => Ok(s),
                Err(e) => Err(ReadError::Grammatical(e)),
            }
        },
    }
}

/// The tokens of `text`, as [`crate::parse::lex_spec`] gives them.
pub open spec fn lex_spec_of(text: &str) -> Result<Seq<(Token, usize)>, crate::parse::LexFailure> {
    crate::parse::lex_spec(text.spec_bytes())
}

} // verus!
