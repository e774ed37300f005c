//! Fragment combinators of the code emitter.
//!
//! A rendered sub-expression is a [`Frag`]: its text plus the precedence of
//! its outermost operator, so a parent can decide whether the child needs
//! parentheses. The combinators here build the fragments for powers, postfix
//! operators and MathML infix operators, and spell constants in LaTeX.

use vstd::prelude::*;

use crate::expression::model::FunctionModel;
use crate::expression::EmitTarget;
use crate::function::ArithmaFunction;

verus! {

/// Precedence of `+` and `-`.
pub const PREC_ADD: u8 = 1;

/// Precedence of `*` and `/`.
pub const PREC_MUL: u8 = 2;

/// Precedence of unary minus.
pub const PREC_UNARY: u8 = 3;

/// Precedence of `^`.
pub const PREC_POW: u8 = 4;

/// Precedence of an atom: never needs parentheses.
pub const PREC_ATOM: u8 = 5;

/// A rendered fragment plus the precedence of its outermost operator.
#[derive(Debug)]
pub struct Frag {
    pub text: String,
    pub prec: u8,
}

/// `text` in parentheses when its precedence is below `needed`.
pub open spec fn paren_view(text: Seq<char>, prec: u8, needed: int) -> Seq<char> {
    if prec < needed {
        "("@ + text + ")"@
    } else {
        text
    }
}

/// The text of the power of `base` and `exp` in each target dialect.
pub open spec fn power_text(base: Seq<char>, base_prec: u8, exp: Seq<char>, exp_prec: u8, target: EmitTarget) -> Seq<char> {
    match target {
        EmitTarget::Latex => paren_view(base, base_prec, PREC_POW + 1) + "^{"@ + exp + "}"@,
        EmitTarget::MathMl => "<msup>"@ + base + exp + "</msup>"@,
        EmitTarget::EmlRpn => base + " "@ + exp + " ^"@,
        EmitTarget::Glsl => "pow("@ + base + ", "@ + exp + ")"@,
        EmitTarget::Hlsl => "pow("@ + base + ", "@ + exp + ")"@,
        EmitTarget::Text => paren_view(base, base_prec, PREC_POW + 1) + "^"@ + paren_view(
            exp,
            exp_prec,
            PREC_POW + 1,
        ),
    }
}

/// The precedence of a power in each target dialect.
pub open spec fn power_prec(target: EmitTarget) -> u8 {
    match target {
        EmitTarget::Latex => PREC_POW,
        EmitTarget::Text => PREC_POW,
        _ => PREC_ATOM,
    }
}

/// The LaTeX spelling of a constant symbol.
pub open spec fn latex_view(symbol: Seq<char>) -> Seq<char> {
    if symbol == "π"@ || symbol == "pi"@ {
        "\\pi"@
    } else if symbol == "τ"@ || symbol == "tau"@ {
        "\\tau"@
    } else if symbol == "γ"@ || symbol == "gamma"@ {
        "\\gamma"@
    } else if symbol == "φ"@ || symbol == "phi"@ {
        "\\phi"@
    } else if symbol == "∞"@ {
        "\\infty"@
    } else {
        symbol
    }
}

impl Frag {
    /// An atom: text that never needs parentheses.
    pub fn atom(text: String) -> (r: Self)
        ensures
            r.text@ == text@,
            r.prec == PREC_ATOM,
    {
        Frag { text, prec: PREC_ATOM }
    }

    /// The text, wrapped in parentheses if this fragment binds looser than
    /// `needed`.
    pub fn paren_if(&self, needed: u8) -> (r: String)
        ensures
            r@ == paren_view(self.text@, self.prec, needed as int),
    {
        if self.prec < needed {
            let mut out = String::from_str("(");
            out.append(self.text.as_str());
            out.append(")");
            out
        } else {
            self.text.clone()
        }
    }
}

/// `base` raised to `exp` in the target dialect.
///
/// GLSL and HLSL have no `^` operator for floats (it is bitwise xor there),
/// so they get `pow(..)`: the difference between a shader that compiles and
/// one that silently does the wrong thing.
pub fn power_frag(base: &Frag, exp: &Frag, target: EmitTarget) -> (r: Frag)
    ensures
        r.text@ == power_text(base.text@, base.prec, exp.text@, exp.prec, target),
        r.prec == power_prec(target),
{
    match target {
        EmitTarget::Latex => {
            let mut text = base.paren_if(PREC_POW + 1);
            text.append("^{");
            text.append(exp.text.as_str());
            text.append("}");
            Frag { text, prec: PREC_POW }
        },
        EmitTarget::MathMl => {
            let mut text = String::from_str("<msup>");
            text.append(base.text.as_str());
            text.append(exp.text.as_str());
            text.append("</msup>");
            Frag { text, prec: PREC_ATOM }
        },
        EmitTarget::EmlRpn => {
            let mut text = base.text.clone();
            text.append(" ");
            text.append(exp.text.as_str());
            text.append(" ^");
            Frag { text, prec: PREC_ATOM }
        },
        EmitTarget::Glsl | EmitTarget::Hlsl => {
            let mut text = String::from_str("pow(");
            text.append(base.text.as_str());
            text.append(", ");
            text.append(exp.text.as_str());
            text.append(")");
            Frag::atom(text)
        },
        EmitTarget::Text => {
            let mut text = base.paren_if(PREC_POW + 1);
            text.append("^");
            let e = exp.paren_if(PREC_POW + 1);
            text.append(e.as_str());
            Frag { text, prec: PREC_POW }
        },
    }
}

/// The postfix form of a binary operator: `lhs rhs op`.
pub fn rpn(kids: &[Frag], op: &str) -> (r: Frag)
    requires
        kids@.len() >= 2,
    ensures
        r.text@ == kids@[0].text@ + " "@ + kids@[1].text@ + " "@ + op@,
        r.prec == PREC_ATOM,
{
    let mut text = kids[0].text.clone();
    text.append(" ");
    text.append(kids[1].text.as_str());
    text.append(" ");
    text.append(op);
    Frag { text, prec: PREC_ATOM }
}

/// A MathML infix operator between two rendered operands.
pub fn mathml_infix(kids: &[Frag], op: &str) -> (r: Frag)
    requires
        kids@.len() >= 2,
    ensures
        r.text@ == kids@[0].text@ + "<mo>"@ + op@ + "</mo>"@ + kids@[1].text@,
        r.prec == PREC_ADD,
{
    let mut text = kids[0].text.clone();
    text.append("<mo>");
    text.append(op);
    text.append("</mo>");
    text.append(kids[1].text.as_str());
    Frag { text, prec: PREC_ADD }
}

/// Whether two strings are spelled alike.
pub(crate) fn same_text(a: &str, b: &str) -> (r: bool)
    ensures
        r == (a@ == b@),
{
    String::from_str(a) == String::from_str(b)
}

/// LaTeX spelling for a constant symbol.
pub fn latex_symbol(symbol: &str) -> (r: String)
    ensures
        r@ == latex_view(symbol@),
{
    if same_text(symbol, "π") || same_text(symbol, "pi") {
        String::from_str("\\pi")
    } else if same_text(symbol, "τ") || same_text(symbol, "tau") {
        String::from_str("\\tau")
    } else if same_text(symbol, "γ") || same_text(symbol, "gamma") {
        String::from_str("\\gamma")
    } else if same_text(symbol, "φ") || same_text(symbol, "phi") {
        String::from_str("\\phi")
    } else if same_text(symbol, "∞") {
        String::from_str("\\infty")
    } else {
        String::from_str(symbol)
    }
}


/// How a target is named in messages.
pub open spec fn target_name(t: EmitTarget) -> Seq<char> {
    match t {
        EmitTarget::Text => "Text"@,
        EmitTarget::Latex => "Latex"@,
        EmitTarget::MathMl => "MathMl"@,
        EmitTarget::Glsl => "Glsl"@,
        EmitTarget::Hlsl => "Hlsl"@,
        EmitTarget::EmlRpn => "EmlRpn"@,
    }
}

/// The maths spelling of the functions that render as named calls.
pub open spec fn call_base_name(f: FunctionModel) -> Option<Seq<char>> {
    match f {
        FunctionModel::Sin => Some("sin"@),
        FunctionModel::Cos => Some("cos"@),
        FunctionModel::Tan => Some("tan"@),
        FunctionModel::Exp => Some("exp"@),
        FunctionModel::Ln => Some("ln"@),
        FunctionModel::Log10 => Some("log10"@),
        FunctionModel::Log2 => Some("log2"@),
        FunctionModel::Abs => Some("abs"@),
        FunctionModel::Floor => Some("floor"@),
        FunctionModel::Ceil => Some("ceil"@),
        FunctionModel::Min => Some("min"@),
        FunctionModel::Max => Some("max"@),
        _ => None,
    }
}

/// The spelling of a named call in a target: the shader dialects write the
/// natural logarithm `log`.
pub open spec fn call_spelling(f: FunctionModel, t: EmitTarget) -> Option<Seq<char>> {
    match call_base_name(f) {
        Some(name) => Some(
            if (t is Glsl || t is Hlsl) && name == "ln"@ {
                "log"@
            } else {
                name
            },
        ),
        None => None,
    }
}

/// The texts of the fragments joined by `sep`.
pub open spec fn joined(kids: Seq<Frag>, sep: Seq<char>) -> Seq<char>
    decreases kids.len(),
{
    if kids.len() == 0 {
        Seq::empty()
    } else if kids.len() == 1 {
        kids[0].text@
    } else {
        joined(kids.drop_last(), sep) + sep + kids.last().text@
    }
}

/// `l sym r`, each side in parentheses where it binds looser than the
/// operator (the right side also where it binds equally).
pub open spec fn infix_view(l: Frag, r: Frag, sym: Seq<char>, prec: u8) -> (Seq<char>, u8) {
    (paren_view(l.text@, l.prec, prec as int) + " "@ + sym + " "@ + paren_view(
        r.text@,
        r.prec,
        prec + 1,
    ), prec)
}

/// The postfix form `l r op`.
pub open spec fn rpn_view(l: Frag, r: Frag, op: Seq<char>) -> (Seq<char>, u8) {
    (l.text@ + " "@ + r.text@ + " "@ + op, PREC_ATOM)
}

/// The MathML infix form.
pub open spec fn mathml_view(l: Frag, r: Frag, op: Seq<char>) -> (Seq<char>, u8) {
    (l.text@ + "<mo>"@ + op + "</mo>"@ + r.text@, PREC_ADD)
}

/// The text and precedence of a function applied to rendered arguments,
/// or `None` where the target has no spelling for the function.
/// `pow_exponent` is the rendered exponent of a `Pow(n)` node.
pub open spec fn emit_call_spec(
    f: FunctionModel,
    kids: Seq<Frag>,
    target: EmitTarget,
    pow_exponent: Frag,
) -> Option<(Seq<char>, u8)> {
    let n = kids.len();
    if f is Add && n == 2 {
        Some(
            match target {
                EmitTarget::EmlRpn => rpn_view(kids[0], kids[1], "+"@),
                EmitTarget::MathMl => mathml_view(kids[0], kids[1], "+"@),
                _ => infix_view(kids[0], kids[1], "+"@, PREC_ADD),
            },
        )
    } else if f is Subtract && n == 2 {
        Some(
            match target {
                EmitTarget::EmlRpn => rpn_view(kids[0], kids[1], "-"@),
                EmitTarget::MathMl => mathml_view(kids[0], kids[1], "-"@),
                _ => infix_view(kids[0], kids[1], "-"@, PREC_ADD),
            },
        )
    } else if f is Multiply && n == 2 {
        Some(
            match target {
                EmitTarget::EmlRpn => rpn_view(kids[0], kids[1], "*"@),
                EmitTarget::MathMl => mathml_view(kids[0], kids[1], "&#x22C5;"@),
                EmitTarget::Latex => (
                    paren_view(kids[0].text@, kids[0].prec, PREC_MUL as int) + " "@ + paren_view(
                        kids[1].text@,
                        kids[1].prec,
                        PREC_MUL + 1,
                    ),
                    PREC_MUL,
                ),
                _ => infix_view(kids[0], kids[1], "*"@, PREC_MUL),
            },
        )
    } else if f is Divide && n == 2 {
        Some(
            match target {
                EmitTarget::EmlRpn => rpn_view(kids[0], kids[1], "/"@),
                EmitTarget::Latex => (
                    "\\frac{"@ + kids[0].text@ + "}{"@ + kids[1].text@ + "}"@,
                    PREC_ATOM,
                ),
                EmitTarget::MathMl => (
                    "<mfrac>"@ + kids[0].text@ + kids[1].text@ + "</mfrac>"@,
                    PREC_ATOM,
                ),
                _ => infix_view(kids[0], kids[1], "/"@, PREC_MUL),
            },
        )
    } else if f is Negate && n == 1 {
        Some(
            match target {
                EmitTarget::EmlRpn => (kids[0].text@ + " neg"@, PREC_ATOM),
                EmitTarget::MathMl => ("<mo>-</mo>"@ + kids[0].text@, PREC_UNARY),
                _ => ("-"@ + paren_view(kids[0].text@, kids[0].prec, PREC_UNARY as int), PREC_UNARY),
            },
        )
    } else if f is Power && n == 2 {
        Some(
            (
                power_text(kids[0].text@, kids[0].prec, kids[1].text@, kids[1].prec, target),
                power_prec(target),
            ),
        )
    } else if f is Pow && n == 1 {
        Some(
            (
                power_text(
                    kids[0].text@,
                    kids[0].prec,
                    pow_exponent.text@,
                    pow_exponent.prec,
                    target,
                ),
                power_prec(target),
            ),
        )
    } else if f is Sqrt && n == 1 {
        Some(
            match target {
                EmitTarget::Latex => ("\\sqrt{"@ + kids[0].text@ + "}"@, PREC_ATOM),
                EmitTarget::MathMl => ("<msqrt>"@ + kids[0].text@ + "</msqrt>"@, PREC_ATOM),
                EmitTarget::EmlRpn => (kids[0].text@ + " sqrt"@, PREC_ATOM),
                _ => ("sqrt("@ + kids[0].text@ + ")"@, PREC_ATOM),
            },
        )
    } else {
        match call_spelling(f, target) {
            None => None,
            Some(name) => Some(
                match target {
                    EmitTarget::EmlRpn => (joined(kids, " "@) + " "@ + name, PREC_ATOM),
                    EmitTarget::Latex => (
                        "\\"@ + name + "{"@ + joined(kids, ", "@) + "}"@,
                        PREC_ATOM,
                    ),
                    EmitTarget::MathMl => (
                        "<mi>"@ + name + "</mi><mo>&#x2061;</mo><mrow><mo>(</mo>"@ + joined(
                            kids,
                            ""@,
                        ) + "<mo>)</mo></mrow>"@,
                        PREC_ATOM,
                    ),
                    _ => (name + "("@ + joined(kids, ", "@) + ")"@, PREC_ATOM),
                },
            ),
        }
    }
}

/// `l sym r` with the operands parenthesised as `infix_view` says.
fn infix(kids: &[Frag], sym: &str, prec: u8) -> (r: Frag)
    requires
        kids@.len() >= 2,
        prec < PREC_ATOM,
    ensures
        (r.text@, r.prec) == infix_view(kids@[0], kids@[1], sym@, prec),
{
    let mut text = kids[0].paren_if(prec);
    text.append(" ");
    text.append(sym);
    text.append(" ");
    let right = kids[1].paren_if(prec + 1);
    text.append(right.as_str());
    Frag { text, prec }
}

/// The texts of `kids` joined by `sep`.
fn join_texts(kids: &[Frag], sep: &str) -> (r: String)
    ensures
        r@ == joined(kids@, sep@),
{
    let mut out = String::from_str("");
    let mut i: usize = 0;
    proof {
        reveal_strlit("");
    }
    while i < kids.len()
        invariant
            i <= kids@.len(),
            out@ == joined(kids@.subrange(0, i as int), sep@),
        decreases kids@.len() - i,
    {
        proof {
            let next = kids@.subrange(0, i + 1);
            assert(next.drop_last() =~= kids@.subrange(0, i as int));
        }
        if i > 0 {
            out.append(sep);
        }
        out.append(kids[i].text.as_str());
        i = i + 1;
    }
    assert(kids@.subrange(0, kids@.len() as int) =~= kids@);
    out
}

/// How a target is named in messages.
fn target_label(t: EmitTarget) -> (r: &'static str)
    ensures
        r@ == target_name(t),
{
    match t {
        EmitTarget::Text => "Text",
        EmitTarget::Latex => "Latex",
        EmitTarget::MathMl => "MathMl",
        EmitTarget::Glsl => "Glsl",
        EmitTarget::Hlsl => "Hlsl",
        EmitTarget::EmlRpn => "EmlRpn",
    }
}

/// The `Debug` rendering of a function, for messages.
///
/// Calls std's formatting machinery on the derived `Debug`; nothing is
/// claimed of the text.
#[verifier::external_body]
fn debug_text(f: &ArithmaFunction) -> String {
    format!("{f:?}")
}

/// The spelling of a named call in a target, or the message saying there is
/// none.
fn call_name(f: &ArithmaFunction, target: EmitTarget) -> (r: Result<String, String>)
    ensures
        match r {
            Ok(name) => call_spelling(f@, target) == Some(name@),
            Err(_) => call_spelling(f@, target) is None,
        },
{
    let name = match f {
        ArithmaFunction::Sin => "sin",
        ArithmaFunction::Cos => "cos",
        ArithmaFunction::Tan => "tan",
        ArithmaFunction::Exp => "exp",
        ArithmaFunction::Ln => "ln",
        ArithmaFunction::Log10 => "log10",
        ArithmaFunction::Log2 => "log2",
        ArithmaFunction::Abs => "abs",
        ArithmaFunction::Floor => "floor",
        ArithmaFunction::Ceil => "ceil",
        ArithmaFunction::Min => "min",
        ArithmaFunction::Max => "max",
        _ => {
            let mut msg = String::from_str("no ");
            msg.append(target_label(target));
            msg.append(" spelling for `");
            let shown = debug_text(f);
            msg.append(shown.as_str());
            msg.append("`; add it to call_name");
            return Err(msg);
        },
    };
    proof {
        reveal_strlit("sin");
        reveal_strlit("cos");
        reveal_strlit("tan");
        reveal_strlit("exp");
        reveal_strlit("ln");
        reveal_strlit("log10");
        reveal_strlit("log2");
        reveal_strlit("abs");
        reveal_strlit("floor");
        reveal_strlit("ceil");
        reveal_strlit("min");
        reveal_strlit("max");
    }
    let shader = match target {
        EmitTarget::Glsl | EmitTarget::Hlsl => true,
        _ => false,
    };
    if shader && same_text(name, "ln") {
        Ok(String::from_str("log"))
    } else {
        Ok(String::from_str(name))
    }
}

/// Render a function application from its already-rendered arguments.
///
/// Operators render infix (or postfix, or as MathML) with the parentheses
/// their precedence needs; powers go through [`power_frag`], with
/// `pow_exponent` as the rendered exponent of a `Pow(n)` node; every other
/// function is a named call, refused where the target has no spelling for
/// it.
pub fn emit_call(f: &ArithmaFunction, kids: &[Frag], target: EmitTarget, pow_exponent: &Frag) -> (r:
    Result<Frag, String>)
    ensures
        match r {
            Ok(fr) => emit_call_spec(f@, kids@, target, *pow_exponent) == Some((fr.text@, fr.prec)),
            Err(_) => emit_call_spec(f@, kids@, target, *pow_exponent) is None,
        },
{
    let n = kids.len();
    match f {
        ArithmaFunction::Add if n == 2 => Ok(
            match target {
                EmitTarget::EmlRpn => rpn(kids, "+"),
                EmitTarget::MathMl => mathml_infix(kids, "+"),
                _ => infix(kids, "+", PREC_ADD),
            },
        ),
        ArithmaFunction::Subtract if n == 2 => Ok(
            match target {
                EmitTarget::EmlRpn => rpn(kids, "-"),
                EmitTarget::MathMl => mathml_infix(kids, "-"),
                _ => infix(kids, "-", PREC_ADD),
            },
        ),
        ArithmaFunction::Multiply if n == 2 => Ok(
            match target {
                EmitTarget::EmlRpn => rpn(kids, "*"),
                EmitTarget::MathMl => mathml_infix(kids, "&#x22C5;"),
                EmitTarget::Latex => {
                    let mut text = kids[0].paren_if(PREC_MUL);
                    text.append(" ");
                    let right = kids[1].paren_if(PREC_MUL + 1);
                    text.append(right.as_str());
                    Frag { text, prec: PREC_MUL }
                },
                _ => infix(kids, "*", PREC_MUL),
            },
        ),
        ArithmaFunction::Divide if n == 2 => Ok(
            match target {
                EmitTarget::EmlRpn => rpn(kids, "/"),
                EmitTarget::Latex => {
                    let mut text = String::from_str("\\frac{");
                    text.append(kids[0].text.as_str());
                    text.append("}{");
                    text.append(kids[1].text.as_str());
                    text.append("}");
                    Frag { text, prec: PREC_ATOM }
                },
                EmitTarget::MathMl => {
                    let mut text = String::from_str("<mfrac>");
                    text.append(kids[0].text.as_str());
                    text.append(kids[1].text.as_str());
                    text.append("</mfrac>");
                    Frag { text, prec: PREC_ATOM }
                },
                _ => infix(kids, "/", PREC_MUL),
            },
        ),
        ArithmaFunction::Negate if n == 1 => Ok(
            match target {
                EmitTarget::EmlRpn => {
                    let mut text = kids[0].text.clone();
                    text.append(" neg");
                    Frag { text, prec: PREC_ATOM }
                },
                EmitTarget::MathMl => {
                    let mut text = String::from_str("<mo>-</mo>");
                    text.append(kids[0].text.as_str());
                    Frag { text, prec: PREC_UNARY }
                },
                _ => {
                    let mut text = String::from_str("-");
                    let inner = kids[0].paren_if(PREC_UNARY);
                    text.append(inner.as_str());
                    Frag { text, prec: PREC_UNARY }
                },
            },
        ),
        ArithmaFunction::Power if n == 2 => Ok(power_frag(&kids[0], &kids[1], target)),
        ArithmaFunction::Pow(_) if n == 1 => Ok(power_frag(&kids[0], pow_exponent, target)),
        ArithmaFunction::Sqrt if n == 1 => Ok(
            match target {
                EmitTarget::Latex => {
                    let mut text = String::from_str("\\sqrt{");
                    text.append(kids[0].text.as_str());
                    text.append("}");
                    Frag { text, prec: PREC_ATOM }
                },
                EmitTarget::MathMl => {
                    let mut text = String::from_str("<msqrt>");
                    text.append(kids[0].text.as_str());
                    text.append("</msqrt>");
                    Frag { text, prec: PREC_ATOM }
                },
                EmitTarget::EmlRpn => {
                    let mut text = kids[0].text.clone();
                    text.append(" sqrt");
                    Frag { text, prec: PREC_ATOM }
                },
                _ => {
                    let mut text = String::from_str("sqrt(");
                    text.append(kids[0].text.as_str());
                    text.append(")");
                    Frag::atom(text)
                },
            },
        ),
        _ => {
            let name = call_name(f, target)?;
            Ok(
                match target {
                    EmitTarget::EmlRpn => {
                        let mut text = join_texts(kids, " ");
                        text.append(" ");
                        text.append(name.as_str());
                        Frag { text, prec: PREC_ATOM }
                    },
                    EmitTarget::Latex => {
                        let mut text = String::from_str("\\");
                        text.append(name.as_str());
                        text.append("{");
                        let args = join_texts(kids, ", ");
                        text.append(args.as_str());
                        text.append("}");
                        Frag { text, prec: PREC_ATOM }
                    },
                    EmitTarget::MathMl => {
                        let mut text = String::from_str("<mi>");
                        text.append(name.as_str());
                        text.append("</mi><mo>&#x2061;</mo><mrow><mo>(</mo>");
                        let args = join_texts(kids, "");
                        text.append(args.as_str());
                        text.append("<mo>)</mo></mrow>");
                        Frag { text, prec: PREC_ATOM }
                    },
                    _ => {
                        let mut text = name.clone();
                        text.append("(");
                        let args = join_texts(kids, ", ");
                        text.append(args.as_str());
                        text.append(")");
                        Frag::atom(text)
                    },
                },
            )
        },
    }
}

/// Infix rendering keeps the meaning. In plain text and the shader
/// dialects, a sum, difference, product or quotient of two rendered operands
/// is `left op right`, the left operand in parentheses when it binds looser
/// than the operator, and the right operand in parentheses when it does not
/// bind tighter, since `-` and `/` do not associate. So `x / (y * z)` keeps
/// its parentheses and `(a + b) * c` gains them.
pub proof fn law_infix_text_keeps_the_meaning(
    f: FunctionModel,
    kids: Seq<Frag>,
    target: EmitTarget,
    pow_exponent: Frag,
)
    requires
        kids.len() == 2,
        f is Add || f is Subtract || f is Multiply || f is Divide,
        target is Text || target is Glsl || target is Hlsl,
    ensures
        ({
            let sym: Seq<char> = if f is Add {
                "+"@
            } else if f is Subtract {
                "-"@
            } else if f is Multiply {
                "*"@
            } else {
                "/"@
            };
            let prec: u8 = if f is Add || f is Subtract {
                1u8
            } else {
                2u8
            };
            let l = kids[0];
            let r = kids[1];
            let left = if l.prec < prec {
                "("@ + l.text@ + ")"@
            } else {
                l.text@
            };
            let right = if r.prec <= prec {
                "("@ + r.text@ + ")"@
            } else {
                r.text@
            };
            emit_call_spec(f, kids, target, pow_exponent) == Some(
                (left + " "@ + sym + " "@ + right, prec),
            )
        }),
{
}

/// Reverse-Polish output lists both operands, left first, then the
/// operator: `x y /` is `x / y`.
pub proof fn law_rpn_is_postfix(f: FunctionModel, kids: Seq<Frag>, pow_exponent: Frag)
    requires
        kids.len() == 2,
        f is Add || f is Subtract || f is Multiply || f is Divide || f is Power,
    ensures
        ({
            let sym: Seq<char> = if f is Add {
                "+"@
            } else if f is Subtract {
                "-"@
            } else if f is Multiply {
                "*"@
            } else if f is Divide {
                "/"@
            } else {
                "^"@
            };
            emit_call_spec(f, kids, EmitTarget::EmlRpn, pow_exponent) == Some(
                (kids[0].text@ + " "@ + kids[1].text@ + " "@ + sym, 5u8),
            )
        }),
{
    reveal_strlit(" ^");
    reveal_strlit(" ");
    reveal_strlit("^");
    if f is Power {
        assert(kids[0].text@ + " "@ + kids[1].text@ + " ^"@ =~= kids[0].text@ + " "@
            + kids[1].text@ + " "@ + "^"@);
    }
}

/// A minus sign in plain text and the shaders applies to its whole
/// operand: the operand is parenthesised unless it binds at least as
/// tightly as the sign, so `-(x + 1)` keeps its parentheses.
pub proof fn law_negation_text_keeps_the_meaning(
    kids: Seq<Frag>,
    target: EmitTarget,
    pow_exponent: Frag,
)
    requires
        kids.len() == 1,
        target is Text || target is Glsl || target is Hlsl || target is Latex,
    ensures
        emit_call_spec(FunctionModel::Negate, kids, target, pow_exponent) == Some(
            (
                "-"@ + if kids[0].prec < 3 {
                    "("@ + kids[0].text@ + ")"@
                } else {
                    kids[0].text@
                },
                3u8,
            ),
        ),
{
}

/// Powers: the shader dialects have no power operator, so a power is the
/// call `pow(base, exponent)`; plain text writes `base^exponent` with each
/// side in parentheses unless it binds more tightly than `^`, which keeps
/// `(2^3)^2` apart from `2^(3^2)`.
pub proof fn law_power_text_keeps_the_meaning(kids: Seq<Frag>, pow_exponent: Frag)
    requires
        kids.len() == 2,
    ensures
        emit_call_spec(FunctionModel::Power, kids, EmitTarget::Glsl, pow_exponent) == Some(
            ("pow("@ + kids[0].text@ + ", "@ + kids[1].text@ + ")"@, 5u8),
        ),
        emit_call_spec(FunctionModel::Power, kids, EmitTarget::Hlsl, pow_exponent) == Some(
            ("pow("@ + kids[0].text@ + ", "@ + kids[1].text@ + ")"@, 5u8),
        ),
        emit_call_spec(FunctionModel::Power, kids, EmitTarget::Text, pow_exponent) == Some(
            (
                (if kids[0].prec <= 4 {
                    "("@ + kids[0].text@ + ")"@
                } else {
                    kids[0].text@
                }) + "^"@ + (if kids[1].prec <= 4 {
                    "("@ + kids[1].text@ + ")"@
                } else {
                    kids[1].text@
                }),
                4u8,
            ),
        ),
{
}

/// A one-argument named function in plain text is `name(argument)`, and
/// the natural logarithm is spelled `ln` there but `log` in the shaders.
pub proof fn law_named_calls_in_text(kids: Seq<Frag>, pow_exponent: Frag)
    requires
        kids.len() == 1,
    ensures
        emit_call_spec(FunctionModel::Sin, kids, EmitTarget::Text, pow_exponent) == Some(
            ("sin("@ + kids[0].text@ + ")"@, 5u8),
        ),
        emit_call_spec(FunctionModel::Cos, kids, EmitTarget::Text, pow_exponent) == Some(
            ("cos("@ + kids[0].text@ + ")"@, 5u8),
        ),
        emit_call_spec(FunctionModel::Exp, kids, EmitTarget::Text, pow_exponent) == Some(
            ("exp("@ + kids[0].text@ + ")"@, 5u8),
        ),
        emit_call_spec(FunctionModel::Ln, kids, EmitTarget::Text, pow_exponent) == Some(
            ("ln("@ + kids[0].text@ + ")"@, 5u8),
        ),
        emit_call_spec(FunctionModel::Ln, kids, EmitTarget::Glsl, pow_exponent) == Some(
            ("log("@ + kids[0].text@ + ")"@, 5u8),
        ),
        emit_call_spec(FunctionModel::Sqrt, kids, EmitTarget::Text, pow_exponent) == Some(
            ("sqrt("@ + kids[0].text@ + ")"@, 5u8),
        ),
{
    reveal_strlit("ln");
    reveal_strlit("log");
    reveal_strlit("sin");
    reveal_strlit("cos");
    reveal_strlit("exp");
    reveal_strlit("sin(");
    reveal_strlit("cos(");
    reveal_strlit("(");
    let t = kids[0].text@;
    assert("sin"@ + "("@ + t + ")"@ =~= "sin("@ + t + ")"@);
    assert("cos"@ + "("@ + t + ")"@ =~= "cos("@ + t + ")"@);
    reveal_strlit("exp(");
    reveal_strlit("ln(");
    reveal_strlit("log(");
    assert("exp"@ + "("@ + t + ")"@ =~= "exp("@ + t + ")"@);
    assert("ln"@ + "("@ + t + ")"@ =~= "ln("@ + t + ")"@);
    assert("log"@ + "("@ + t + ")"@ =~= "log("@ + t + ")"@);
    assert(joined(kids, ", "@) == kids[0].text@);
}

} // verus!
