//! The derivative rules, stated over expression models, and the stack
//! machine that applies them one step at a time.

use vstd::prelude::*;

use crate::expression::model::{call1, call2, digit_model, zero_model, ExprModel, FunctionModel};

verus! {

/// Sum, difference, product and quotient: both arguments are differentiated.
pub open spec fn is_binary_rule(f: FunctionModel) -> bool {
    f is Add || f is Subtract || f is Multiply || f is Divide
}

/// Negation, square root, exponential, logarithm, sine, cosine and tangent:
/// the first argument is differentiated (the chain rule).
pub open spec fn is_unary_rule(f: FunctionModel) -> bool {
    f is Negate || f is Sqrt || f is Exp || f is Ln || f is Sin || f is Cos || f is Tan
}

/// Whether a function node has a rule and the argument count the rule needs:
/// exactly two for the binary rules and for powers, at least one for the
/// unary rules.
pub open spec fn has_rule(f: FunctionModel, args: Seq<ExprModel>) -> bool {
    ((is_binary_rule(f) || f is Power) && args.len() == 2) || (is_unary_rule(f) && args.len()
        >= 1)
}

/// How many derivatives a rule consumes: two for the binary rules, one for
/// powers (only the base is differentiated) and for the unary rules.
pub open spec fn rule_arity(f: FunctionModel) -> nat {
    if is_binary_rule(f) {
        2
    } else {
        1
    }
}

/// The arguments a rule keeps besides the derivatives: both operands of a
/// product, a quotient or a power, the argument of a unary function other
/// than negation, and none for sums, differences and negation.
pub open spec fn rule_operands(f: FunctionModel, args: Seq<ExprModel>) -> Seq<ExprModel> {
    if f is Multiply || f is Divide || f is Power {
        seq![args[0], args[1]]
    } else if f is Sqrt || f is Exp || f is Ln || f is Sin || f is Cos || f is Tan {
        seq![args[0]]
    } else {
        seq![]
    }
}

/// The derivative of `f` applied to operands `ops`, from the derivatives `ds`
/// of the differentiated arguments:
/// - `(a + b)' = a' + b'` and `(a - b)' = a' - b'`;
/// - `(a * b)' = a' * b + a * b'`;
/// - `(a / b)' = (a' * b - a * b') / (b * b)`;
/// - `(a ^ k)' = (k * a ^ (k - 1)) * a'`, the exponent taken as constant;
/// - `(-a)' = -a'`, `sqrt(a)' = a' / (2 * sqrt(a))`, `exp(a)' = a' * exp(a)`,
///   `ln(a)' = a' / a`, `sin(a)' = a' * cos(a)`, `cos(a)' = a' * -sin(a)`,
///   `tan(a)' = a' / (cos(a) * cos(a))`.
pub open spec fn combined(f: FunctionModel, ops: Seq<ExprModel>, ds: Seq<ExprModel>) -> ExprModel {
    match f {
        FunctionModel::Add => call2(FunctionModel::Add, ds[0], ds[1]),
        FunctionModel::Subtract => call2(FunctionModel::Subtract, ds[0], ds[1]),
        FunctionModel::Multiply => call2(
            FunctionModel::Add,
            call2(FunctionModel::Multiply, ds[0], ops[1]),
            call2(FunctionModel::Multiply, ops[0], ds[1]),
        ),
        FunctionModel::Divide => call2(
            FunctionModel::Divide,
            call2(
                FunctionModel::Subtract,
                call2(FunctionModel::Multiply, ds[0], ops[1]),
                call2(FunctionModel::Multiply, ops[0], ds[1]),
            ),
            call2(FunctionModel::Multiply, ops[1], ops[1]),
        ),
        FunctionModel::Power => call2(
            FunctionModel::Multiply,
            call2(
                FunctionModel::Multiply,
                ops[1],
                call2(
                    FunctionModel::Power,
                    ops[0],
                    call2(FunctionModel::Subtract, ops[1], digit_model(1)),
                ),
            ),
            ds[0],
        ),
        FunctionModel::Negate => call1(FunctionModel::Negate, ds[0]),
        FunctionModel::Sqrt => call2(
            FunctionModel::Divide,
            ds[0],
            call2(FunctionModel::Multiply, digit_model(2), call1(FunctionModel::Sqrt, ops[0])),
        ),
        FunctionModel::Exp => call2(FunctionModel::Multiply, ds[0], call1(FunctionModel::Exp, ops[0])),
        FunctionModel::Ln => call2(FunctionModel::Divide, ds[0], ops[0]),
        FunctionModel::Sin => call2(FunctionModel::Multiply, ds[0], call1(FunctionModel::Cos, ops[0])),
        FunctionModel::Cos => call2(
            FunctionModel::Multiply,
            ds[0],
            call1(FunctionModel::Negate, call1(FunctionModel::Sin, ops[0])),
        ),
        FunctionModel::Tan => call2(
            FunctionModel::Divide,
            ds[0],
            call2(
                FunctionModel::Multiply,
                call1(FunctionModel::Cos, ops[0]),
                call1(FunctionModel::Cos, ops[0]),
            ),
        ),
        _ => zero_model(),
    }
}

/// Whether `e` can be differentiated: literals, constants and variables can,
/// and a function node can when it has a rule and its differentiated
/// arguments can be differentiated.
pub open spec fn differentiable(e: ExprModel, var: Seq<char>) -> bool
    decreases e,
{
    match e {
        ExprModel::Number(_) => true,
        ExprModel::Constant { .. } => true,
        ExprModel::Variable(_) => true,
        ExprModel::Function(f, args) => if has_rule(f, args) {
            if is_binary_rule(f) {
                differentiable(args[0], var) && differentiable(args[1], var)
            } else {
                differentiable(args[0], var)
            }
        } else {
            false
        },
        _ => false,
    }
}

/// The derivative of `e` with respect to `var`: zero for literals, constants
/// and other variables, one for `var` itself, and the rule's result for a
/// function node.
pub open spec fn derivative(e: ExprModel, var: Seq<char>) -> ExprModel
    decreases e,
{
    match e {
        ExprModel::Number(_) => zero_model(),
        ExprModel::Constant { .. } => zero_model(),
        ExprModel::Variable(name) => if name@ == var {
            digit_model(1)
        } else {
            zero_model()
        },
        ExprModel::Function(f, args) => if has_rule(f, args) {
            if is_binary_rule(f) {
                combined(
                    f,
                    rule_operands(f, args),
                    seq![derivative(args[0], var), derivative(args[1], var)],
                )
            } else {
                combined(f, rule_operands(f, args), seq![derivative(args[0], var)])
            }
        } else {
            zero_model()
        },
        _ => zero_model(),
    }
}

/// The number of stack frames that differentiating `e` goes through: one to
/// enter each node, and one more to combine each function node.
pub open spec fn frames(e: ExprModel) -> nat
    decreases e,
{
    match e {
        ExprModel::Function(f, args) => if has_rule(f, args) {
            if is_binary_rule(f) {
                2 + frames(args[0]) + frames(args[1])
            } else {
                2 + frames(args[0])
            }
        } else {
            1
        },
        _ => 1,
    }
}

/// Every function node that differentiation reaches has an argument.
pub open spec fn calls_have_arguments(e: ExprModel) -> bool
    decreases e,
{
    match e {
        ExprModel::Function(f, args) => args.len() >= 1 && if has_rule(f, args) {
            if is_binary_rule(f) {
                calls_have_arguments(args[0]) && calls_have_arguments(args[1])
            } else {
                calls_have_arguments(args[0])
            }
        } else {
            true
        },
        _ => true,
    }
}

/// A pending piece of work: differentiate a node, or apply a rule to the
/// derivatives on top of the result stack.
pub enum Task {
    Visit(ExprModel),
    Apply(FunctionModel, Seq<ExprModel>),
}

/// Frames a task still goes through.
pub open spec fn task_size(t: Task) -> nat {
    match t {
        Task::Visit(e) => frames(e),
        Task::Apply(_, _) => 1,
    }
}

/// Frames a stack of tasks still goes through.
pub open spec fn total(ts: Seq<Task>) -> nat
    decreases ts.len(),
{
    if ts.len() == 0 {
        0
    } else {
        total(ts.drop_last()) + task_size(ts.last())
    }
}

/// One step of the machine on the task on top of `ts`, with results `r`:
/// the new tasks and results, or `None` where differentiation fails.
pub open spec fn step(ts: Seq<Task>, r: Seq<ExprModel>, var: Seq<char>) -> Option<
    (Seq<Task>, Seq<ExprModel>),
> {
    let rest = ts.drop_last();
    match ts.last() {
        Task::Visit(e) => match e {
            ExprModel::Number(_) => Some((rest, r.push(zero_model()))),
            ExprModel::Constant { .. } => Some((rest, r.push(zero_model()))),
            ExprModel::Variable(name) => Some(
                (rest, r.push(if name@ == var { digit_model(1) } else { zero_model() })),
            ),
            ExprModel::Function(f, args) => if has_rule(f, args) {
                let scheduled = rest.push(Task::Apply(f, rule_operands(f, args)));
                if is_binary_rule(f) {
                    Some((scheduled.push(Task::Visit(args[1])).push(Task::Visit(args[0])), r))
                } else {
                    Some((scheduled.push(Task::Visit(args[0])), r))
                }
            } else {
                None
            },
            _ => None,
        },
        Task::Apply(f, ops) => {
            let k = rule_arity(f);
            if r.len() >= k {
                Some(
                    (
                        rest,
                        r.take(r.len() - k).push(combined(f, ops, r.skip(r.len() - k))),
                    ),
                )
            } else {
                None
            }
        },
    }
}

/// Pushing a task adds its size.
pub proof fn lemma_total_push(ts: Seq<Task>, t: Task)
    ensures
        total(ts.push(t)) == total(ts) + task_size(t),
{
    assert(ts.push(t).drop_last() =~= ts);
}

/// Every task has at least one frame.
pub proof fn lemma_task_size_positive(t: Task)
    ensures
        task_size(t) >= 1,
{
}

/// A step that succeeds takes exactly one frame off the total.
pub proof fn lemma_step_total(ts: Seq<Task>, r: Seq<ExprModel>, var: Seq<char>)
    requires
        ts.len() > 0,
        step(ts, r, var) is Some,
    ensures
        total(step(ts, r, var).unwrap().0) + 1 == total(ts),
{
    let rest = ts.drop_last();
    assert(rest.push(ts.last()) =~= ts);
    lemma_total_push(rest, ts.last());
    match ts.last() {
        Task::Visit(e) => match e {
            ExprModel::Function(f, args) => {
                let scheduled = rest.push(Task::Apply(f, rule_operands(f, args)));
                lemma_total_push(rest, Task::Apply(f, rule_operands(f, args)));
                if is_binary_rule(f) {
                    lemma_total_push(scheduled, Task::Visit(args[1]));
                    lemma_total_push(scheduled.push(Task::Visit(args[1])), Task::Visit(args[0]));
                } else {
                    lemma_total_push(scheduled, Task::Visit(args[0]));
                }
            },
            _ => {},
        },
        Task::Apply(_, _) => {},
    }
}

/// Running the machine to the end: the final result stack, or `None` where
/// a step fails.
pub open spec fn run(ts: Seq<Task>, r: Seq<ExprModel>, var: Seq<char>) -> Option<Seq<ExprModel>>
    decreases total(ts),
{
    if ts.len() == 0 {
        Some(r)
    } else {
        match step(ts, r, var) {
            Some(next) => {
                proof {
                    lemma_step_total(ts, r, var);
                }
                run(next.0, next.1, var)
            },
            None => None,
        }
    }
}

/// Visiting a node puts its derivative on the result stack when it is
/// differentiable, and makes the run fail when it is not.
pub proof fn lemma_visit(e: ExprModel, rest: Seq<Task>, r: Seq<ExprModel>, var: Seq<char>)
    ensures
        run(rest.push(Task::Visit(e)), r, var) == if differentiable(e, var) {
            run(rest, r.push(derivative(e, var)), var)
        } else {
            None::<Seq<ExprModel>>
        },
    decreases e,
{
    let ts = rest.push(Task::Visit(e));
    assert(ts.drop_last() =~= rest);
    match e {
        ExprModel::Function(f, args) => {
            if has_rule(f, args) {
                let ops = rule_operands(f, args);
                let scheduled = rest.push(Task::Apply(f, ops));
                if is_binary_rule(f) {
                    let with_second = scheduled.push(Task::Visit(args[1]));
                    assert(step(ts, r, var) == Some((with_second.push(Task::Visit(args[0])), r)));
                    lemma_visit(args[0], with_second, r, var);
                    let d0 = derivative(args[0], var);
                    lemma_visit(args[1], scheduled, r.push(d0), var);
                    let d1 = derivative(args[1], var);
                    let r2 = r.push(d0).push(d1);
                    assert(scheduled.drop_last() =~= rest);
                    assert(r2.take(r2.len() - 2) =~= r);
                    assert(r2.skip(r2.len() - 2) =~= seq![d0, d1]);
                    assert(step(scheduled, r2, var) == Some(
                        (rest, r.push(combined(f, ops, seq![d0, d1]))),
                    ));
                } else {
                    assert(step(ts, r, var) == Some((scheduled.push(Task::Visit(args[0])), r)));
                    lemma_visit(args[0], scheduled, r, var);
                    let d0 = derivative(args[0], var);
                    let r1 = r.push(d0);
                    assert(scheduled.drop_last() =~= rest);
                    assert(r1.take(r1.len() - 1) =~= r);
                    assert(r1.skip(r1.len() - 1) =~= seq![d0]);
                    assert(step(scheduled, r1, var) == Some(
                        (rest, r.push(combined(f, ops, seq![d0]))),
                    ));
                }
            }
        },
        _ => {},
    }
}

} // verus!
