//! # Iterative differentiation
//!
//! Stack-based, non-recursive differentiation: a post-order walk of the tree
//! driven by a work stack. Each `Enter` frame either produces the derivative
//! of a leaf or schedules the node's arguments followed by one `Combine`
//! frame, which assembles the node's derivative from the derivatives its
//! arguments leave on the result stack.

use vstd::prelude::*;

use crate::calculus::rules::{
    calls_have_arguments, combined, derivative, differentiable, frames, has_rule,
    is_binary_rule, lemma_step_total, lemma_task_size_positive, lemma_total_push, lemma_visit,
    rule_arity, rule_operands, run, step, total, Task,
};
use crate::expression::model::{copy_expr, expr_models, lemma_expr_models, ExprModel, FunctionModel};
use crate::expression::emit::same_text;
use crate::expression::ArithmaExpression;
use crate::function::ArithmaFunction;

verus! {

/// Hard cap on the frames one differentiation may go through.
pub const ARITHMA_DIFF_NODE_CAP: usize = 1_048_576;

/// What to do once a node's argument derivatives are on the result stack,
/// with the operands the rule needs besides them.
pub enum Combine {
    Add,
    Sub,
    Mul { a: ArithmaExpression, b: ArithmaExpression },
    Div { a: ArithmaExpression, b: ArithmaExpression },
    Pow { base: ArithmaExpression, exponent: ArithmaExpression },
    Neg,
    Sqrt { inner: ArithmaExpression },
    Exp { inner: ArithmaExpression },
    Ln { inner: ArithmaExpression },
    Sin { inner: ArithmaExpression },
    Cos { inner: ArithmaExpression },
    Tan { inner: ArithmaExpression },
}

/// The task a combine frame stands for.
pub open spec fn combine_task(c: Combine) -> Task {
    match c {
        Combine::Add => Task::Apply(FunctionModel::Add, seq![]),
        Combine::Sub => Task::Apply(FunctionModel::Subtract, seq![]),
        Combine::Mul { a, b } => Task::Apply(FunctionModel::Multiply, seq![a@, b@]),
        Combine::Div { a, b } => Task::Apply(FunctionModel::Divide, seq![a@, b@]),
        Combine::Pow { base, exponent } => Task::Apply(
            FunctionModel::Power,
            seq![base@, exponent@],
        ),
        Combine::Neg => Task::Apply(FunctionModel::Negate, seq![]),
        Combine::Sqrt { inner } => Task::Apply(FunctionModel::Sqrt, seq![inner@]),
        Combine::Exp { inner } => Task::Apply(FunctionModel::Exp, seq![inner@]),
        Combine::Ln { inner } => Task::Apply(FunctionModel::Ln, seq![inner@]),
        Combine::Sin { inner } => Task::Apply(FunctionModel::Sin, seq![inner@]),
        Combine::Cos { inner } => Task::Apply(FunctionModel::Cos, seq![inner@]),
        Combine::Tan { inner } => Task::Apply(FunctionModel::Tan, seq![inner@]),
    }
}

/// A frame of the work stack.
pub enum Frame<'a> {
    Enter(&'a ArithmaExpression),
    Combine(Combine),
}

/// The task a frame stands for.
pub open spec fn frame_task<'a>(f: Frame<'a>) -> Task {
    match f {
        Frame::Enter(e) => Task::Visit(e@),
        Frame::Combine(c) => combine_task(c),
    }
}

/// The tasks of a work stack.
pub open spec fn tasks_of<'a>(w: Seq<Frame<'a>>) -> Seq<Task> {
    w.map_values(|f: Frame<'a>| frame_task(f))
}

/// The models of a result stack.
pub open spec fn models_of(r: Seq<ArithmaExpression>) -> Seq<ExprModel> {
    r.map_values(|x: ArithmaExpression| x@)
}

/// Every node still to be entered has arguments wherever it is reached.
pub open spec fn frames_ready<'a>(w: Seq<Frame<'a>>) -> bool {
    forall|i: int|
        0 <= i < w.len() ==> (#[trigger] w[i] matches Frame::Enter(e) ==> calls_have_arguments(
            e@,
        ))
}

/// The task stack of `w` with `f` pushed.
proof fn lemma_tasks_push<'a>(w: Seq<Frame<'a>>, f: Frame<'a>)
    ensures
        tasks_of(w.push(f)) == tasks_of(w).push(frame_task(f)),
{
    assert(tasks_of(w.push(f)) =~= tasks_of(w).push(frame_task(f)));
}

/// The model stack of `r` with `x` pushed.
proof fn lemma_models_push(r: Seq<ArithmaExpression>, x: ArithmaExpression)
    ensures
        models_of(r.push(x)) == models_of(r).push(x@),
{
    assert(models_of(r.push(x)) =~= models_of(r).push(x@));
}

/// The model stack of `r` without its top.
proof fn lemma_models_drop(r: Seq<ArithmaExpression>)
    requires
        r.len() > 0,
    ensures
        models_of(r.drop_last()) == models_of(r).drop_last(),
        models_of(r).last() == r.last()@,
{
    assert(models_of(r.drop_last()) =~= models_of(r).drop_last());
}

/// Iterative symbolic differentiation with respect to `var`.
///
/// Succeeds exactly when the expression is differentiable and its walk
/// stays within [`ARITHMA_DIFF_NODE_CAP`] frames, and then returns the
/// derivative the rules give.
pub fn differentiate_iterative(expr: &ArithmaExpression, var: &str) -> (r: Result<
    ArithmaExpression,
    String,
>)
    requires
        var@.len() > 0,
        calls_have_arguments(expr@),
    ensures
        r is Ok <==> differentiable(expr@, var@) && frames(expr@) <= ARITHMA_DIFF_NODE_CAP,
        r matches Ok(d) ==> d@ == derivative(expr@, var@),
{
    let mut diff = ArithmaIterativeDifferentiator::new();
    diff.differentiate(expr, var)
}

/// A differentiator that owns a reusable stack, empty between calls.
pub struct ArithmaIterativeDifferentiator {
    stack: Vec<(ArithmaExpression, String)>,
}

impl ArithmaIterativeDifferentiator {
    /// A fresh differentiator.
    pub fn new() -> (d: Self)
        ensures
            d.pending() == 0,
    {
        ArithmaIterativeDifferentiator { stack: Vec::new() }
    }

    /// Entries held on the reusable stack.
    pub closed spec fn pending(&self) -> nat {
        self.stack@.len()
    }

    /// Differentiate `expr` with respect to `var`; see
    /// [`differentiate_iterative`].
    pub fn differentiate(&mut self, expr: &ArithmaExpression, var: &str) -> (r: Result<
        ArithmaExpression,
        String,
    >)
        requires
            var@.len() > 0,
            calls_have_arguments(expr@),
        ensures
            r is Ok <==> differentiable(expr@, var@) && frames(expr@) <= ARITHMA_DIFF_NODE_CAP,
            r matches Ok(d) ==> d@ == derivative(expr@, var@),
            final(self).pending() == 0,
    {
        self.stack.clear();
        let mut work: Vec<Frame> = Vec::new();
        let mut results: Vec<ArithmaExpression> = Vec::new();
        work.push(Frame::Enter(expr));
        let ghost goal = if differentiable(expr@, var@) {
            Some(seq![derivative(expr@, var@)])
        } else {
            None::<Seq<ExprModel>>
        };
        proof {
            lemma_visit(expr@, Seq::<Task>::empty(), Seq::<ExprModel>::empty(), var@);
            assert(Seq::<Task>::empty().push(Task::Visit(expr@)) =~= tasks_of(work@));
            assert(models_of(results@) =~= Seq::<ExprModel>::empty());
            assert(Seq::<ExprModel>::empty().push(derivative(expr@, var@)) =~= seq![
                derivative(expr@, var@),
            ]);
            lemma_total_push(Seq::<Task>::empty(), Task::Visit(expr@));
            assert(frames_ready(work@));
        }
        let mut guard: usize = 0;
        while work.len() > 0
            invariant
                var@.len() > 0,
                run(tasks_of(work@), models_of(results@), var@) == goal,
                goal == (if differentiable(expr@, var@) {
                    Some(seq![derivative(expr@, var@)])
                } else {
                    None::<Seq<ExprModel>>
                }),
                guard + total(tasks_of(work@)) == frames(expr@),
                guard <= ARITHMA_DIFF_NODE_CAP,
                frames_ready(work@),
                self.stack@.len() == 0,
            decreases total(tasks_of(work@)),
        {
            let ghost before = work@;
            let ghost ts = tasks_of(work@);
            let ghost rs = models_of(results@);
            let frame = work.pop().unwrap();
            proof {
                assert(before =~= work@.push(frame));
                lemma_tasks_push(work@, frame);
                lemma_total_push(tasks_of(work@), frame_task(frame));
                lemma_task_size_positive(frame_task(frame));
                assert(frames_ready(work@)) by {
                    assert forall|i: int| 0 <= i < work@.len() implies (#[trigger] work@[i] matches Frame::Enter(
                        e,
                    ) ==> calls_have_arguments(e@)) by {
                        assert(work@[i] == before[i]);
                    }
                }
                assert(before[before.len() - 1] == frame);
            }
            guard = guard + 1;
            if guard > ARITHMA_DIFF_NODE_CAP {
                return Err(String::from_str("differentiate: node cap exceeded"));
            }
            let ghost next = step(ts, rs, var@);
            proof {
                assert(run(ts, rs, var@) == match next {
                    Some(n) => run(n.0, n.1, var@),
                    None => None::<Seq<ExprModel>>,
                });
            }
            match frame {
                Frame::Enter(node) => {
                    proof {
                        assert(ts == tasks_of(work@).push(Task::Visit(node@)));
                        assert(before[before.len() - 1] matches Frame::Enter(e) && e == node);
                    }
                    enter_node(node, var, &mut work, &mut results)?;
                },
                Frame::Combine(c) => {
                    proof {
                        lemma_combine_task(c);
                        assert(ts == tasks_of(work@).push(combine_task(c)));
                        assert(ts.drop_last() =~= tasks_of(work@));
                    }
                    combine_frame(c, &mut results)?;
                },
            }
            proof {
                assert(next == Some((tasks_of(work@), models_of(results@))));
                lemma_step_total(ts, rs, var@);
            }
        }
        proof {
            assert(tasks_of(work@) =~= Seq::<Task>::empty());
        }
        let ghost fin = results@;
        proof {
            assert(run(tasks_of(work@), models_of(fin), var@) == Some(models_of(fin)));
        }
        if results.len() != 1 {
            return Err(String::from_str("differentiate: final stack size is not one"));
        }
        let d = results.pop().unwrap();
        proof {
            assert(models_of(fin)[0] == d@);
        }
        Ok(d)
    }
}

/// Handle one `Enter` frame: push the derivative of a leaf, or schedule a
/// function node's arguments and its combine frame.
fn enter_node<'a>(
    node: &'a ArithmaExpression,
    var: &str,
    work: &mut Vec<Frame<'a>>,
    results: &mut Vec<ArithmaExpression>,
) -> (r: Result<(), String>)
    requires
        calls_have_arguments(node@),
        frames_ready(old(work)@),
    ensures
        ({
            let s = step(
                tasks_of(old(work)@).push(Task::Visit(node@)),
                models_of(old(results)@),
                var@,
            );
            &&& r is Ok <==> s is Some
            &&& r is Ok ==> tasks_of(final(work)@) == s.unwrap().0 && models_of(final(results)@)
                == s.unwrap().1
        }),
        frames_ready(final(work)@),
{
    let ghost ts = tasks_of(work@).push(Task::Visit(node@));
    proof {
        assert(ts.drop_last() =~= tasks_of(work@));
    }
    match node {
        ArithmaExpression::Number(_) | ArithmaExpression::Constant { .. } => {
            let z = ArithmaExpression::zero();
            proof {
                lemma_models_push(results@, z);
            }
            results.push(z);
            Ok(())
        },
        ArithmaExpression::Variable(name) => {
            let dv = if same_text(name.as_str(), var) {
                ArithmaExpression::digit(1)
            } else {
                ArithmaExpression::zero()
            };
            proof {
                lemma_models_push(results@, dv);
            }
            results.push(dv);
            Ok(())
        },
        ArithmaExpression::Function(func, args) => schedule_function(func, args, work),
        _ => {
            let mut msg = String::from_str("differentiate: unsupported variant for variable '");
            msg.append(var);
            msg.append("'");
            Err(msg)
        },
    }
}

/// The combine frame and the frames entering a function node's arguments
/// that `schedule_function` pushes, in push order.
pub open spec fn scheduled_tasks(f: FunctionModel, args: Seq<ExprModel>) -> Seq<Task> {
    let apply = Task::Apply(f, rule_operands(f, args));
    if is_binary_rule(f) {
        seq![apply, Task::Visit(args[1]), Task::Visit(args[0])]
    } else {
        seq![apply, Task::Visit(args[0])]
    }
}

/// Push `c` and then frames entering the given arguments, last first.
fn push_frames<'a>(
    work: &mut Vec<Frame<'a>>,
    c: Combine,
    second: Option<&'a ArithmaExpression>,
    first: &'a ArithmaExpression,
)
    requires
        frames_ready(old(work)@),
        calls_have_arguments(first@),
        second matches Some(s) ==> calls_have_arguments(s@),
    ensures
        tasks_of(final(work)@) == match second {
            Some(s) => tasks_of(old(work)@).push(combine_task(c)).push(Task::Visit(s@)).push(
                Task::Visit(first@),
            ),
            None => tasks_of(old(work)@).push(combine_task(c)).push(Task::Visit(first@)),
        },
        frames_ready(final(work)@),
{
    let ghost w0 = work@;
    let ghost cf = Frame::Combine(c);
    work.push(Frame::Combine(c));
    proof {
        lemma_tasks_push(w0, cf);
    }
    match second {
        Some(s) => {
            let ghost w1 = work@;
            work.push(Frame::Enter(s));
            proof {
                lemma_tasks_push(w1, Frame::Enter(s));
            }
        },
        None => {},
    }
    let ghost w2 = work@;
    work.push(Frame::Enter(first));
    proof {
        lemma_tasks_push(w2, Frame::Enter(first));
        assert forall|i: int| 0 <= i < work@.len() implies (#[trigger] work@[i] matches Frame::Enter(
            e,
        ) ==> calls_have_arguments(e@)) by {
            if i < w0.len() {
                assert(work@[i] == w0[i]);
            }
        }
    }
}

/// Schedule a function node: its combine frame, then frames entering the
/// arguments that its rule differentiates. A function without a rule, or
/// with the wrong number of arguments, is refused and nothing is pushed.
fn schedule_function<'a>(
    func: &ArithmaFunction,
    args: &'a Vec<ArithmaExpression>,
    work: &mut Vec<Frame<'a>>,
) -> (r: Result<(), String>)
    requires
        args@.len() >= 1,
        calls_have_arguments(ExprModel::Function(func@, expr_models(args@))),
        frames_ready(old(work)@),
    ensures
        r is Ok <==> has_rule(func@, expr_models(args@)),
        r is Ok ==> tasks_of(final(work)@) == tasks_of(old(work)@) + scheduled_tasks(
            func@,
            expr_models(args@),
        ),
        r is Err ==> final(work)@ == old(work)@,
        frames_ready(final(work)@),
{
    let ghost m = expr_models(args@);
    proof {
        lemma_expr_models(args@);
    }
    let ghost w0 = tasks_of(work@);
    let n = args.len();
    let r = match func {
        ArithmaFunction::Add => {
            if n != 2 {
                return Err(String::from_str("Add: expected 2 args"));
            }
            push_frames(work, Combine::Add, Some(&args[1]), &args[0]);
            Ok(())
        },
        ArithmaFunction::Subtract => {
            if n != 2 {
                return Err(String::from_str("Subtract: expected 2 args"));
            }
            push_frames(work, Combine::Sub, Some(&args[1]), &args[0]);
            Ok(())
        },
        ArithmaFunction::Multiply => {
            if n != 2 {
                return Err(String::from_str("Multiply: expected 2 args"));
            }
            let c = Combine::Mul { a: copy_expr(&args[0]), b: copy_expr(&args[1]) };
            push_frames(work, c, Some(&args[1]), &args[0]);
            Ok(())
        },
        ArithmaFunction::Divide => {
            if n != 2 {
                return Err(String::from_str("Divide: expected 2 args"));
            }
            let c = Combine::Div { a: copy_expr(&args[0]), b: copy_expr(&args[1]) };
            push_frames(work, c, Some(&args[1]), &args[0]);
            Ok(())
        },
        ArithmaFunction::Power => {
            if n != 2 {
                return Err(String::from_str("Power: expected 2 args"));
            }
            let c = Combine::Pow { base: copy_expr(&args[0]), exponent: copy_expr(&args[1]) };
            push_frames(work, c, None, &args[0]);
            Ok(())
        },
        ArithmaFunction::Negate => {
            push_frames(work, Combine::Neg, None, &args[0]);
            Ok(())
        },
        ArithmaFunction::Sqrt => {
            push_frames(work, Combine::Sqrt { inner: copy_expr(&args[0]) }, None, &args[0]);
            Ok(())
        },
        ArithmaFunction::Exp => {
            push_frames(work, Combine::Exp { inner: copy_expr(&args[0]) }, None, &args[0]);
            Ok(())
        },
        ArithmaFunction::Ln => {
            push_frames(work, Combine::Ln { inner: copy_expr(&args[0]) }, None, &args[0]);
            Ok(())
        },
        ArithmaFunction::Sin => {
            push_frames(work, Combine::Sin { inner: copy_expr(&args[0]) }, None, &args[0]);
            Ok(())
        },
        ArithmaFunction::Cos => {
            push_frames(work, Combine::Cos { inner: copy_expr(&args[0]) }, None, &args[0]);
            Ok(())
        },
        ArithmaFunction::Tan => {
            push_frames(work, Combine::Tan { inner: copy_expr(&args[0]) }, None, &args[0]);
            Ok(())
        },
        _ => {
            return Err(String::from_str("differentiate: unsupported function"));
        },
    };
    proof {
        let st = scheduled_tasks(func@, m);
        if is_binary_rule(func@) {
            assert(w0.push(st[0]).push(st[1]).push(st[2]) =~= w0 + st);
        } else {
            assert(w0.push(st[0]).push(st[1]) =~= w0 + st);
        }
    }
    r
}

/// Take the top of the result stack.
fn pop_one(results: &mut Vec<ArithmaExpression>) -> (r: Result<ArithmaExpression, String>)
    ensures
        match r {
            Ok(x) => old(results)@.len() > 0 && final(results)@ == old(results)@.drop_last() && x
                == old(results)@.last(),
            Err(msg) => old(results)@.len() == 0 && final(results)@ == old(results)@ && msg@
                == "differentiate: result stack underflow"@,
        },
{
    match results.pop() {
        Some(x) => Ok(x),
        None => Err(String::from_str("differentiate: result stack underflow")),
    }
}

/// A combine frame's task applies its rule to its operands.
proof fn lemma_combine_task(c: Combine)
    ensures
        combine_task(c) == Task::Apply(combine_rule(c), combine_operands(c)),
{
}

/// The rule a combine frame applies.
pub open spec fn combine_rule(c: Combine) -> FunctionModel {
    match combine_task(c) {
        Task::Apply(f, _) => f,
        Task::Visit(_) => FunctionModel::Add,
    }
}

/// The operands a combine frame holds.
pub open spec fn combine_operands(c: Combine) -> Seq<ExprModel> {
    match combine_task(c) {
        Task::Apply(_, ops) => ops,
        Task::Visit(_) => seq![],
    }
}

/// Apply a combine frame: pop the derivatives its rule consumes and push
/// the rule's result. With too few results on the stack it fails, after
/// taking what there was.
fn combine_frame(c: Combine, results: &mut Vec<ArithmaExpression>) -> (r: Result<(), String>)
    ensures
        ({
            let k = rule_arity(combine_rule(c));
            let old_models = models_of(old(results)@);
            &&& r is Ok <==> old(results)@.len() >= k
            &&& r is Ok ==> models_of(final(results)@) == old_models.take(old_models.len() - k).push(
                combined(combine_rule(c), combine_operands(c), old_models.skip(old_models.len() - k)),
            )
            &&& r matches Err(msg) ==> final(results)@.len() == 0 && msg@
                == "differentiate: result stack underflow"@
        }),
{
    let ghost o = results@;
    let ghost om = models_of(results@);
    proof {
        assert(om.len() == o.len());
    }
    let built = match c {
        Combine::Add => {
            let db = pop_one(results)?;
            let da = pop_one(results)?;
            ArithmaExpression::add(da, db)
        },
        Combine::Sub => {
            let db = pop_one(results)?;
            let da = pop_one(results)?;
            ArithmaExpression::sub(da, db)
        },
        Combine::Mul { a, b } => {
            let db = pop_one(results)?;
            let da = pop_one(results)?;
            let left = ArithmaExpression::mul(da, b);
            let right = ArithmaExpression::mul(a, db);
            ArithmaExpression::add(left, right)
        },
        Combine::Div { a, b } => {
            let db = pop_one(results)?;
            let da = pop_one(results)?;
            let num_left = ArithmaExpression::mul(da, copy_expr(&b));
            let num_right = ArithmaExpression::mul(a, db);
            let num = ArithmaExpression::sub(num_left, num_right);
            let denom = ArithmaExpression::mul(copy_expr(&b), b);
            ArithmaExpression::div(num, denom)
        },
        Combine::Pow { base, exponent } => {
            let da = pop_one(results)?;
            let new_exp = ArithmaExpression::sub(copy_expr(&exponent), ArithmaExpression::digit(1));
            let base_pow = ArithmaExpression::pow(base, new_exp);
            let scaled = ArithmaExpression::mul(exponent, base_pow);
            ArithmaExpression::mul(scaled, da)
        },
        Combine::Neg => {
            let da = pop_one(results)?;
            ArithmaExpression::neg(da)
        },
        Combine::Sqrt { inner } => {
            let da = pop_one(results)?;
            let two = ArithmaExpression::digit(2);
            let denom = ArithmaExpression::mul(two, ArithmaExpression::sqrt(inner));
            ArithmaExpression::div(da, denom)
        },
        Combine::Exp { inner } => {
            let da = pop_one(results)?;
            ArithmaExpression::mul(da, ArithmaExpression::exp(inner))
        },
        Combine::Ln { inner } => {
            let da = pop_one(results)?;
            ArithmaExpression::div(da, inner)
        },
        Combine::Sin { inner } => {
            let da = pop_one(results)?;
            ArithmaExpression::mul(da, ArithmaExpression::cos(inner))
        },
        Combine::Cos { inner } => {
            let da = pop_one(results)?;
            let neg_sin = ArithmaExpression::neg(ArithmaExpression::sin(inner));
            ArithmaExpression::mul(da, neg_sin)
        },
        Combine::Tan { inner } => {
            let da = pop_one(results)?;
            let cos_inner = ArithmaExpression::cos(inner);
            let cos_sq = ArithmaExpression::mul(copy_expr(&cos_inner), cos_inner);
            ArithmaExpression::div(da, cos_sq)
        },
    };
    let ghost before_push = results@;
    results.push(built);
    proof {
        let k = rule_arity(combine_rule(c));
        assert(before_push =~= o.take(o.len() - k));
        assert(models_of(before_push) =~= om.take(om.len() - k));
        lemma_models_push(before_push, built);
        if k == 2 {
            assert(om.skip(om.len() - 2) =~= seq![o[o.len() - 2]@, o[o.len() - 1]@]);
        } else {
            assert(om.skip(om.len() - 1) =~= seq![o[o.len() - 1]@]);
        }
    }
    Ok(())
}

} // verus!
