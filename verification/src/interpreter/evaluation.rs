//! The walk of an evaluation, kept on an explicit stack so that it can stop
//! at a request and go on at the reply.

use vstd::prelude::*;
use crate::ast::{models, BinOp, Expr, MathExpression};
use crate::environment::Environment;
use crate::number::Binary64;
use crate::interpreter::error::{Fault, InterpreterError};
use crate::interpreter::{
    binary_request, call_request, decided, eval, eval_arguments, invoke, operate, progress,
    settle, Operation, Progress, Request, Run, Step,
};

verus! {

/// A node whose evaluation has begun and waits for the value of one of its
/// children.
enum Frame<'a> {
    /// A binary operator whose left operand is being evaluated.
    Left { op: BinOp, rhs: &'a MathExpression },
    /// A binary operator whose right operand is being evaluated.
    Right { op: BinOp, lhs: Binary64 },
    /// A call whose argument at index `values.len()` is being evaluated.
    Arguments { name: &'a str, arguments: &'a Vec<MathExpression>, values: Vec<Binary64> },
}

/// What the walk looks at: a tree to evaluate, or the value of the tree that
/// it has just left.
#[derive(Clone, Copy)]
enum Focus<'a> {
    Expression(&'a MathExpression),
    Value(Binary64),
}

/// A point of the walk: in front of a tree, behind a tree with its value, or
/// at the decision that a node takes once its children have their values.
ghost enum Point {
    Expression(Expr),
    Value(Binary64),
    Decision(Result<Operation, Fault>),
}

impl<'a> Focus<'a> {
    /// The point of the walk at which the focus stands.
    spec fn point(self) -> Point {
        match self {
            Focus::Expression(expr) => Point::Expression(expr@),
            Focus::Value(value) => Point::Value(value),
        }
    }
}

impl<'a> Frame<'a> {
    /// A call that waits for an argument has not got them all.
    spec fn wf(self) -> bool {
        self matches Frame::Arguments { arguments, values, .. } ==> values@.len()
            < arguments@.len()
    }

    /// The run of this frame's node once the child it waits for has the
    /// value `value`.
    spec fn run(
        self,
        value: Binary64,
        env: Map<Seq<char>, Binary64>,
        replies: Seq<Binary64>,
    ) -> Run<Binary64> {
        match self {
            Frame::Left { op, rhs } => match eval(rhs@, env, replies) {
                Run::Value { value: right, rest } => settle(operate(op, value, right), rest),
                Run::Fault(fault) => Run::Fault(fault),
                Run::Awaits(operation) => Run::Awaits(operation),
            },
            Frame::Right { op, lhs } => settle(operate(op, lhs, value), replies),
            Frame::Arguments { name, arguments, values } => match eval_arguments(
                models(arguments@),
                values@.push(value),
                env,
                replies,
            ) {
                Run::Value { value: all, rest } => settle(invoke(name@, all), rest),
                Run::Fault(fault) => Run::Fault(fault),
                Run::Awaits(operation) => Run::Awaits(operation),
            },
        }
    }

    /// A bound on the steps of the walk that this frame still accounts for.
    spec fn cost(self) -> nat {
        match self {
            Frame::Left { rhs, .. } => cost(rhs@) + 2,
            Frame::Right { .. } => 1,
            Frame::Arguments { arguments, values, .. } => 1 + costs(
                models(arguments@),
                values@.len() + 1,
            ),
        }
    }
}

/// The run of the whole tree once the node above the frames in `stack` has
/// the value `value`.
spec fn unwind(
    stack: Seq<Frame>,
    value: Binary64,
    env: Map<Seq<char>, Binary64>,
    replies: Seq<Binary64>,
) -> Run<Binary64>
    decreases stack.len(),
{
    if stack.len() == 0 {
        Run::Value { value, rest: replies }
    } else {
        match stack.last().run(value, env, replies) {
            Run::Value { value: above, rest } => unwind(stack.drop_last(), above, env, rest),
            Run::Fault(fault) => Run::Fault(fault),
            Run::Awaits(operation) => Run::Awaits(operation),
        }
    }
}

/// The run of the whole tree after the run `run` of the node above the
/// frames in `stack`.
spec fn after(run: Run<Binary64>, stack: Seq<Frame>, env: Map<Seq<char>, Binary64>) -> Run<
    Binary64,
> {
    match run {
        Run::Value { value, rest } => unwind(stack, value, env, rest),
        Run::Fault(fault) => Run::Fault(fault),
        Run::Awaits(operation) => Run::Awaits(operation),
    }
}

/// The run of the whole tree from a point of the walk on.
spec fn proceed(
    stack: Seq<Frame>,
    point: Point,
    env: Map<Seq<char>, Binary64>,
    replies: Seq<Binary64>,
) -> Run<Binary64> {
    match point {
        Point::Value(value) => unwind(stack, value, env, replies),
        Point::Expression(expr) => after(eval(expr, env, replies), stack, env),
        Point::Decision(decision) => after(settle(decision, replies), stack, env),
    }
}

/// The walk stands where the evaluation of `root` stands after the results
/// `used`: whatever results come next, the run of `root` on all of them is
/// the run from this point on the new ones.
spec fn follows(
    root: Expr,
    env: Map<Seq<char>, Binary64>,
    used: Seq<Binary64>,
    stack: Seq<Frame>,
    point: Point,
) -> bool {
    forall|next: Seq<Binary64>| #[trigger]
        eval(root, env, used + next) == proceed(stack, point, env, next)
}

/// Two points of the walk from which the tree runs alike.
spec fn same_run(
    stack: Seq<Frame>,
    point: Point,
    stack2: Seq<Frame>,
    point2: Point,
    env: Map<Seq<char>, Binary64>,
) -> bool {
    forall|next: Seq<Binary64>| #[trigger]
        proceed(stack, point, env, next) == proceed(stack2, point2, env, next)
}

/// A bound on the steps that the walk takes through `expr`.
spec fn cost(expr: Expr) -> nat
    decreases expr, 0nat,
{
    match expr {
        Expr::Number(_) => 1,
        Expr::Variable { .. } => 1,
        Expr::BinOp { lhs, rhs, .. } => cost(*lhs) + cost(*rhs) + 3,
        Expr::Function { arguments, .. } => 1 + costs(arguments, 0),
    }
}

/// The same bound for the arguments from index `from` on.
spec fn costs(arguments: Seq<Expr>, from: nat) -> nat
    decreases arguments, arguments.len() - from,
{
    if from >= arguments.len() {
        0
    } else {
        cost(arguments[from as int]) + 1 + costs(arguments, from + 1)
    }
}

/// The same bound for all the frames of a stack.
spec fn stack_cost(stack: Seq<Frame>) -> nat
    decreases stack.len(),
{
    if stack.len() == 0 {
        0
    } else {
        stack_cost(stack.drop_last()) + stack.last().cost()
    }
}

/// A bound on the steps that the walk still takes from a point.
spec fn weight(stack: Seq<Frame>, point: Point) -> nat {
    stack_cost(stack) + match point {
        Point::Expression(expr) => cost(expr),
        _ => 0,
    }
}

/// Pushing a frame adds its cost to that of the stack, and a value that
/// reaches the frame runs through it and then through the frames below.
proof fn lemma_push(stack: Seq<Frame>, frame: Frame, env: Map<Seq<char>, Binary64>)
    ensures
        stack_cost(stack.push(frame)) == stack_cost(stack) + frame.cost(),
        forall|value: Binary64, replies: Seq<Binary64>| #[trigger]
            unwind(stack.push(frame), value, env, replies) == after(
                frame.run(value, env, replies),
                stack,
                env,
            ),
{
    assert(stack.push(frame).drop_last() =~= stack);
}

/// The walk may move between two points from which the tree runs alike.
proof fn lemma_follows_on(
    root: Expr,
    env: Map<Seq<char>, Binary64>,
    used: Seq<Binary64>,
    stack: Seq<Frame>,
    point: Point,
    stack2: Seq<Frame>,
    point2: Point,
)
    requires
        follows(root, env, used, stack, point),
        same_run(stack, point, stack2, point2, env),
    ensures
        follows(root, env, used, stack2, point2),
{
    assert forall|next: Seq<Binary64>| #[trigger]
        eval(root, env, used + next) == proceed(stack2, point2, env, next) by {}
}

/// A leaf is left with its value.
proof fn lemma_leaf(stack: Seq<Frame>, expr: Expr, value: Binary64, env: Map<Seq<char>, Binary64>)
    requires
        expr == Expr::Number(value) || (expr matches Expr::Variable { name } && env.contains_key(
            name,
        ) && env[name] == value),
    ensures
        same_run(stack, Point::Expression(expr), stack, Point::Value(value), env),
        weight(stack, Point::Value(value)) < weight(stack, Point::Expression(expr)),
{
}

/// A variable without a binding decides for the failure.
proof fn lemma_unbound(stack: Seq<Frame>, name: Seq<char>, env: Map<Seq<char>, Binary64>)
    requires
        !env.contains_key(name),
    ensures
        same_run(
            stack,
            Point::Expression(Expr::Variable { name }),
            stack,
            Point::Decision(Err(Fault::UnboundVariable { variable_name: name })),
            env,
        ),
{
}

/// The walk enters a binary operator at its left operand.
proof fn lemma_enter_operator(
    stack: Seq<Frame>,
    frame: Frame,
    lhs: Expr,
    env: Map<Seq<char>, Binary64>,
)
    requires
        frame is Left,
    ensures
        ({
            let expr = Expr::BinOp {
                op: frame->Left_op,
                lhs: Box::new(lhs),
                rhs: Box::new(frame->rhs@),
            };
            &&& same_run(
                stack,
                Point::Expression(expr),
                stack.push(frame),
                Point::Expression(lhs),
                env,
            )
            &&& weight(stack.push(frame), Point::Expression(lhs)) < weight(
                stack,
                Point::Expression(expr),
            )
        }),
{
    lemma_push(stack, frame, env);
}

/// The walk enters a call with arguments at the first of them.
proof fn lemma_enter_call(
    stack: Seq<Frame>,
    frame: Frame,
    env: Map<Seq<char>, Binary64>,
)
    requires
        frame is Arguments,
        frame->values@.len() == 0,
        frame->arguments@.len() > 0,
    ensures
        ({
            let arguments = models(frame->arguments@);
            let expr = Expr::Function { name: frame->name@, arguments };
            &&& same_run(
                stack,
                Point::Expression(expr),
                stack.push(frame),
                Point::Expression(arguments[0]),
                env,
            )
            &&& weight(stack.push(frame), Point::Expression(arguments[0])) < weight(
                stack,
                Point::Expression(expr),
            )
        }),
{
    lemma_push(stack, frame, env);
    let arguments = models(frame->arguments@);
    let none = Seq::<Binary64>::empty();
    let expr = Expr::Function { name: frame->name@, arguments };
    assert(frame->values@ =~= none);
    assert(costs(arguments, 0) == cost(arguments[0]) + 1 + costs(arguments, 1));
    assert forall|next: Seq<Binary64>| #[trigger]
        proceed(stack, Point::Expression(expr), env, next) == proceed(
            stack.push(frame),
            Point::Expression(arguments[0]),
            env,
            next,
        ) by {
        assert(eval_arguments(arguments, none, env, next) == match eval(arguments[0], env, next) {
            Run::Value { value, rest } => eval_arguments(arguments, none.push(value), env, rest),
            Run::Fault(fault) => Run::Fault(fault),
            Run::Awaits(operation) => Run::Awaits(operation),
        });
    }
}

/// A call without arguments decides at once.
proof fn lemma_empty_call(stack: Seq<Frame>, name: Seq<char>, env: Map<Seq<char>, Binary64>)
    ensures
        same_run(
            stack,
            Point::Expression(Expr::Function { name, arguments: Seq::empty() }),
            stack,
            Point::Decision(invoke(name, Seq::empty())),
            env,
        ),
{
    let none = Seq::<Expr>::empty();
    assert forall|next: Seq<Binary64>| #[trigger]
        proceed(stack, Point::Expression(Expr::Function { name, arguments: none }), env, next)
            == proceed(stack, Point::Decision(invoke(name, Seq::empty())), env, next) by {
        assert(eval_arguments(none, Seq::empty(), env, next) == (Run::Value {
            value: Seq::<Binary64>::empty(),
            rest: next,
        }));
    }
}

/// With the value of its left operand, an operator goes on to the right one.
proof fn lemma_left_done(
    stack: Seq<Frame>,
    frame: Frame,
    value: Binary64,
    frame2: Frame,
    env: Map<Seq<char>, Binary64>,
)
    requires
        frame is Left,
        frame2 == (Frame::Right { op: frame->Left_op, lhs: value }),
    ensures
        same_run(
            stack.push(frame),
            Point::Value(value),
            stack.push(frame2),
            Point::Expression(frame->rhs@),
            env,
        ),
        weight(stack.push(frame2), Point::Expression(frame->rhs@)) < weight(
            stack.push(frame),
            Point::Value(value),
        ),
{
    lemma_push(stack, frame, env);
    lemma_push(stack, frame2, env);
}

/// With the values of both operands, an operator decides.
proof fn lemma_right_done(
    stack: Seq<Frame>,
    frame: Frame,
    value: Binary64,
    env: Map<Seq<char>, Binary64>,
)
    requires
        frame is Right,
    ensures
        same_run(
            stack.push(frame),
            Point::Value(value),
            stack,
            Point::Decision(operate(frame->Right_op, frame->lhs, value)),
            env,
        ),
{
    lemma_push(stack, frame, env);
}

/// With the value of an argument that is not the last, a call goes on to the
/// next one.
proof fn lemma_argument_done(
    stack: Seq<Frame>,
    frame: Frame,
    value: Binary64,
    frame2: Frame,
    env: Map<Seq<char>, Binary64>,
)
    requires
        frame is Arguments,
        frame2 is Arguments,
        frame2->name == frame->name,
        frame2->arguments == frame->arguments,
        frame2->values@ == frame->values@.push(value),
        frame2->values@.len() < frame->arguments@.len(),
    ensures
        ({
            let next = models(frame->arguments@)[frame2->values@.len() as int];
            &&& same_run(
                stack.push(frame),
                Point::Value(value),
                stack.push(frame2),
                Point::Expression(next),
                env,
            )
            &&& weight(stack.push(frame2), Point::Expression(next)) < weight(
                stack.push(frame),
                Point::Value(value),
            )
        }),
{
    lemma_push(stack, frame, env);
    lemma_push(stack, frame2, env);
}

/// With the value of its last argument, a call decides.
proof fn lemma_arguments_done(
    stack: Seq<Frame>,
    frame: Frame,
    value: Binary64,
    env: Map<Seq<char>, Binary64>,
)
    requires
        frame is Arguments,
        frame->values@.len() + 1 == frame->arguments@.len(),
    ensures
        same_run(
            stack.push(frame),
            Point::Value(value),
            stack,
            Point::Decision(invoke(frame->name@, frame->values@.push(value))),
            env,
        ),
{
    lemma_push(stack, frame, env);
}

/// At a decision the evaluation of the whole tree fails with the decision's
/// failure, or waits for the decision's computation and goes on with its
/// result.
proof fn lemma_decision(
    root: Expr,
    env: Map<Seq<char>, Binary64>,
    used: Seq<Binary64>,
    stack: Seq<Frame>,
    decision: Result<Operation, Fault>,
)
    requires
        follows(root, env, used, stack, Point::Decision(decision)),
    ensures
        (match decision {
            Err(fault) => eval(root, env, used) == Run::<Binary64>::Fault(fault),
            Ok(operation) => {
                &&& eval(root, env, used) == Run::<Binary64>::Awaits(operation)
                &&& forall|next: Seq<Binary64>|
                    next.len() > 0 ==> #[trigger] eval(root, env, used + next) == unwind(
                        stack,
                        next[0],
                        env,
                        next.drop_first(),
                    )
            },
        }),
{
    let none = Seq::<Binary64>::empty();
    assert(eval(root, env, used + none) == proceed(stack, Point::Decision(decision), env, none));
}

/// With every frame left, the value at hand is the value of the whole tree.
proof fn lemma_finished(
    root: Expr,
    env: Map<Seq<char>, Binary64>,
    used: Seq<Binary64>,
    value: Binary64,
)
    requires
        follows(root, env, used, Seq::empty(), Point::Value(value)),
    ensures
        eval(root, env, used) == (Run::Value { value, rest: Seq::empty() }),
{
    let none = Seq::<Binary64>::empty();
    assert(eval(root, env, used + none) == proceed(
        Seq::<Frame>::empty(),
        Point::Value(value),
        env,
        none,
    ));
}

/// A result that arrives is the value that the waiting evaluation goes on with.
proof fn lemma_reply(
    root: Expr,
    env: Map<Seq<char>, Binary64>,
    used: Seq<Binary64>,
    stack: Seq<Frame>,
    reply: Binary64,
)
    requires
        forall|next: Seq<Binary64>|
            next.len() > 0 ==> #[trigger] eval(root, env, used + next) == unwind(
                stack,
                next[0],
                env,
                next.drop_first(),
            ),
    ensures
        follows(root, env, used.push(reply), stack, Point::Value(reply)),
{
    assert forall|next: Seq<Binary64>| #[trigger]
        eval(root, env, used.push(reply) + next) == proceed(
            stack,
            Point::Value(reply),
            env,
            next,
        ) by {
        let all = seq![reply] + next;
        assert(used + all =~= used.push(reply) + next);
        assert(all.drop_first() =~= next);
    }
}

/// An evaluation in progress: the tree, the environment, and the nodes that
/// wait for a value.
pub struct Evaluation<'a> {
    expression: &'a MathExpression,
    environment: &'a Environment,
    stack: Vec<Frame<'a>>,
    awaiting: bool,
    replies: Ghost<Seq<Binary64>>,
}

impl<'a> Evaluation<'a> {
    /// The tree under evaluation.
    pub closed spec fn expression(&self) -> Expr {
        self.expression@
    }

    /// The bindings that the evaluation reads.
    pub closed spec fn environment(&self) -> Map<Seq<char>, Binary64> {
        self.environment@
    }

    /// The results handed to the evaluation so far, oldest first.
    pub closed spec fn replies(&self) -> Seq<Binary64> {
        self.replies@
    }

    /// Whether the evaluation waits for the result of a request.
    pub closed spec fn awaiting(&self) -> bool {
        self.awaiting
    }

    /// Where the evaluation stands.
    pub open spec fn state(&self) -> Progress {
        progress(eval(self.expression(), self.environment(), self.replies()))
    }

    /// Every frame of the stack is well formed.
    spec fn frames_wf(&self) -> bool {
        forall|i: int| 0 <= i < self.stack@.len() ==> (#[trigger] self.stack@[i]).wf()
    }

    /// The evaluation stands at `point`, with what its stack holds.
    spec fn at(&self, point: Point) -> bool {
        follows(self.expression@, self.environment@, self.replies@, self.stack@, point)
    }

    /// The invariant of an evaluation between two steps.
    pub closed spec fn wf(&self) -> bool {
        &&& self.frames_wf()
        &&& self.awaiting ==> {
            &&& eval(self.expression@, self.environment@, self.replies@) is Awaits
            &&& forall|next: Seq<Binary64>|
                next.len() > 0 ==> #[trigger] eval(
                    self.expression@,
                    self.environment@,
                    self.replies@ + next,
                ) == unwind(self.stack@, next[0], self.environment@, next.drop_first())
        }
        &&& !self.awaiting ==> !(eval(self.expression@, self.environment@, self.replies@)
            is Awaits)
    }

    /// Whether the evaluation waits for the result of a request.
    pub fn is_awaiting(&self) -> (awaiting: bool)
        ensures
            awaiting == self.awaiting(),
    {
        self.awaiting
    }

    /// Ends a step at a decision: with the request, or with the failure.
    fn conclude(&mut self, decision: Result<Request, InterpreterError>) -> (step: Step)
        requires
            old(self).frames_wf(),
            old(self).at(Point::Decision(decided(decision))),
        ensures
            final(self).wf(),
            final(self).expression() == old(self).expression(),
            final(self).environment() == old(self).environment(),
            final(self).replies() == old(self).replies(),
            step@ == final(self).state(),
            final(self).awaiting() == (step is Need),
    {
        proof {
            lemma_decision(
                self.expression@,
                self.environment@,
                self.replies@,
                self.stack@,
                decided(decision),
            );
        }
        match decision {
            Ok(request) => {
                self.awaiting = true;
                Step::Need(request)
            },
            Err(error) => {
                self.awaiting = false;
                Step::Done(Err(error))
            },
        }
    }

    /// Walks on from the focus until the evaluation ends or needs a result.
    fn advance(&mut self, focus: Focus<'a>) -> (step: Step)
        requires
            old(self).frames_wf(),
            old(self).at(focus.point()),
        ensures
            final(self).wf(),
            final(self).expression() == old(self).expression(),
            final(self).environment() == old(self).environment(),
            final(self).replies() == old(self).replies(),
            step@ == final(self).state(),
            final(self).awaiting() == (step is Need),
    {
        let mut focus = focus;
        loop
            invariant
                self.frames_wf(),
                self.at(focus.point()),
                self.expression == old(self).expression,
                self.environment == old(self).environment,
                self.replies == old(self).replies,
            decreases weight(self.stack@, focus.point()),
        {
            let ghost env = self.environment@;
            let ghost root = self.expression@;
            let ghost used = self.replies@;
            let ghost before = self.stack@;
            let ghost start = focus.point();
            match focus {
                Focus::Expression(expr) => match expr {
                    MathExpression::Number(value) => {
                        focus = Focus::Value(*value);
                        proof {
                            lemma_leaf(before, expr@, *value, env);
                            lemma_follows_on(root, env, used, before, start, before, focus.point());
                        }
                    },
                    MathExpression::Variable { name } => {
                        match self.environment.get(name.as_str()) {
                            Some(value) => {
                                focus = Focus::Value(value);
                                proof {
                                    lemma_leaf(before, expr@, value, env);
                                    lemma_follows_on(
                                        root,
                                        env,
                                        used,
                                        before,
                                        start,
                                        before,
                                        focus.point(),
                                    );
                                }
                            },
                            None => {
                                let error = InterpreterError::UnboundVariable {
                                    variable_name: name.clone(),
                                };
                                proof {
                                    lemma_unbound(before, name@, env);
                                    lemma_follows_on(
                                        root,
                                        env,
                                        used,
                                        before,
                                        start,
                                        before,
                                        Point::Decision(Err(error@)),
                                    );
                                }
                                return self.conclude(Err(error));
                            },
                        }
                    },
                    MathExpression::BinOp { op, lhs, rhs } => {
                        let frame = Frame::Left { op: *op, rhs: &**rhs };
                        self.stack.push(frame);
                        focus = Focus::Expression(&**lhs);
                        proof {
                            lemma_enter_operator(before, frame, lhs@, env);
                            lemma_follows_on(
                                root,
                                env,
                                used,
                                before,
                                start,
                                self.stack@,
                                focus.point(),
                            );
                        }
                    },
                    MathExpression::Function { name, arguments } => {
                        if arguments.len() == 0 {
                            let values: Vec<Binary64> = Vec::new();
                            let decision = call_request(name.as_str(), values);
                            proof {
                                assert(models(arguments@) =~= Seq::<Expr>::empty());
                                lemma_empty_call(before, name@, env);
                                lemma_follows_on(
                                    root,
                                    env,
                                    used,
                                    before,
                                    start,
                                    before,
                                    Point::Decision(decided(decision)),
                                );
                            }
                            return self.conclude(decision);
                        } else {
                            let frame = Frame::Arguments {
                                name: name.as_str(),
                                arguments,
                                values: Vec::new(),
                            };
                            let ghost pushed = frame;
                            self.stack.push(frame);
                            focus = Focus::Expression(&arguments[0]);
                            proof {
                                lemma_enter_call(before, pushed, env);
                                lemma_follows_on(
                                    root,
                                    env,
                                    used,
                                    before,
                                    start,
                                    self.stack@,
                                    focus.point(),
                                );
                            }
                        }
                    },
                },
                Focus::Value(value) => match self.stack.pop() {
                    None => {
                        proof {
                            lemma_finished(root, env, used, value);
                        }
                        self.awaiting = false;
                        return Step::Done(Ok(value));
                    },
                    Some(top) => {
                        let ghost below = before.drop_last();
                        proof {
                            assert(before =~= below.push(top));
                        }
                        match top {
                            Frame::Left { op, rhs } => {
                                let frame = Frame::Right { op, lhs: value };
                                self.stack.push(frame);
                                focus = Focus::Expression(rhs);
                                proof {
                                    lemma_left_done(below, top, value, frame, env);
                                    lemma_follows_on(
                                        root,
                                        env,
                                        used,
                                        before,
                                        start,
                                        self.stack@,
                                        focus.point(),
                                    );
                                }
                            },
                            Frame::Right { op, lhs } => {
                                let decision = binary_request(op, lhs, value);
                                proof {
                                    lemma_right_done(below, top, value, env);
                                    lemma_follows_on(
                                        root,
                                        env,
                                        used,
                                        before,
                                        start,
                                        below,
                                        Point::Decision(decided(decision)),
                                    );
                                }
                                return self.conclude(decision);
                            },
                            Frame::Arguments { name, arguments, values } => {
                                let mut values = values;
                                values.push(value);
                                if values.len() < arguments.len() {
                                    let following = &arguments[values.len()];
                                    let frame = Frame::Arguments { name, arguments, values };
                                    let ghost pushed = frame;
                                    self.stack.push(frame);
                                    focus = Focus::Expression(following);
                                    proof {
                                        lemma_argument_done(below, top, value, pushed, env);
                                        lemma_follows_on(
                                            root,
                                            env,
                                            used,
                                            before,
                                            start,
                                            self.stack@,
                                            focus.point(),
                                        );
                                    }
                                } else {
                                    let decision = call_request(name, values);
                                    proof {
                                        lemma_arguments_done(below, top, value, env);
                                        lemma_follows_on(
                                            root,
                                            env,
                                            used,
                                            before,
                                            start,
                                            below,
                                            Point::Decision(decided(decision)),
                                        );
                                    }
                                    return self.conclude(decision);
                                }
                            },
                        }
                    },
                },
            }
        }
    }

    /// Hands the evaluation the result of the computation it asked for, and
    /// lets it run to its next request or to its end.
    pub fn resume(&mut self, reply: Binary64) -> (step: Step)
        requires
            old(self).wf(),
            old(self).awaiting(),
        ensures
            final(self).wf(),
            final(self).expression() == old(self).expression(),
            final(self).environment() == old(self).environment(),
            final(self).replies() == old(self).replies().push(reply),
            step@ == final(self).state(),
            final(self).awaiting() == (step is Need),
    {
        proof {
            lemma_reply(self.expression@, self.environment@, self.replies@, self.stack@, reply);
        }
        self.replies = Ghost(self.replies@.push(reply));
        self.advance(Focus::Value(reply))
    }
}

/// Begins the evaluation of `expr` in `environment` and lets it run to its
/// first request or to its end.
pub fn interpret<'a>(expr: &'a MathExpression, environment: &'a Environment) -> (started: (
    Evaluation<'a>,
    Step,
))
    ensures
        started.0.wf(),
        started.0.expression() == expr@,
        started.0.environment() == environment@,
        started.0.replies() == Seq::<Binary64>::empty(),
        started.1@ == started.0.state(),
        started.0.awaiting() == (started.1 is Need),
{
    let mut evaluation = Evaluation {
        expression: expr,
        environment,
        stack: Vec::new(),
        awaiting: false,
        replies: Ghost(Seq::empty()),
    };
    proof {
        assert forall|next: Seq<Binary64>| #[trigger]
            eval(expr@, environment@, Seq::<Binary64>::empty() + next) == proceed(
                Seq::<Frame>::empty(),
                Point::Expression(expr@),
                environment@,
                next,
            ) by {
            assert(Seq::<Binary64>::empty() + next =~= next);
        }
    }
    let step = evaluation.advance(Focus::Expression(expr));
    (evaluation, step)
}

} // verus!
