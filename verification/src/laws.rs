//! The laws the library states of itself, each proved once and for all:
//! determinism of the pipeline; the boundary behaviour on empty input; that
//! the reorderer permutes a parenthesis-free token sequence; that an
//! accepted plan is faithful to its postfix sequence and balanced on the
//! value stack; that every well-formed parenthesis-free chain is accepted;
//! the postfix round trip of a single operation; and how two operations
//! group by precedence.

use vstd::multiset::Multiset;
use vstd::prelude::*;

use crate::lexer::{spec_tokenize, LexError};
use crate::pipeline::spec_plan_expression;
use crate::plan::{
    op_of, plan_from, spec_eval_plan, step_projection, steps_balanced, steps_balanced_from,
    EvalErrorModel, Op, StepModel,
};
use crate::postfix::{spec_precedence, spec_shunting_yard, sy_run};
use crate::token::{TokenKind, TokenModel};

verus! {

/// Re-evaluating the same expression text always yields the same plan: the
/// pipeline's meaning is a function of the input characters alone, with no
/// hidden state.
pub proof fn lemma_plan_deterministic(a: Seq<char>, b: Seq<char>)
    requires
        a == b,
    ensures
        spec_plan_expression(a) == spec_plan_expression(b),
{
}

/// The boundary behaviour: an empty input lexes to the empty token
/// sequence, and an empty postfix sequence is a structural error — it names
/// no result — rather than an arbitrary value.
pub proof fn lemma_boundary_empty()
    ensures
        spec_tokenize(Seq::<char>::empty()) == Ok::<_, LexError>(Seq::<TokenModel>::empty()),
        spec_eval_plan(Seq::<TokenModel>::empty()) == Err::<Seq<StepModel>, _>(
            EvalErrorModel::MalformedExpression,
        ),
{
}

/// While the input has no parentheses left, every step of the shunting yard
/// moves one token between the input, the stack and the queue, and none is
/// lost or invented: the final queue holds exactly what the three held.
proof fn lemma_sy_run_conserves(
    ts: Seq<TokenModel>,
    i: int,
    stack: Seq<TokenModel>,
    queue: Seq<TokenModel>,
)
    requires
        0 <= i <= ts.len(),
        forall|k: int|
            i <= k < ts.len() ==> (#[trigger] ts[k].kind != TokenKind::LeftParen && ts[k].kind
                != TokenKind::RightParen),
    ensures
        sy_run(ts, i, stack, queue).to_multiset() =~= queue.to_multiset().add(
            stack.to_multiset(),
        ).add(ts.subrange(i, ts.len() as int).to_multiset()),
    decreases ts.len() - i, stack.len(),
{
    broadcast use vstd::seq_lib::group_to_multiset_ensures;
    broadcast use vstd::multiset::group_multiset_axioms;

    if i >= ts.len() {
        assert(ts.subrange(i, ts.len() as int) =~= Seq::<TokenModel>::empty());
        assert(Seq::<TokenModel>::empty().to_multiset() =~= Multiset::<TokenModel>::empty());
        if stack.len() == 0 {
            assert(stack.to_multiset() =~= Multiset::<TokenModel>::empty());
        } else {
            lemma_sy_run_conserves(ts, i, stack.drop_last(), queue.push(stack.last()));
            assert(stack =~= stack.drop_last().push(stack.last()));
        }
    } else {
        let t = ts[i];
        let rest = ts.subrange(i + 1, ts.len() as int);
        assert(ts.subrange(i, ts.len() as int) =~= seq![t] + rest);
        vstd::seq_lib::lemma_multiset_commutative(seq![t], rest);
        assert(seq![t] =~= Seq::<TokenModel>::empty().push(t));
        assert(seq![t].to_multiset() =~= Multiset::<TokenModel>::empty().insert(t));
        match t.kind {
            TokenKind::Number | TokenKind::Identifier => {
                lemma_sy_run_conserves(ts, i + 1, stack, queue.push(t));
            },
            TokenKind::Operator => {
                if stack.len() > 0 && stack.last().kind != TokenKind::LeftParen
                    && spec_precedence(stack.last().text) > spec_precedence(t.text) {
                    lemma_sy_run_conserves(ts, i, stack.drop_last(), queue.push(stack.last()));
                    assert(stack =~= stack.drop_last().push(stack.last()));
                } else {
                    lemma_sy_run_conserves(ts, i + 1, stack.push(t), queue);
                }
            },
            TokenKind::LeftParen => {
                assert(false);
            },
            TokenKind::RightParen => {
                assert(false);
            },
        }
    }
}

/// On a token sequence without parentheses the reorderer permutes its
/// input: the postfix order holds exactly the tokens given, each as often
/// as it was given — none is dropped, duplicated or invented.
pub proof fn lemma_paren_free_reorder_permutes(ts: Seq<TokenModel>)
    requires
        forall|k: int|
            0 <= k < ts.len() ==> (#[trigger] ts[k].kind != TokenKind::LeftParen && ts[k].kind
                != TokenKind::RightParen),
    ensures
        spec_shunting_yard(ts).to_multiset() =~= ts.to_multiset(),
{
    broadcast use vstd::seq_lib::group_to_multiset_ensures;
    broadcast use vstd::multiset::group_multiset_axioms;

    lemma_sy_run_conserves(ts, 0, Seq::empty(), Seq::empty());
    assert(Seq::<TokenModel>::empty().to_multiset() =~= Multiset::<TokenModel>::empty());
    assert(ts.subrange(0, ts.len() as int) =~= ts);
}

/// The generalisation behind the planner's faithfulness: from any middle of
/// the pass, an accepted plan is what was already planned followed by the
/// projection of the tokens still to come.
proof fn lemma_plan_from_faithful(
    ts: Seq<TokenModel>,
    i: int,
    depth: int,
    acc: Seq<StepModel>,
    steps: Seq<StepModel>,
)
    requires
        0 <= i <= ts.len(),
        plan_from(ts, i, depth, acc) == Ok::<_, EvalErrorModel>(steps),
    ensures
        steps == acc + step_projection(ts.subrange(i, ts.len() as int)),
    decreases ts.len() - i,
{
    let sub = ts.subrange(i, ts.len() as int);
    if i >= ts.len() {
        assert(step_projection(sub) =~= Seq::<StepModel>::empty());
        assert(acc + step_projection(sub) =~= acc);
    } else {
        let t = ts[i];
        let rest = ts.subrange(i + 1, ts.len() as int);
        assert(sub[0] == t);
        assert(sub.drop_first() =~= rest);
        match t.kind {
            TokenKind::Number => {
                let planned = acc.push(StepModel::PushNumber(t.text));
                lemma_plan_from_faithful(ts, i + 1, depth + 1, planned, steps);
                assert(planned + step_projection(rest) =~= acc + (seq![
                    StepModel::PushNumber(t.text),
                ] + step_projection(rest)));
            },
            TokenKind::Operator => {
                match op_of(t.text) {
                    Some(o) => {
                        let planned = acc.push(StepModel::Apply(o));
                        lemma_plan_from_faithful(ts, i + 1, depth - 1, planned, steps);
                        assert(planned + step_projection(rest) =~= acc + (seq![
                            StepModel::Apply(o),
                        ] + step_projection(rest)));
                    },
                    None => {
                        assert(false);
                    },
                }
            },
            _ => {
                lemma_plan_from_faithful(ts, i + 1, depth, acc, steps);
                assert(acc + step_projection(rest) =~= acc + (Seq::<StepModel>::empty()
                    + step_projection(rest)));
            },
        }
    }
}

/// The generalisation behind the plan's balance: an accepted plan extends
/// what was already planned, and runs on from the current depth without
/// underflow to exactly one value.
proof fn lemma_plan_from_balanced(
    ts: Seq<TokenModel>,
    i: int,
    depth: int,
    acc: Seq<StepModel>,
    steps: Seq<StepModel>,
)
    requires
        0 <= i <= ts.len(),
        plan_from(ts, i, depth, acc) == Ok::<_, EvalErrorModel>(steps),
    ensures
        acc.len() <= steps.len(),
        steps.subrange(0, acc.len() as int) == acc,
        steps_balanced_from(steps, acc.len() as int, depth),
    decreases ts.len() - i,
{
    if i >= ts.len() {
        assert(steps.subrange(0, acc.len() as int) =~= acc);
    } else {
        let t = ts[i];
        match t.kind {
            TokenKind::Number => {
                let planned = acc.push(StepModel::PushNumber(t.text));
                lemma_plan_from_balanced(ts, i + 1, depth + 1, planned, steps);
                assert(steps.subrange(0, planned.len() as int) == planned);
                assert(steps[acc.len() as int] == planned[acc.len() as int]);
                assert(steps.subrange(0, acc.len() as int) =~= acc) by {
                    assert(forall|k: int|
                        0 <= k < acc.len() ==> steps.subrange(0, planned.len() as int)[k]
                            == #[trigger] steps[k]);
                }
            },
            TokenKind::Operator => {
                match op_of(t.text) {
                    Some(o) => {
                        let planned = acc.push(StepModel::Apply(o));
                        lemma_plan_from_balanced(ts, i + 1, depth - 1, planned, steps);
                        assert(steps.subrange(0, planned.len() as int) == planned);
                        assert(steps[acc.len() as int] == planned[acc.len() as int]);
                        assert(steps.subrange(0, acc.len() as int) =~= acc) by {
                            assert(forall|k: int|
                                0 <= k < acc.len() ==> steps.subrange(0, planned.len() as int)[k]
                                    == #[trigger] steps[k]);
                        }
                    },
                    None => {
                        assert(false);
                    },
                }
            },
            _ => {
                lemma_plan_from_balanced(ts, i + 1, depth, acc, steps);
            },
        }
    }
}

/// An accepted plan is balanced: run on an empty value stack, every apply
/// step finds at least two values, and exactly one value — the result — is
/// left when the steps are exhausted. A runner of the plan can pop without
/// checking.
pub proof fn lemma_plan_balanced(ts: Seq<TokenModel>, steps: Seq<StepModel>)
    requires
        spec_eval_plan(ts) == Ok::<_, EvalErrorModel>(steps),
    ensures
        steps_balanced(steps),
{
    lemma_plan_from_balanced(ts, 0, 0, Seq::empty(), steps);
}

/// Whenever the planner accepts a postfix sequence, the plan is faithful to
/// it: the steps are exactly the sequence's number tokens, each as a push of
/// its text, and its operator tokens, each as the operation its text names,
/// in the order given — no operation is reordered, dropped or invented.
pub proof fn lemma_plan_faithful(ts: Seq<TokenModel>, steps: Seq<StepModel>)
    requires
        spec_eval_plan(ts) == Ok::<_, EvalErrorModel>(steps),
    ensures
        steps == step_projection(ts),
{
    lemma_plan_from_faithful(ts, 0, 0, Seq::empty(), steps);
    assert(ts.subrange(0, ts.len() as int) =~= ts);
    assert(Seq::<StepModel>::empty() + step_projection(ts) =~= step_projection(ts));
}

/// The round trip of one operation: for any two number tokens and any
/// operator token naming an operation, the reorderer yields exactly the
/// postfix order `a b op`, and the planner turns it into pushing the two
/// numbers and applying the operation — the direct evaluation of `a op b`.
pub proof fn lemma_single_operation_round_trip(a: TokenModel, op: TokenModel, b: TokenModel, o: Op)
    requires
        a.kind == TokenKind::Number,
        b.kind == TokenKind::Number,
        op.kind == TokenKind::Operator,
        op_of(op.text) == Some(o),
    ensures
        spec_shunting_yard(seq![a, op, b]) == seq![a, b, op],
        spec_eval_plan(seq![a, b, op]) == Ok::<_, EvalErrorModel>(
            seq![
                StepModel::PushNumber(a.text),
                StepModel::PushNumber(b.text),
                StepModel::Apply(o),
            ],
        ),
{
    let ts = seq![a, op, b];
    let st0 = Seq::<TokenModel>::empty();
    let q0 = Seq::<TokenModel>::empty();
    assert(ts.len() == 3 && ts[0] == a && ts[1] == op && ts[2] == b);
    assert(sy_run(ts, 0, st0, q0) == sy_run(ts, 1, st0, q0.push(a)));
    assert(sy_run(ts, 1, st0, q0.push(a)) == sy_run(ts, 2, st0.push(op), q0.push(a)));
    assert(sy_run(ts, 2, st0.push(op), q0.push(a)) == sy_run(
        ts,
        3,
        st0.push(op),
        q0.push(a).push(b),
    ));
    assert(st0.push(op).drop_last() =~= st0);
    assert(st0.push(op).last() == op);
    assert(sy_run(ts, 3, st0.push(op), q0.push(a).push(b)) == sy_run(
        ts,
        3,
        st0,
        q0.push(a).push(b).push(op),
    ));
    assert(sy_run(ts, 3, st0, q0.push(a).push(b).push(op)) == q0.push(a).push(b).push(op));
    assert(q0.push(a).push(b).push(op) =~= seq![a, b, op]);

    let ps = seq![a, b, op];
    assert(ps.len() == 3 && ps[0] == a && ps[1] == b && ps[2] == op);
    let acc0 = Seq::<StepModel>::empty();
    let acc1 = acc0.push(StepModel::PushNumber(a.text));
    let acc2 = acc1.push(StepModel::PushNumber(b.text));
    let acc3 = acc2.push(StepModel::Apply(o));
    assert(plan_from(ps, 0, 0, acc0) == plan_from(ps, 1, 1, acc1));
    assert(plan_from(ps, 1, 1, acc1) == plan_from(ps, 2, 2, acc2));
    assert(plan_from(ps, 2, 2, acc2) == plan_from(ps, 3, 1, acc3));
    assert(plan_from(ps, 3, 1, acc3) == Ok::<_, EvalErrorModel>(acc3));
    assert(acc3 =~= seq![
        StepModel::PushNumber(a.text),
        StepModel::PushNumber(b.text),
        StepModel::Apply(o),
    ]);
}

/// The depth of the evaluation stack after running a token sequence from
/// depth `d`: each number deepens it by one, each operator consumes one,
/// everything else leaves it.
pub open spec fn run_depth(q: Seq<TokenModel>, d: int) -> int
    decreases q.len(),
{
    if q.len() == 0 {
        d
    } else {
        let d2 = (match q[0].kind {
            TokenKind::Number => d + 1,
            TokenKind::Operator => d - 1,
            _ => d,
        });
        run_depth(q.drop_first(), d2)
    }
}

/// Whether a run of a token sequence from depth `d` finds two operands for
/// every operator.
pub open spec fn run_ok(q: Seq<TokenModel>, d: int) -> bool
    decreases q.len(),
{
    if q.len() == 0 {
        true
    } else {
        match q[0].kind {
            TokenKind::Number => run_ok(q.drop_first(), d + 1),
            TokenKind::Operator => d >= 2 && run_ok(q.drop_first(), d - 1),
            _ => run_ok(q.drop_first(), d),
        }
    }
}

/// What appending one token does to a run: the depth moves by the token's
/// effect, and the run stays viable exactly when an appended operator finds
/// its two operands.
proof fn lemma_run_snoc(q: Seq<TokenModel>, t: TokenModel, d: int)
    ensures
        run_depth(q.push(t), d) == (match t.kind {
            TokenKind::Number => run_depth(q, d) + 1,
            TokenKind::Operator => run_depth(q, d) - 1,
            _ => run_depth(q, d),
        }),
        run_ok(q.push(t), d) == (run_ok(q, d) && (t.kind == TokenKind::Operator ==> run_depth(
            q,
            d,
        ) >= 2)),
    decreases q.len(),
{
    if q.len() == 0 {
        assert(q.push(t)[0] == t);
        assert(q.push(t).drop_first() =~= Seq::<TokenModel>::empty());
        assert(run_depth(Seq::<TokenModel>::empty(), d + 1) == d + 1);
        assert(run_depth(Seq::<TokenModel>::empty(), d - 1) == d - 1);
        assert(run_depth(Seq::<TokenModel>::empty(), d) == d);
        assert(run_ok(Seq::<TokenModel>::empty(), d + 1));
        assert(run_ok(Seq::<TokenModel>::empty(), d - 1));
        assert(run_ok(Seq::<TokenModel>::empty(), d));
        assert(run_depth(q, d) == d);
        assert(run_ok(q, d));
    } else {
        assert(q.push(t)[0] == q[0]);
        assert(q.push(t).drop_first() =~= q.drop_first().push(t));
        let d2 = (match q[0].kind {
            TokenKind::Number => d + 1,
            TokenKind::Operator => d - 1,
            _ => d,
        });
        lemma_run_snoc(q.drop_first(), t, d2);
        assert(run_depth(q.push(t), d) == run_depth(q.drop_first().push(t), d2));
        assert(run_depth(q, d) == run_depth(q.drop_first(), d2));
        assert(run_ok(q, d) == ((q[0].kind == TokenKind::Operator ==> d >= 2) && run_ok(
            q.drop_first(),
            d2,
        )));
    }
}

/// The planner accepts a sequence exactly when its run from the current
/// depth never starves an operator and ends at depth one, provided every
/// operator token names an operation.
proof fn lemma_plan_run(ts: Seq<TokenModel>, i: int, depth: int, acc: Seq<StepModel>)
    requires
        0 <= i <= ts.len(),
        forall|k: int|
            i <= k < ts.len() ==> (#[trigger] ts[k].kind == TokenKind::Operator ==> op_of(
                ts[k].text,
            ) is Some),
    ensures
        (plan_from(ts, i, depth, acc) is Ok) == (run_ok(ts.subrange(i, ts.len() as int), depth)
            && run_depth(ts.subrange(i, ts.len() as int), depth) == 1),
    decreases ts.len() - i,
{
    let sub = ts.subrange(i, ts.len() as int);
    if i >= ts.len() {
        assert(sub.len() == 0);
    } else {
        let t = ts[i];
        assert(sub[0] == t);
        assert(sub.drop_first() =~= ts.subrange(i + 1, ts.len() as int));
        match t.kind {
            TokenKind::Number => {
                lemma_plan_run(ts, i + 1, depth + 1, acc.push(StepModel::PushNumber(t.text)));
            },
            TokenKind::Operator => {
                if depth >= 2 {
                    match op_of(t.text) {
                        Some(o) => {
                            lemma_plan_run(ts, i + 1, depth - 1, acc.push(StepModel::Apply(o)));
                        },
                        None => {
                            assert(false);
                        },
                    }
                }
            },
            _ => {
                lemma_plan_run(ts, i + 1, depth, acc);
            },
        }
    }
}

/// A flat chain: numbers at the even positions, operators naming operations
/// at the odd ones, ending on a number — the parenthesis-free form
/// `n (op n)*`.
pub open spec fn is_flat_chain(ts: Seq<TokenModel>) -> bool {
    &&& ts.len() % 2 == 1
    &&& forall|k: int|
        0 <= k < ts.len() && k % 2 == 0 ==> (#[trigger] ts[k].kind) == TokenKind::Number
    &&& forall|k: int|
        0 <= k < ts.len() && k % 2 == 1 ==> ((#[trigger] ts[k].kind) == TokenKind::Operator
            && op_of(ts[k].text) is Some)
}

/// The shunting yard's invariant on a flat chain: between tokens the queue
/// runs without starving and its depth tracks the operator stack, so the
/// final queue runs to exactly one value.
proof fn lemma_chain_state(ts: Seq<TokenModel>, i: int, st: Seq<TokenModel>, q: Seq<TokenModel>)
    requires
        is_flat_chain(ts),
        0 <= i <= ts.len(),
        forall|k: int|
            0 <= k < st.len() ==> ((#[trigger] st[k].kind) == TokenKind::Operator && op_of(
                st[k].text,
            ) is Some),
        forall|k: int|
            0 <= k < q.len() ==> ((#[trigger] q[k].kind) == TokenKind::Number || (q[k].kind
                == TokenKind::Operator && op_of(q[k].text) is Some)),
        run_ok(q, 0),
        i % 2 == 1 ==> run_depth(q, 0) == st.len() + 1,
        i % 2 == 0 ==> run_depth(q, 0) == st.len(),
    ensures
        run_ok(sy_run(ts, i, st, q), 0),
        run_depth(sy_run(ts, i, st, q), 0) == 1,
        forall|k: int|
            0 <= k < sy_run(ts, i, st, q).len() ==> ((#[trigger] sy_run(ts, i, st, q)[k].kind)
                == TokenKind::Number || (sy_run(ts, i, st, q)[k].kind == TokenKind::Operator
                && op_of(sy_run(ts, i, st, q)[k].text) is Some)),
    decreases ts.len() - i, st.len(),
{
    if i >= ts.len() {
        assert(i == ts.len());
        assert(i % 2 == 1);
        if st.len() > 0 {
            lemma_run_snoc(q, st.last(), 0);
            lemma_chain_state(ts, i, st.drop_last(), q.push(st.last()));
        }
    } else {
        let t = ts[i];
        if i % 2 == 0 {
            assert(t.kind == TokenKind::Number);
            lemma_run_snoc(q, t, 0);
            lemma_chain_state(ts, i + 1, st, q.push(t));
        } else {
            assert(t.kind == TokenKind::Operator && op_of(t.text) is Some);
            if st.len() > 0 && st.last().kind != TokenKind::LeftParen && spec_precedence(
                st.last().text,
            ) > spec_precedence(t.text) {
                lemma_run_snoc(q, st.last(), 0);
                lemma_chain_state(ts, i, st.drop_last(), q.push(st.last()));
            } else {
                lemma_chain_state(ts, i + 1, st.push(t), q);
            }
        }
    }
}

/// Success is owed on every well-formed parenthesis-free expression: the
/// pipeline accepts each flat chain `n (op n)*`, planning it without any
/// structural error.
pub proof fn lemma_flat_chain_is_planned(ts: Seq<TokenModel>)
    requires
        is_flat_chain(ts),
    ensures
        spec_eval_plan(spec_shunting_yard(ts)) is Ok,
{
    lemma_chain_state(ts, 0, Seq::empty(), Seq::empty());
    let out = spec_shunting_yard(ts);
    lemma_plan_run(out, 0, 0, Seq::empty());
    assert(out.subrange(0, out.len() as int) =~= out);
}

/// How two operations group: with numbers `a b c` and operators `p q`, the
/// expression `a p b q c` comes out left-grouped — `a b p` first — exactly
/// when `p` has strictly greater precedence than `q`, and right-grouped —
/// `b c q` first — otherwise. Equal precedence therefore groups to the
/// right, which resolves chains such as repeated exponentiation.
pub proof fn lemma_two_operations_grouping(
    a: TokenModel,
    p: TokenModel,
    b: TokenModel,
    q: TokenModel,
    c: TokenModel,
)
    requires
        a.kind == TokenKind::Number,
        b.kind == TokenKind::Number,
        c.kind == TokenKind::Number,
        p.kind == TokenKind::Operator,
        q.kind == TokenKind::Operator,
    ensures
        spec_precedence(p.text) > spec_precedence(q.text) ==> spec_shunting_yard(
            seq![a, p, b, q, c],
        ) == seq![a, b, p, c, q],
        spec_precedence(p.text) <= spec_precedence(q.text) ==> spec_shunting_yard(
            seq![a, p, b, q, c],
        ) == seq![a, b, c, q, p],
{
    let ts = seq![a, p, b, q, c];
    let st0 = Seq::<TokenModel>::empty();
    let q0 = Seq::<TokenModel>::empty();
    assert(ts.len() == 5 && ts[0] == a && ts[1] == p && ts[2] == b && ts[3] == q && ts[4] == c);
    assert(sy_run(ts, 0, st0, q0) == sy_run(ts, 1, st0, q0.push(a)));
    assert(sy_run(ts, 1, st0, q0.push(a)) == sy_run(ts, 2, st0.push(p), q0.push(a)));
    assert(sy_run(ts, 2, st0.push(p), q0.push(a)) == sy_run(
        ts,
        3,
        st0.push(p),
        q0.push(a).push(b),
    ));
    if spec_precedence(p.text) > spec_precedence(q.text) {
        let q1 = q0.push(a).push(b);
        assert(st0.push(p).drop_last() =~= st0);
        assert(sy_run(ts, 3, st0.push(p), q1) == sy_run(ts, 3, st0, q1.push(p)));
        assert(sy_run(ts, 3, st0, q1.push(p)) == sy_run(ts, 4, st0.push(q), q1.push(p)));
        assert(sy_run(ts, 4, st0.push(q), q1.push(p)) == sy_run(
            ts,
            5,
            st0.push(q),
            q1.push(p).push(c),
        ));
        assert(st0.push(q).drop_last() =~= st0);
        assert(sy_run(ts, 5, st0.push(q), q1.push(p).push(c)) == sy_run(
            ts,
            5,
            st0,
            q1.push(p).push(c).push(q),
        ));
        assert(sy_run(ts, 5, st0, q1.push(p).push(c).push(q)) == q1.push(p).push(c).push(q));
        assert(q1.push(p).push(c).push(q) =~= seq![a, b, p, c, q]);
    } else {
        let q1 = q0.push(a).push(b);
        let st1 = st0.push(p).push(q);
        assert(sy_run(ts, 3, st0.push(p), q1) == sy_run(ts, 4, st1, q1));
        assert(sy_run(ts, 4, st1, q1) == sy_run(ts, 5, st1, q1.push(c)));
        assert(st1.drop_last() =~= st0.push(p));
        assert(sy_run(ts, 5, st1, q1.push(c)) == sy_run(ts, 5, st0.push(p), q1.push(c).push(q)));
        assert(st0.push(p).drop_last() =~= st0);
        assert(sy_run(ts, 5, st0.push(p), q1.push(c).push(q)) == sy_run(
            ts,
            5,
            st0,
            q1.push(c).push(q).push(p),
        ));
        assert(sy_run(ts, 5, st0, q1.push(c).push(q).push(p)) == q1.push(c).push(q).push(p));
        assert(q1.push(c).push(q).push(p) =~= seq![a, b, c, q, p]);
    }
}

} // verus!
