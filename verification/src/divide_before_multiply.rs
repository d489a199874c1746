//! The arithmetic-order analysis: highlights arithmetic expressions in
//! which division is performed before multiplication.
//!
//! Integer division truncates, so `a / b * c` can unexpectedly come out as
//! zero where `a * c / b` would not.  The analysis pattern-matches
//! multiply-of-divide shapes — where multiplication and division may each
//! be written as a binary operator or as the saturating-arithmetic call of
//! matching semantics — and reports a match when all three operands are
//! integral.  Matching is syntactic and type-gated, not value-gated: the
//! analysis cannot know whether the division truncates, so it flags the
//! pattern, accepting false positives where the division happens to be
//! exact.  Non-integral operands are never flagged.

use vstd::prelude::*;

use crate::report::{Category, Finding, Reporter};
use crate::tree::{BinOp, Expr, MethodName, Span};
use crate::types::{kind_is_integral, resolve_kind_at};
use crate::unit::{AnalyzedUnit, Method};

verus! {

/// What `find_method_or_op` extracts from a node: the node read as
/// `lhs name/op rhs`, when it has that shape.  A binary node matches when
/// its operator is `op`; a method call matches when its callee is `name`
/// and it has exactly one argument — any other arity is simply a
/// non-match, never an error.
pub open spec fn method_or_op_spec(e: Expr, name: MethodName, op: BinOp) -> Option<(Expr, Expr)> {
    match e {
        Expr::Binary { op: o, lhs, rhs, .. } => if o == op {
            Some((*lhs, *rhs))
        } else {
            None
        },
        Expr::MethodCall { name: n, receiver, args, .. } => if n == name && args@.len() == 1 {
            Some((*receiver, args@[0]))
        } else {
            None
        },
        _ => None,
    }
}

/// True iff the node's type resolves to an integral numeric kind.  Fails
/// closed: with no type information for the unit, or an unresolvable
/// alias chain, the node does not count as integral.
pub open spec fn is_integral_expr(u: AnalyzedUnit, e: Expr) -> bool {
    u.has_type_info && kind_is_integral(resolve_kind_at(u.types.entries@, e.spec_ty() as int))
}

/// True iff the node is a multiplication of a division with all three
/// operands integral: the shape the analysis reports.
pub open spec fn mul_of_div_match(u: AnalyzedUnit, e: Expr) -> bool {
    match method_or_op_spec(e, MethodName::SaturatingMul, BinOp::Mul) {
        Some((lhs, c)) => match method_or_op_spec(lhs, MethodName::SaturatingDiv, BinOp::Div) {
            Some((a, b)) => is_integral_expr(u, a) && is_integral_expr(u, b) && is_integral_expr(
                u,
                c,
            ),
            None => false,
        },
        None => false,
    }
}

/// The finding reported for a matched expression: located at the full
/// expression's span, with the same span surfaced as the suggested
/// rewrite (the fix is a reordering applied to exactly that text).
pub open spec fn arith_finding(e: Expr) -> Finding {
    Finding {
        span: e.spec_span(),
        category: Category::ArithmeticOrder,
        rewrite_span: Some(e.spec_span()),
    }
}

/// What visiting one node reports: one finding when the node matches,
/// nothing otherwise.
pub open spec fn node_findings(u: AnalyzedUnit, e: Expr) -> Seq<Finding> {
    if mul_of_div_match(u, e) {
        seq![arith_finding(e)]
    } else {
        Seq::empty()
    }
}

/// The findings of a depth-first pre-order walk of the whole expression:
/// the node's own finding first, then the children's, left to right.
/// Nested matches are each reported by the node that heads them — there is
/// no deduplication across nested shapes.
pub open spec fn findings_in(u: AnalyzedUnit, e: Expr) -> Seq<Finding>
    decreases e,
{
    node_findings(u, e) + match e {
        Expr::Binary { lhs, rhs, .. } => findings_in(u, *lhs) + findings_in(u, *rhs),
        Expr::MethodCall { receiver, args, .. } => findings_in(u, *receiver) + findings_in_list(
            u,
            args@,
        ),
        Expr::Index { base, index, .. } => findings_in(u, *base) + findings_in(u, *index),
        Expr::Assign { target, value, .. } => findings_in(u, *target) + findings_in(u, *value),
        _ => Seq::empty(),
    }
}

/// The findings of walking each expression of a list in order.
pub open spec fn findings_in_list(u: AnalyzedUnit, es: Seq<Expr>) -> Seq<Finding>
    decreases es,
{
    if es.len() == 0 {
        Seq::empty()
    } else {
        findings_in(u, es[0]) + findings_in_list(u, es.subrange(1, es.len() as int))
    }
}

/// Returns true iff the given expression has integral type.
pub fn has_integral_ty(u: &AnalyzedUnit, e: &Expr) -> (b: bool)
    ensures
        b == is_integral_expr(*u, *e),
{
    if !u.has_type_info {
        return false;
    }
    u.types.resolves_integral(e.ty())
}

/// Detects expression patterns that represent binary operations or method
/// calls, returning their LHS and RHS if found.
pub fn find_method_or_op<'a>(e: &'a Expr, name: MethodName, op: BinOp) -> (r: Option<
    (&'a Expr, &'a Expr),
>)
    ensures
        match r {
            Some((l, rr)) => method_or_op_spec(*e, name, op) == Some((*l, *rr)),
            None => method_or_op_spec(*e, name, op) is None,
        },
{
    match e {
        Expr::Binary { op: o, lhs, rhs, .. } => {
            if *o == op {
                Some((&**lhs, &**rhs))
            } else {
                None
            }
        },
        Expr::MethodCall { name: n, receiver, args, .. } => {
            if *n == name && args.len() == 1 {
                Some((&**receiver, &args[0]))
            } else {
                None
            }
        },
        _ => None,
    }
}

/// If the given expression represents a multiplication operation, returns
/// its LHS and RHS.
pub fn is_mul<'a>(e: &'a Expr) -> (r: Option<(&'a Expr, &'a Expr)>)
    ensures
        match r {
            Some((l, rr)) => method_or_op_spec(*e, MethodName::SaturatingMul, BinOp::Mul) == Some(
                (*l, *rr),
            ),
            None => method_or_op_spec(*e, MethodName::SaturatingMul, BinOp::Mul) is None,
        },
{
    find_method_or_op(e, MethodName::SaturatingMul, BinOp::Mul)
}

/// If the given expression represents a division operation, returns its
/// LHS and RHS.
pub fn is_div<'a>(e: &'a Expr) -> (r: Option<(&'a Expr, &'a Expr)>)
    ensures
        match r {
            Some((l, rr)) => method_or_op_spec(*e, MethodName::SaturatingDiv, BinOp::Div) == Some(
                (*l, *rr),
            ),
            None => method_or_op_spec(*e, MethodName::SaturatingDiv, BinOp::Div) is None,
        },
{
    find_method_or_op(e, MethodName::SaturatingDiv, BinOp::Div)
}

/// Visits one node: looks for the pattern `a / b * c` (in operator or
/// saturating-call form) with integral operands, and reports it at the
/// full expression's span.
pub fn check_expr(u: &AnalyzedUnit, e: &Expr, reporter: &mut Reporter)
    ensures
        final(reporter)@ == old(reporter)@ + node_findings(*u, *e),
{
    let ghost pre = reporter@;
    if let Some((lhs, c)) = is_mul(e) {
        if let Some((a, b)) = is_div(lhs) {
            if has_integral_ty(u, a) && has_integral_ty(u, b) && has_integral_ty(u, c) {
                let sp = e.span();
                reporter.report(
                    Finding {
                        span: sp,
                        category: Category::ArithmeticOrder,
                        rewrite_span: Some(sp),
                    },
                );
                proof {
                    assert(mul_of_div_match(*u, *e));
                    assert(reporter@ =~= pre + node_findings(*u, *e));
                }
                return ;
            }
        }
    }
    proof {
        assert(!mul_of_div_match(*u, *e));
        assert(reporter@ =~= pre + node_findings(*u, *e));
    }
}

/// One step of walking a list: the findings of the first `i + 1`
/// expressions are the findings of the first `i` followed by those of the
/// `i`-th.
pub proof fn lemma_findings_in_list_take_step(u: AnalyzedUnit, es: Seq<Expr>, i: int)
    requires
        0 <= i < es.len(),
    ensures
        findings_in_list(u, es.take(i + 1)) == findings_in_list(u, es.take(i)) + findings_in(
            u,
            es[i],
        ),
    decreases i,
{
    reveal_with_fuel(findings_in_list, 2);
    let a = es.take(i + 1);
    let b = es.take(i);
    if i == 0 {
        assert(a.len() == 1 && a[0] == es[0]);
        assert(a.subrange(1, a.len() as int) =~= Seq::<Expr>::empty());
        assert(findings_in_list(u, a) =~= findings_in(u, es[0]));
        assert(findings_in_list(u, b) =~= Seq::<Finding>::empty());
        assert(findings_in_list(u, a) =~= findings_in_list(u, b) + findings_in(u, es[0]));
    } else {
        let tail = es.subrange(1, es.len() as int);
        lemma_findings_in_list_take_step(u, tail, i - 1);
        assert(a.subrange(1, a.len() as int) =~= tail.take(i));
        assert(b.subrange(1, b.len() as int) =~= tail.take(i - 1));
        assert(a[0] == es[0] && b[0] == es[0]);
        assert(tail[i - 1] == es[i]);
        assert(findings_in_list(u, a) == findings_in(u, es[0]) + findings_in_list(u, tail.take(i)));
        assert(findings_in_list(u, b) == findings_in(u, es[0]) + findings_in_list(
            u,
            tail.take(i - 1),
        ));
        assert(findings_in_list(u, a) =~= findings_in_list(u, b) + findings_in(u, es[i]));
    }
}

/// Walks one expression depth-first in pre-order, reporting every
/// multiply-of-divide match it visits.
pub fn walk_expr(u: &AnalyzedUnit, e: &Expr, reporter: &mut Reporter)
    ensures
        final(reporter)@ == old(reporter)@ + findings_in(*u, *e),
    decreases *e,
{
    let ghost pre = reporter@;
    check_expr(u, e, reporter);
    match e {
        Expr::Binary { lhs, rhs, .. } => {
            walk_expr(u, &**lhs, reporter);
            walk_expr(u, &**rhs, reporter);
            proof {
                assert(reporter@ =~= pre + findings_in(*u, *e));
            }
        },
        Expr::MethodCall { receiver, args, .. } => {
            walk_expr(u, &**receiver, reporter);
            let n = args.len();
            let mut i: usize = 0;
            #[verifier::loop_isolation(false)]
            while i < n
                invariant
                    n == args@.len(),
                    i <= n,
                    reporter@ == pre + node_findings(*u, *e) + findings_in(*u, **receiver)
                        + findings_in_list(*u, args@.take(i as int)),
                decreases n - i,
            {
                proof {
                    let ghost ee = *e;
                    assert(ee->MethodCall_args == *args);
                    assert(decreases_to!(ee => ee->MethodCall_args));
                    assert(decreases_to!(ee->MethodCall_args => ee->MethodCall_args@));
                    assert(decreases_to!(ee->MethodCall_args@ => ee->MethodCall_args@[i as int]));
                    assert(args@[i as int] == ee->MethodCall_args@[i as int]);
                }
                walk_expr(u, &args[i], reporter);
                proof {
                    lemma_findings_in_list_take_step(*u, args@, i as int);
                }
                i = i + 1;
            }
            proof {
                assert(args@.take(n as int) =~= args@);
                assert(reporter@ =~= pre + findings_in(*u, *e));
            }
        },
        Expr::Index { base, index, .. } => {
            walk_expr(u, &**base, reporter);
            walk_expr(u, &**index, reporter);
            proof {
                assert(reporter@ =~= pre + findings_in(*u, *e));
            }
        },
        Expr::Assign { target, value, .. } => {
            walk_expr(u, &**target, reporter);
            walk_expr(u, &**value, reporter);
            proof {
                assert(reporter@ =~= pre + findings_in(*u, *e));
            }
        },
        _ => {
            proof {
                assert(reporter@ =~= pre + findings_in(*u, *e));
            }
        },
    }
}

/// Walks every statement of one method body in order.
pub fn walk_method(u: &AnalyzedUnit, m: &Method, reporter: &mut Reporter)
    ensures
        final(reporter)@ == old(reporter)@ + findings_in_list(*u, m.body@),
{
    let ghost pre = reporter@;
    let n = m.body.len();
    let mut i: usize = 0;
    while i < n
        invariant
            n == m.body@.len(),
            i <= n,
            reporter@ == pre + findings_in_list(*u, m.body@.take(i as int)),
        decreases n - i,
    {
        walk_expr(u, &m.body[i], reporter);
        proof {
            lemma_findings_in_list_take_step(*u, m.body@, i as int);
        }
        i = i + 1;
    }
    proof {
        assert(m.body@.take(n as int) =~= m.body@);
    }
}

/// Every finding this analysis produces carries the arithmetic-order
/// category and sits at the span of a multiply-of-divide match it visited.
pub proof fn lemma_findings_in_category(u: AnalyzedUnit, e: Expr)
    ensures
        forall|i: int|
            0 <= i < findings_in(u, e).len() ==> (#[trigger] findings_in(u, e)[i]).category
                == Category::ArithmeticOrder,
    decreases e,
{
    match e {
        Expr::Binary { lhs, rhs, .. } => {
            lemma_findings_in_category(u, *lhs);
            lemma_findings_in_category(u, *rhs);
        },
        Expr::MethodCall { receiver, args, .. } => {
            lemma_findings_in_category(u, *receiver);
            lemma_findings_in_list_category(u, args@);
        },
        Expr::Index { base, index, .. } => {
            lemma_findings_in_category(u, *base);
            lemma_findings_in_category(u, *index);
        },
        Expr::Assign { target, value, .. } => {
            lemma_findings_in_category(u, *target);
            lemma_findings_in_category(u, *value);
        },
        _ => {},
    }
}

/// List form of `lemma_findings_in_category`.
pub proof fn lemma_findings_in_list_category(u: AnalyzedUnit, es: Seq<Expr>)
    ensures
        forall|i: int|
            0 <= i < findings_in_list(u, es).len() ==> (#[trigger] findings_in_list(u, es)[i]).category
                == Category::ArithmeticOrder,
    decreases es,
{
    if es.len() > 0 {
        lemma_findings_in_category(u, es[0]);
        lemma_findings_in_list_category(u, es.subrange(1, es.len() as int));
    }
}

/// True iff `sub` is `e` itself or occurs somewhere inside it.
pub open spec fn occurs_in(sub: Expr, e: Expr) -> bool
    decreases e,
{
    sub == e || (match e {
        Expr::Binary { lhs, rhs, .. } => occurs_in(sub, *lhs) || occurs_in(sub, *rhs),
        Expr::MethodCall { receiver, args, .. } => occurs_in(sub, *receiver) || occurs_in_list(
            sub,
            args@,
        ),
        Expr::Index { base, index, .. } => occurs_in(sub, *base) || occurs_in(sub, *index),
        Expr::Assign { target, value, .. } => occurs_in(sub, *target) || occurs_in(sub, *value),
        _ => false,
    })
}

/// True iff `sub` occurs in some expression of the list.
pub open spec fn occurs_in_list(sub: Expr, es: Seq<Expr>) -> bool
    decreases es,
{
    es.len() > 0 && (occurs_in(sub, es[0]) || occurs_in_list(sub, es.subrange(1, es.len() as int)))
}

/// The analysis never synthesizes a location: every finding of a walk is
/// the finding of some multiply-of-divide match that occurs in the walked
/// expression, so its span is the matched expression's own.
pub proof fn lemma_findings_in_are_anchored(u: AnalyzedUnit, e: Expr)
    ensures
        forall|i: int|
            0 <= i < findings_in(u, e).len() ==> exists|sub: Expr|
                occurs_in(sub, e) && mul_of_div_match(u, sub) && #[trigger] findings_in(u, e)[i]
                    == arith_finding(sub),
    decreases e,
{
    let fs = findings_in(u, e);
    let node = node_findings(u, e);
    assert forall|i: int| 0 <= i < fs.len() implies exists|sub: Expr|
        occurs_in(sub, e) && mul_of_div_match(u, sub) && #[trigger] fs[i] == arith_finding(
            sub,
        ) by {
        if i < node.len() {
            assert(mul_of_div_match(u, e));
            assert(occurs_in(e, e) && mul_of_div_match(u, e) && fs[i] == arith_finding(e));
        } else {
            let j = i - node.len();
            match e {
                Expr::Binary { lhs, rhs, .. } => {
                    lemma_findings_in_are_anchored(u, *lhs);
                    lemma_findings_in_are_anchored(u, *rhs);
                    let l = findings_in(u, *lhs);
                    let r = findings_in(u, *rhs);
                    if j < l.len() {
                        let sub = choose|sub: Expr|
                            occurs_in(sub, *lhs) && mul_of_div_match(u, sub) && #[trigger] l[j]
                                == arith_finding(sub);
                        assert(occurs_in(sub, e) && fs[i] == arith_finding(sub));
                    } else {
                        let k = j - l.len();
                        let sub = choose|sub: Expr|
                            occurs_in(sub, *rhs) && mul_of_div_match(u, sub) && #[trigger] r[k]
                                == arith_finding(sub);
                        assert(occurs_in(sub, e) && fs[i] == arith_finding(sub));
                    }
                },
                Expr::MethodCall { receiver, args, .. } => {
                    lemma_findings_in_are_anchored(u, *receiver);
                    lemma_findings_in_list_are_anchored(u, args@);
                    let l = findings_in(u, *receiver);
                    let r = findings_in_list(u, args@);
                    if j < l.len() {
                        let sub = choose|sub: Expr|
                            occurs_in(sub, *receiver) && mul_of_div_match(u, sub) && #[trigger] l[j]
                                == arith_finding(sub);
                        assert(occurs_in(sub, e) && fs[i] == arith_finding(sub));
                    } else {
                        let k = j - l.len();
                        let sub = choose|sub: Expr|
                            occurs_in_list(sub, args@) && mul_of_div_match(u, sub) && #[trigger] r[k]
                                == arith_finding(sub);
                        assert(occurs_in(sub, e) && fs[i] == arith_finding(sub));
                    }
                },
                Expr::Index { base, index, .. } => {
                    lemma_findings_in_are_anchored(u, *base);
                    lemma_findings_in_are_anchored(u, *index);
                    let l = findings_in(u, *base);
                    let r = findings_in(u, *index);
                    if j < l.len() {
                        let sub = choose|sub: Expr|
                            occurs_in(sub, *base) && mul_of_div_match(u, sub) && #[trigger] l[j]
                                == arith_finding(sub);
                        assert(occurs_in(sub, e) && fs[i] == arith_finding(sub));
                    } else {
                        let k = j - l.len();
                        let sub = choose|sub: Expr|
                            occurs_in(sub, *index) && mul_of_div_match(u, sub) && #[trigger] r[k]
                                == arith_finding(sub);
                        assert(occurs_in(sub, e) && fs[i] == arith_finding(sub));
                    }
                },
                Expr::Assign { target, value, .. } => {
                    lemma_findings_in_are_anchored(u, *target);
                    lemma_findings_in_are_anchored(u, *value);
                    let l = findings_in(u, *target);
                    let r = findings_in(u, *value);
                    if j < l.len() {
                        let sub = choose|sub: Expr|
                            occurs_in(sub, *target) && mul_of_div_match(u, sub) && #[trigger] l[j]
                                == arith_finding(sub);
                        assert(occurs_in(sub, e) && fs[i] == arith_finding(sub));
                    } else {
                        let k = j - l.len();
                        let sub = choose|sub: Expr|
                            occurs_in(sub, *value) && mul_of_div_match(u, sub) && #[trigger] r[k]
                                == arith_finding(sub);
                        assert(occurs_in(sub, e) && fs[i] == arith_finding(sub));
                    }
                },
                _ => {
                    assert(false);
                },
            }
        }
    }
}

/// List form of `lemma_findings_in_are_anchored`.
pub proof fn lemma_findings_in_list_are_anchored(u: AnalyzedUnit, es: Seq<Expr>)
    ensures
        forall|i: int|
            0 <= i < findings_in_list(u, es).len() ==> exists|sub: Expr|
                occurs_in_list(sub, es) && mul_of_div_match(u, sub) && #[trigger] findings_in_list(
                    u,
                    es,
                )[i] == arith_finding(sub),
    decreases es,
{
    if es.len() > 0 {
        let fs = findings_in_list(u, es);
        let head = findings_in(u, es[0]);
        let tail = es.subrange(1, es.len() as int);
        lemma_findings_in_are_anchored(u, es[0]);
        lemma_findings_in_list_are_anchored(u, tail);
        assert forall|i: int| 0 <= i < fs.len() implies exists|sub: Expr|
            occurs_in_list(sub, es) && mul_of_div_match(u, sub) && #[trigger] fs[i]
                == arith_finding(sub) by {
            if i < head.len() {
                let sub = choose|sub: Expr|
                    occurs_in(sub, es[0]) && mul_of_div_match(u, sub) && #[trigger] head[i]
                        == arith_finding(sub);
                assert(occurs_in_list(sub, es) && fs[i] == arith_finding(sub));
            } else {
                let j = i - head.len();
                let rest = findings_in_list(u, tail);
                let sub = choose|sub: Expr|
                    occurs_in_list(sub, tail) && mul_of_div_match(u, sub) && #[trigger] rest[j]
                        == arith_finding(sub);
                assert(occurs_in_list(sub, es) && fs[i] == arith_finding(sub));
            }
        }
    }
}

/// A leaf expression — one with no children — is never reported and hides
/// nothing: walking it yields no findings.
pub proof fn lemma_leaf_has_no_findings(u: AnalyzedUnit, e: Expr)
    requires
        e.is_leaf(),
    ensures
        findings_in(u, e) == Seq::<Finding>::empty(),
{
    assert(findings_in(u, e) =~= Seq::<Finding>::empty());
}

/// For all integral operands `a`, `b`, `c`: an expression of the shape
/// `(a / b) * c` — where each of the two operations may be the binary
/// operator or the saturating call, in any combination, and the operands
/// are leaves — produces exactly one finding, an arithmetic-order finding
/// whose span covers the full expression, and which also surfaces that
/// span as the suggested rewrite.
pub proof fn lemma_mul_of_div_reported_once(u: AnalyzedUnit, e: Expr, l: Expr, a: Expr, b: Expr, c: Expr)
    requires
        method_or_op_spec(e, MethodName::SaturatingMul, BinOp::Mul) == Some((l, c)),
        method_or_op_spec(l, MethodName::SaturatingDiv, BinOp::Div) == Some((a, b)),
        a.is_leaf(),
        b.is_leaf(),
        c.is_leaf(),
        is_integral_expr(u, a),
        is_integral_expr(u, b),
        is_integral_expr(u, c),
    ensures
        findings_in(u, e) == seq![arith_finding(e)],
        findings_in(u, e).len() == 1,
        findings_in(u, e)[0].span == e.spec_span(),
        findings_in(u, e)[0].category == Category::ArithmeticOrder,
        findings_in(u, e)[0].rewrite_span == Some(e.spec_span()),
{
    assert(mul_of_div_match(u, e));
    lemma_leaf_has_no_findings(u, a);
    lemma_leaf_has_no_findings(u, b);
    lemma_leaf_has_no_findings(u, c);
    assert(node_findings(u, l) =~= Seq::<Finding>::empty());
    lemma_div_shape_findings(u, l, a, b);
    lemma_operand_findings(u, e, l, c);
    assert(findings_in(u, e) =~= seq![arith_finding(e)]);
}

/// For all non-integral operands `a`, `b`, `c` — floating-point or any
/// other non-integral kind — the same `(a / b) * c` shape produces zero
/// findings: reordering non-integral arithmetic is not unsafe in the same
/// way and is not flagged.
pub proof fn lemma_non_integral_not_reported(u: AnalyzedUnit, e: Expr, l: Expr, a: Expr, b: Expr, c: Expr)
    requires
        method_or_op_spec(e, MethodName::SaturatingMul, BinOp::Mul) == Some((l, c)),
        method_or_op_spec(l, MethodName::SaturatingDiv, BinOp::Div) == Some((a, b)),
        a.is_leaf(),
        b.is_leaf(),
        c.is_leaf(),
        !is_integral_expr(u, a),
        !is_integral_expr(u, b),
        !is_integral_expr(u, c),
    ensures
        findings_in(u, e) == Seq::<Finding>::empty(),
{
    assert(!mul_of_div_match(u, e));
    lemma_leaf_has_no_findings(u, a);
    lemma_leaf_has_no_findings(u, b);
    lemma_leaf_has_no_findings(u, c);
    assert(node_findings(u, l) =~= Seq::<Finding>::empty());
    lemma_div_shape_findings(u, l, a, b);
    lemma_operand_findings(u, e, l, c);
    assert(findings_in(u, e) =~= Seq::<Finding>::empty());
}

/// The nested shape `((a / b) * c) / d * e` with all-integral operands
/// produces exactly two findings, one per multiply-of-divide match — the
/// outer expression's and the inner one's, in pre-order — not one: each
/// node is evaluated independently as the walker visits it.
pub proof fn lemma_nested_matches_reported_each(
    u: AnalyzedUnit,
    top: Expr,
    m: Expr,
    inner: Expr,
    dd: Expr,
    a: Expr,
    b: Expr,
    c: Expr,
    d: Expr,
    e5: Expr,
)
    requires
        method_or_op_spec(top, MethodName::SaturatingMul, BinOp::Mul) == Some((m, e5)),
        method_or_op_spec(m, MethodName::SaturatingDiv, BinOp::Div) == Some((inner, d)),
        method_or_op_spec(inner, MethodName::SaturatingMul, BinOp::Mul) == Some((dd, c)),
        method_or_op_spec(dd, MethodName::SaturatingDiv, BinOp::Div) == Some((a, b)),
        a.is_leaf(),
        b.is_leaf(),
        c.is_leaf(),
        d.is_leaf(),
        e5.is_leaf(),
        is_integral_expr(u, a),
        is_integral_expr(u, b),
        is_integral_expr(u, c),
        is_integral_expr(u, d),
        is_integral_expr(u, e5),
        is_integral_expr(u, inner),
    ensures
        findings_in(u, top) == seq![arith_finding(top), arith_finding(inner)],
        findings_in(u, top).len() == 2,
{
    assert(mul_of_div_match(u, top));
    assert(mul_of_div_match(u, inner));
    lemma_leaf_has_no_findings(u, a);
    lemma_leaf_has_no_findings(u, b);
    lemma_leaf_has_no_findings(u, c);
    lemma_leaf_has_no_findings(u, d);
    lemma_leaf_has_no_findings(u, e5);
    lemma_div_shape_findings(u, dd, a, b);
    lemma_operand_findings(u, inner, dd, c);
    assert(findings_in(u, inner) =~= seq![arith_finding(inner)]);
    assert(node_findings(u, m) =~= Seq::<Finding>::empty());
    lemma_div_shape_findings_general(u, m, inner, d, seq![arith_finding(inner)]);
    lemma_operand_findings_general(u, top, m, e5, seq![arith_finding(inner)]);
    assert(findings_in(u, top) =~= seq![arith_finding(top), arith_finding(inner)]);
}

/// The walk of a node matched as `lhs op rhs` visits exactly the node
/// itself, then `lhs`, then `rhs`: its findings are the node's own
/// followed by those of the two operand subtrees.
proof fn lemma_operand_findings_general(
    u: AnalyzedUnit,
    e: Expr,
    l: Expr,
    r: Expr,
    sub: Seq<Finding>,
)
    requires
        method_or_op_spec(e, MethodName::SaturatingMul, BinOp::Mul) == Some((l, r))
            || method_or_op_spec(e, MethodName::SaturatingDiv, BinOp::Div) == Some((l, r)),
        findings_in(u, l) == sub,
        findings_in(u, r) == Seq::<Finding>::empty(),
    ensures
        findings_in(u, e) == node_findings(u, e) + sub,
{
    reveal_with_fuel(findings_in_list, 2);
    match e {
        Expr::Binary { lhs, rhs, .. } => {
            assert(*lhs == l && *rhs == r);
            assert(findings_in(u, e) =~= node_findings(u, e) + sub);
        },
        Expr::MethodCall { receiver, args, .. } => {
            assert(*receiver == l && args@.len() == 1 && args@[0] == r);
            assert(args@.subrange(1, 1) =~= Seq::<Expr>::empty());
            assert(findings_in_list(u, args@) =~= Seq::<Finding>::empty());
            assert(findings_in(u, e) =~= node_findings(u, e) + sub);
        },
        _ => {
            assert(false);
        },
    }
}

/// Special case of `lemma_operand_findings_general` for empty subtrees of
/// the left operand.
proof fn lemma_operand_findings(u: AnalyzedUnit, e: Expr, l: Expr, r: Expr)
    requires
        method_or_op_spec(e, MethodName::SaturatingMul, BinOp::Mul) == Some((l, r)),
        findings_in(u, r) == Seq::<Finding>::empty(),
    ensures
        findings_in(u, e) == node_findings(u, e) + findings_in(u, l),
{
    lemma_operand_findings_general(u, e, l, r, findings_in(u, l));
}

/// A node matched as a division never matches as a multiplication, so the
/// walk of a division node reports nothing of its own: its findings are
/// exactly the findings of its two operands.
proof fn lemma_div_shape_findings_general(u: AnalyzedUnit, l: Expr, a: Expr, b: Expr, sub: Seq<Finding>)
    requires
        method_or_op_spec(l, MethodName::SaturatingDiv, BinOp::Div) == Some((a, b)),
        findings_in(u, a) == sub,
        findings_in(u, b) == Seq::<Finding>::empty(),
    ensures
        findings_in(u, l) == sub,
{
    reveal_with_fuel(findings_in_list, 2);
    assert(method_or_op_spec(l, MethodName::SaturatingMul, BinOp::Mul) is None);
    assert(node_findings(u, l) =~= Seq::<Finding>::empty());
    match l {
        Expr::Binary { lhs, rhs, .. } => {
            assert(findings_in(u, l) =~= sub);
        },
        Expr::MethodCall { receiver, args, .. } => {
            assert(args@.subrange(1, 1) =~= Seq::<Expr>::empty());
            assert(findings_in_list(u, args@) =~= Seq::<Finding>::empty());
            assert(findings_in(u, l) =~= sub);
        },
        _ => {
            assert(false);
        },
    }
}

/// Special case of `lemma_div_shape_findings_general` with leaf operands.
proof fn lemma_div_shape_findings(u: AnalyzedUnit, l: Expr, a: Expr, b: Expr)
    requires
        method_or_op_spec(l, MethodName::SaturatingDiv, BinOp::Div) == Some((a, b)),
        findings_in(u, a) == Seq::<Finding>::empty(),
        findings_in(u, b) == Seq::<Finding>::empty(),
    ensures
        findings_in(u, l) == Seq::<Finding>::empty(),
{
    lemma_div_shape_findings_general(u, l, a, b, Seq::<Finding>::empty());
}

} // verus!
