use linting::analyze_unit;
use linting::report::Category;
use linting::tree::{BinOp, Expr, MethodName, Span, TypeId};
use linting::types::{Ty, TypeTable};
use linting::unit::{AnalyzedUnit, LintConfig, Method};

fn sp(lo: u32, hi: u32) -> Span {
    Span { lo, hi }
}

fn lit(ty: TypeId, lo: u32, hi: u32) -> Expr {
    Expr::Literal { span: sp(lo, hi), ty }
}

fn bin(op: BinOp, lhs: Expr, rhs: Expr, ty: TypeId, lo: u32, hi: u32) -> Expr {
    Expr::Binary { op, lhs: Box::new(lhs), rhs: Box::new(rhs), span: sp(lo, hi), ty }
}

fn call(name: MethodName, receiver: Expr, args: Vec<Expr>, ty: TypeId, lo: u32, hi: u32) -> Expr {
    Expr::MethodCall { name, receiver: Box::new(receiver), args, span: sp(lo, hi), ty }
}

fn unit_with(types: Vec<Ty>, body: Vec<Expr>) -> AnalyzedUnit {
    AnalyzedUnit {
        fields: Vec::new(),
        methods: vec![Method { body }],
        types: TypeTable { entries: types },
        has_type_info: true,
        config: LintConfig { arithmetic_order: true, storage_lifecycle: true },
    }
}

/// `a / b * c` in operator form, all operands integral: exactly one
/// finding, spanning the full expression.
#[test]
fn operator_form_is_reported_once() {
    let e = bin(
        BinOp::Mul,
        bin(BinOp::Div, lit(0, 8, 9), lit(0, 12, 13), 0, 8, 13),
        lit(0, 16, 17),
        0,
        8,
        17,
    );
    let u = unit_with(vec![Ty::Int], vec![e]);
    let findings = analyze_unit(&u);
    assert_eq!(findings.len(), 1);
    assert_eq!(findings[0].category, Category::ArithmeticOrder);
    assert_eq!(findings[0].span, sp(8, 17));
    assert_eq!(findings[0].rewrite_span, Some(sp(8, 17)));
    assert_eq!(findings[0].message(), "division performed before multiplication");
}

/// The saturating-call form of the same shape is reported the same way.
#[test]
fn call_form_is_reported_once() {
    let e = call(
        MethodName::SaturatingMul,
        call(MethodName::SaturatingDiv, lit(0, 0, 1), vec![lit(0, 2, 3)], 0, 0, 3),
        vec![lit(0, 4, 5)],
        0,
        0,
        5,
    );
    let u = unit_with(vec![Ty::Int], vec![e]);
    let findings = analyze_unit(&u);
    assert_eq!(findings.len(), 1);
    assert_eq!(findings[0].span, sp(0, 5));
}

/// Operator and call forms mix freely: a binary multiply of a
/// saturating-divide call, and a saturating-multiply call of a binary
/// divide, are both reported.
#[test]
fn mixed_forms_are_reported() {
    let mul_of_call = bin(
        BinOp::Mul,
        call(MethodName::SaturatingDiv, lit(0, 0, 1), vec![lit(0, 2, 3)], 0, 0, 3),
        lit(0, 4, 5),
        0,
        0,
        5,
    );
    let u = unit_with(vec![Ty::Int], vec![mul_of_call]);
    assert_eq!(analyze_unit(&u).len(), 1);

    let call_of_mul = call(
        MethodName::SaturatingMul,
        bin(BinOp::Div, lit(0, 0, 1), lit(0, 2, 3), 0, 0, 3),
        vec![lit(0, 4, 5)],
        0,
        0,
        5,
    );
    let u2 = unit_with(vec![Ty::Int], vec![call_of_mul]);
    assert_eq!(analyze_unit(&u2).len(), 1);
}

/// Non-integral operands: the same shape produces zero findings.
#[test]
fn float_operands_are_not_reported() {
    let e = bin(
        BinOp::Mul,
        bin(BinOp::Div, lit(0, 0, 1), lit(0, 2, 3), 0, 0, 3),
        lit(0, 4, 5),
        0,
        0,
        5,
    );
    let u = unit_with(vec![Ty::Float], vec![e]);
    assert_eq!(analyze_unit(&u).len(), 0);
}

/// The nested shape `((a / b) * c) / d * e` produces exactly two
/// findings, in pre-order: the outer match first, then the inner one.
#[test]
fn nested_shape_produces_two_findings() {
    let inner = bin(
        BinOp::Mul,
        bin(BinOp::Div, lit(0, 1, 2), lit(0, 3, 4), 0, 1, 4),
        lit(0, 6, 7),
        0,
        1,
        7,
    );
    let top = bin(
        BinOp::Mul,
        bin(BinOp::Div, inner, lit(0, 10, 11), 0, 1, 11),
        lit(0, 14, 15),
        0,
        1,
        15,
    );
    let u = unit_with(vec![Ty::Int], vec![top]);
    let findings = analyze_unit(&u);
    assert_eq!(findings.len(), 2);
    assert_eq!(findings[0].span, sp(1, 15));
    assert_eq!(findings[1].span, sp(1, 7));
}

/// With no type information for the unit, nothing counts as integral and
/// nothing is reported.
#[test]
fn missing_type_info_suppresses_findings() {
    let e = bin(
        BinOp::Mul,
        bin(BinOp::Div, lit(0, 0, 1), lit(0, 2, 3), 0, 0, 3),
        lit(0, 4, 5),
        0,
        0,
        5,
    );
    let mut u = unit_with(vec![Ty::Int], vec![e]);
    u.has_type_info = false;
    assert_eq!(analyze_unit(&u).len(), 0);
}

/// A multiply-named call with the wrong arity is simply a non-match.
#[test]
fn wrong_arity_call_is_not_a_match() {
    let divide = bin(BinOp::Div, lit(0, 0, 1), lit(0, 2, 3), 0, 0, 3);
    let no_args = call(MethodName::SaturatingMul, divide, vec![], 0, 0, 5);
    let u = unit_with(vec![Ty::Int], vec![no_args]);
    assert_eq!(analyze_unit(&u).len(), 0);

    let divide2 = bin(BinOp::Div, lit(0, 0, 1), lit(0, 2, 3), 0, 0, 3);
    let two_args = call(
        MethodName::SaturatingMul,
        divide2,
        vec![lit(0, 4, 5), lit(0, 6, 7)],
        0,
        0,
        7,
    );
    let u2 = unit_with(vec![Ty::Int], vec![two_args]);
    assert_eq!(analyze_unit(&u2).len(), 0);
}

/// Operands typed through two alias layers to an integral type are still
/// integral.
#[test]
fn alias_of_integral_is_integral() {
    let types = vec![Ty::Int, Ty::Alias(0), Ty::Alias(1)];
    let e = bin(
        BinOp::Mul,
        bin(BinOp::Div, lit(2, 0, 1), lit(2, 2, 3), 2, 0, 3),
        lit(2, 4, 5),
        2,
        0,
        5,
    );
    let u = unit_with(types, vec![e]);
    assert_eq!(analyze_unit(&u).len(), 1);
}

/// An alias chain that does not resolve (a link that fails to decrease)
/// degrades to "not integral": no finding, no error.
#[test]
fn unresolvable_alias_suppresses_findings() {
    let types = vec![Ty::Int, Ty::Alias(1)];
    let e = bin(
        BinOp::Mul,
        bin(BinOp::Div, lit(1, 0, 1), lit(1, 2, 3), 1, 0, 3),
        lit(1, 4, 5),
        1,
        0,
        5,
    );
    let u = unit_with(types, vec![e]);
    assert_eq!(analyze_unit(&u).len(), 0);
}

/// Reference layers are peeled before the integral test.
#[test]
fn reference_layers_are_peeled() {
    let types = vec![Ty::Int, Ty::Ref(0), Ty::Ref(1)];
    let e = bin(
        BinOp::Mul,
        bin(BinOp::Div, lit(2, 0, 1), lit(1, 2, 3), 1, 0, 3),
        lit(0, 4, 5),
        0,
        0,
        5,
    );
    let u = unit_with(types, vec![e]);
    assert_eq!(analyze_unit(&u).len(), 1);
}

/// Findings follow the traversal: one match in each of two methods comes
/// out in method order, and a match nested inside a call argument is
/// found too.
#[test]
fn findings_follow_traversal_order() {
    let first = bin(
        BinOp::Mul,
        bin(BinOp::Div, lit(0, 0, 1), lit(0, 2, 3), 0, 0, 3),
        lit(0, 4, 5),
        0,
        0,
        5,
    );
    let in_arg = bin(
        BinOp::Mul,
        bin(BinOp::Div, lit(0, 10, 11), lit(0, 12, 13), 0, 10, 13),
        lit(0, 14, 15),
        0,
        10,
        15,
    );
    let second = call(MethodName::Other, lit(0, 8, 9), vec![in_arg], 0, 8, 16);
    let u = AnalyzedUnit {
        fields: Vec::new(),
        methods: vec![Method { body: vec![first] }, Method { body: vec![second] }],
        types: TypeTable { entries: vec![Ty::Int] },
        has_type_info: true,
        config: LintConfig { arithmetic_order: true, storage_lifecycle: true },
    };
    let findings = analyze_unit(&u);
    assert_eq!(findings.len(), 2);
    assert_eq!(findings[0].span, sp(0, 5));
    assert_eq!(findings[1].span, sp(10, 15));
}

/// The typed tree of the sample contract's `test_lint` method: ten
/// divide-before-multiply expressions, each reported exactly once.
#[test]
fn sample_contract_tree_yields_ten_findings() {
    let mut body = Vec::new();
    let mut spans = Vec::new();
    for k in 0..10u32 {
        let lo = 20 * k;
        let e = bin(
            BinOp::Mul,
            bin(BinOp::Div, lit(0, lo, lo + 1), lit(0, lo + 4, lo + 5), 0, lo, lo + 5),
            lit(0, lo + 8, lo + 9),
            0,
            lo,
            lo + 9,
        );
        spans.push(sp(lo, lo + 9));
        body.push(e);
    }
    let u = unit_with(vec![Ty::Int], body);
    let findings = analyze_unit(&u);
    assert_eq!(findings.len(), 10);
    for (f, s) in findings.iter().zip(spans.iter()) {
        assert_eq!(f.category, Category::ArithmeticOrder);
        assert_eq!(f.span, *s);
    }
}
