use linting::analyze_unit;
use linting::report::{Category, Finding, Reporter};
use linting::samples::DivideBeforeMultiply;
use linting::tree::{BinOp, Expr, MethodName, Span, Symbol, TypeId};
use linting::types::{Ty, TypeTable};
use linting::unit::{AnalyzedUnit, FieldDecl, LintConfig, Method};

fn sp(lo: u32, hi: u32) -> Span {
    Span { lo, hi }
}

fn lit(ty: TypeId, lo: u32, hi: u32) -> Expr {
    Expr::Literal { span: sp(lo, hi), ty }
}

fn field(f: Symbol, ty: TypeId, lo: u32, hi: u32) -> Expr {
    Expr::FieldAccess { field: f, span: sp(lo, hi), ty }
}

fn divide_then_multiply(ty: TypeId, lo: u32) -> Expr {
    Expr::Binary {
        op: BinOp::Mul,
        lhs: Box::new(Expr::Binary {
            op: BinOp::Div,
            lhs: Box::new(lit(ty, lo, lo + 1)),
            rhs: Box::new(lit(ty, lo + 2, lo + 3)),
            span: sp(lo, lo + 3),
            ty,
        }),
        rhs: Box::new(lit(ty, lo + 4, lo + 5)),
        span: sp(lo, lo + 5),
        ty,
    }
}

fn insert_call(f: Symbol, lo: u32) -> Expr {
    Expr::MethodCall {
        name: MethodName::Insert,
        receiver: Box::new(field(f, 1, lo, lo + 2)),
        args: vec![lit(0, lo + 3, lo + 4), lit(0, lo + 5, lo + 6)],
        span: sp(lo, lo + 8),
        ty: 0,
    }
}

/// A unit that would trigger both analyses.
fn busy_unit(config: LintConfig) -> AnalyzedUnit {
    AnalyzedUnit {
        fields: vec![FieldDecl { name: 5, ty: 1, span: sp(100, 110) }],
        methods: vec![Method { body: vec![divide_then_multiply(0, 0), insert_call(5, 20)] }],
        types: TypeTable { entries: vec![Ty::Int, Ty::Mapping] },
        has_type_info: true,
        config,
    }
}

/// With both analyses enabled, arithmetic findings come first (traversal
/// order), then storage findings (declaration order).
#[test]
fn both_analyses_report_in_order() {
    let u = busy_unit(LintConfig { arithmetic_order: true, storage_lifecycle: true });
    let findings = analyze_unit(&u);
    assert_eq!(findings.len(), 2);
    assert_eq!(findings[0].category, Category::ArithmeticOrder);
    assert_eq!(findings[0].span, sp(0, 5));
    assert_eq!(findings[1].category, Category::StorageLifecycle);
    assert_eq!(findings[1].span, sp(100, 110));
}

/// Disabling the arithmetic analysis yields zero arithmetic findings for
/// the unit, whatever pattern matches are present; the other analysis is
/// unaffected.
#[test]
fn disabled_arithmetic_analysis_is_silent() {
    let u = busy_unit(LintConfig { arithmetic_order: false, storage_lifecycle: true });
    let findings = analyze_unit(&u);
    assert_eq!(findings.len(), 1);
    assert_eq!(findings[0].category, Category::StorageLifecycle);
}

/// Disabling the storage analysis yields zero storage findings for the
/// unit, whatever usage records its methods would produce.
#[test]
fn disabled_storage_analysis_is_silent() {
    let u = busy_unit(LintConfig { arithmetic_order: true, storage_lifecycle: false });
    let findings = analyze_unit(&u);
    assert_eq!(findings.len(), 1);
    assert_eq!(findings[0].category, Category::ArithmeticOrder);
}

/// Disabling both analyses yields zero findings and an untouched unit.
#[test]
fn disabled_engine_reports_nothing() {
    let u = busy_unit(LintConfig { arithmetic_order: false, storage_lifecycle: false });
    assert_eq!(analyze_unit(&u).len(), 0);
}

/// The reporter is an append-only sink: findings come back in the order
/// reported, none dropped, none reordered.
#[test]
fn reporter_keeps_findings_in_order() {
    let mut r = Reporter::new();
    assert_eq!(r.len(), 0);
    let first = Finding { span: sp(0, 5), category: Category::ArithmeticOrder, rewrite_span: Some(sp(0, 5)) };
    let second = Finding { span: sp(9, 12), category: Category::StorageLifecycle, rewrite_span: None };
    r.report(first);
    r.report(second);
    assert_eq!(r.len(), 2);
    let v = r.into_findings();
    assert_eq!(v, vec![first, second]);
}

/// The sample contract's methods return the documented values; its
/// divide-before-multiply expressions sum to 10 under truncation.
#[test]
fn sample_contract_evaluates_under_truncation() {
    let mut contract = DivideBeforeMultiply::new();
    assert_eq!(contract.return_1(), 1);
    assert_eq!(contract.return_2(), 2);
    assert_eq!(contract.test_lint(), 10);
}
