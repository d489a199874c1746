use linting::analyze_unit;
use linting::report::Category;
use linting::storage_never_freed::collect_declarations;
use linting::tree::{Expr, MethodName, Span, Symbol, TypeId};
use linting::types::{Ty, TypeTable};
use linting::unit::{AnalyzedUnit, FieldDecl, LintConfig, Method};

fn sp(lo: u32, hi: u32) -> Span {
    Span { lo, hi }
}

fn ident(sym: Symbol, ty: TypeId, lo: u32, hi: u32) -> Expr {
    Expr::Identifier { sym, span: sp(lo, hi), ty }
}

fn field(f: Symbol, ty: TypeId, lo: u32, hi: u32) -> Expr {
    Expr::FieldAccess { field: f, span: sp(lo, hi), ty }
}

fn call(name: MethodName, receiver: Expr, args: Vec<Expr>, ty: TypeId, lo: u32, hi: u32) -> Expr {
    Expr::MethodCall { name, receiver: Box::new(receiver), args, span: sp(lo, hi), ty }
}

fn subscript_write(f: Symbol, lo: u32, hi: u32) -> Expr {
    let target = Expr::Index {
        base: Box::new(field(f, 1, lo, lo + 2)),
        index: Box::new(Expr::Literal { span: sp(lo + 3, lo + 4), ty: 0 }),
        span: sp(lo, lo + 5),
        ty: 0,
    };
    Expr::Assign {
        target: Box::new(target),
        value: Box::new(ident(99, 0, lo + 8, hi)),
        span: sp(lo, hi),
        ty: 0,
    }
}

// Type table used throughout: 0 = an integral key/value type,
// 1 = a sequence, 2 = a mapping, 3 = alias of the mapping, 4 = alias of
// the alias.
fn table() -> TypeTable {
    TypeTable { entries: vec![Ty::Int, Ty::Sequence, Ty::Mapping, Ty::Alias(2), Ty::Alias(3)] }
}

fn unit_of(fields: Vec<FieldDecl>, methods: Vec<Method>) -> AnalyzedUnit {
    AnalyzedUnit {
        fields,
        methods,
        types: table(),
        has_type_info: true,
        config: LintConfig { arithmetic_order: true, storage_lifecycle: true },
    }
}

const COUNTER: Symbol = 7;

fn counter_decl() -> FieldDecl {
    FieldDecl { name: COUNTER, ty: 2, span: sp(100, 120) }
}

fn insert_on(f: Symbol, lo: u32) -> Expr {
    call(
        MethodName::Insert,
        field(f, 2, lo, lo + 2),
        vec![ident(50, 0, lo + 3, lo + 4), ident(51, 0, lo + 5, lo + 6)],
        0,
        lo,
        lo + 8,
    )
}

fn remove_on(f: Symbol, lo: u32) -> Expr {
    call(MethodName::Remove, field(f, 2, lo, lo + 2), vec![ident(50, 0, lo + 3, lo + 4)], 0, lo, lo + 6)
}

fn get_on(f: Symbol, lo: u32) -> Expr {
    call(MethodName::Get, field(f, 2, lo, lo + 2), vec![ident(50, 0, lo + 3, lo + 4)], 0, lo, lo + 6)
}

/// The end-to-end scenario: a mapping field with an insert in one method
/// and only a read in another — exactly one storage-lifecycle finding,
/// located at the declaration.
#[test]
fn insert_without_remove_is_reported_at_declaration() {
    let u = unit_of(
        vec![counter_decl()],
        vec![
            Method { body: vec![insert_on(COUNTER, 0)] },
            Method { body: vec![get_on(COUNTER, 20)] },
        ],
    );
    let findings = analyze_unit(&u);
    assert_eq!(findings.len(), 1);
    assert_eq!(findings[0].category, Category::StorageLifecycle);
    assert_eq!(findings[0].span, sp(100, 120));
    assert_eq!(findings[0].rewrite_span, None);
    assert_eq!(findings[0].message(), "storage field is written to but never freed");
}

/// Inserts spread across any number of methods still yield exactly one
/// finding for the field.
#[test]
fn many_inserts_across_methods_yield_one_finding() {
    let u = unit_of(
        vec![counter_decl()],
        vec![
            Method { body: vec![insert_on(COUNTER, 0)] },
            Method { body: vec![insert_on(COUNTER, 20), insert_on(COUNTER, 40)] },
            Method { body: vec![insert_on(COUNTER, 60)] },
        ],
    );
    let findings = analyze_unit(&u);
    assert_eq!(findings.len(), 1);
    assert_eq!(findings[0].span, sp(100, 120));
}

/// A field with both an insert-like and a remove-like usage — in any
/// methods, in any order — produces zero findings.
#[test]
fn insert_and_remove_is_not_reported() {
    let u = unit_of(
        vec![counter_decl()],
        vec![
            Method { body: vec![remove_on(COUNTER, 0)] },
            Method { body: vec![insert_on(COUNTER, 20)] },
        ],
    );
    assert_eq!(analyze_unit(&u).len(), 0);
}

/// A field that is declared but never mutated produces zero findings.
#[test]
fn untouched_field_is_not_reported() {
    let u = unit_of(
        vec![counter_decl()],
        vec![Method { body: vec![get_on(COUNTER, 0)] }],
    );
    assert_eq!(analyze_unit(&u).len(), 0);
}

/// A subscript write on a sequence field counts as insert-like.
#[test]
fn subscript_write_counts_as_insert() {
    let decl = FieldDecl { name: 9, ty: 1, span: sp(200, 230) };
    let u = unit_of(vec![decl], vec![Method { body: vec![subscript_write(9, 0, 12)] }]);
    let findings = analyze_unit(&u);
    assert_eq!(findings.len(), 1);
    assert_eq!(findings[0].span, sp(200, 230));
}

/// A clear-style call counts as remove-like.
#[test]
fn clear_counts_as_remove() {
    let clear = call(MethodName::Clear, field(COUNTER, 2, 20, 22), vec![], 0, 20, 26);
    let u = unit_of(
        vec![counter_decl()],
        vec![Method { body: vec![insert_on(COUNTER, 0), clear] }],
    );
    assert_eq!(analyze_unit(&u).len(), 0);
}

/// A field declared through two layers of type alias to a mapping type is
/// still recognized as container-like and participates in the same rules:
/// write-only use is reported exactly as for a directly-typed field.
#[test]
fn aliased_mapping_field_participates_alike() {
    let direct = FieldDecl { name: 11, ty: 2, span: sp(300, 310) };
    let aliased = FieldDecl { name: 12, ty: 4, span: sp(320, 330) };
    let u = unit_of(
        vec![direct, aliased],
        vec![Method { body: vec![insert_on(11, 0), insert_on(12, 20)] }],
    );
    let decls = collect_declarations(&u);
    assert_eq!(decls.len(), 2);
    assert!(decls[0].is_container);
    assert!(decls[1].is_container);
    let findings = analyze_unit(&u);
    assert_eq!(findings.len(), 2);
    assert_eq!(findings[0].span, sp(300, 310));
    assert_eq!(findings[1].span, sp(320, 330));
}

/// The typed tree of the sample write-only contract: four fields — a
/// vector that is pushed to, a vector written by subscript, a mapping
/// inserted into, and an alias-typed mapping inserted into — and no
/// remove anywhere: four findings, one per declaration, in declaration
/// order.
#[test]
fn write_only_contract_reports_every_field() {
    let vec_field = FieldDecl { name: 1, ty: 1, span: sp(400, 410) };
    let vec_sub = FieldDecl { name: 2, ty: 1, span: sp(420, 430) };
    let map_field = FieldDecl { name: 3, ty: 2, span: sp(440, 450) };
    let map_alias = FieldDecl { name: 4, ty: 4, span: sp(460, 470) };
    let push = call(
        MethodName::Push,
        field(1, 1, 0, 2),
        vec![ident(50, 0, 3, 4)],
        0,
        0,
        6,
    );
    let body = vec![push, insert_on(3, 10), subscript_write(2, 20, 32), insert_on(4, 40)];
    let u = unit_of(
        vec![vec_field, vec_sub, map_field, map_alias],
        vec![Method { body: Vec::new() }, Method { body }],
    );
    let findings = analyze_unit(&u);
    assert_eq!(findings.len(), 4);
    assert_eq!(findings[0].span, sp(400, 410));
    assert_eq!(findings[1].span, sp(420, 430));
    assert_eq!(findings[2].span, sp(440, 450));
    assert_eq!(findings[3].span, sp(460, 470));
    for f in &findings {
        assert_eq!(f.category, Category::StorageLifecycle);
    }
}

/// A read or an unknown method call on a field counts toward neither
/// verdict.
#[test]
fn other_accesses_do_not_classify() {
    let unknown = call(MethodName::Other, field(COUNTER, 2, 0, 2), vec![], 0, 0, 6);
    let u = unit_of(vec![counter_decl()], vec![Method { body: vec![unknown] }]);
    assert_eq!(analyze_unit(&u).len(), 0);
}

/// Overwriting a whole field is neither insert-like nor remove-like: it
/// replaces the footprint rather than growing or shrinking it.
#[test]
fn whole_field_assignment_does_not_classify() {
    let assign = Expr::Assign {
        target: Box::new(field(COUNTER, 2, 0, 2)),
        value: Box::new(ident(50, 0, 5, 6)),
        span: sp(0, 6),
        ty: 0,
    };
    let u = unit_of(vec![counter_decl()], vec![Method { body: vec![assign] }]);
    assert_eq!(analyze_unit(&u).len(), 0);
}

/// An insert on a name that no declaration carries yields no finding:
/// findings come only from the unit's declared fields.
#[test]
fn usage_of_undeclared_field_is_harmless() {
    let u = unit_of(vec![counter_decl()], vec![Method { body: vec![insert_on(42, 0)] }]);
    assert_eq!(analyze_unit(&u).len(), 0);
}
