//! The storage-lifecycle analysis: reports persistent storage fields that
//! are written to but never removed from.
//!
//! For each analyzed unit the analysis collects the unit's storage field
//! declarations, then scans every method body for calls and assignments
//! that target a known field, classifying each as insert-like (a
//! push/insert/append-style call, or any subscript write — conservatively,
//! since a subscript write cannot be told apart syntactically from an
//! extension), remove-like (a pop/remove/delete/clear-style call), or
//! other.  A field with at least one insert-like usage and no remove-like
//! usage anywhere in the unit is reported once, at its declaration site:
//! the defect is the field's type of life, not a single call.  Findings
//! are only emitted after the whole unit has been scanned; partially
//! collected usage records are never reported.

use vstd::prelude::*;

use crate::report::{Category, Finding};
use crate::tree::{Expr, Span, Symbol, TypeId};
use crate::types::{kind_is_container, resolve_kind_at};
use crate::unit::{AnalyzedUnit, FieldDecl, Method};

verus! {

/// How one call site or assignment affects a field's effective footprint.
#[derive(Clone, Copy, Debug, PartialEq, Eq, Structural)]
pub enum OpKind {
    /// The usage can only grow the footprint.
    Insert,
    /// The usage can shrink the footprint.
    Remove,
    /// A read, length query, or other access that counts toward neither.
    Other,
}

/// One classified access to a known storage field, derived per method body
/// during the scan; transient, it exists only for the duration of one
/// unit's analysis.
#[derive(Clone, Copy, Debug, PartialEq, Eq, Structural)]
pub struct UsageRecord {
    /// The accessed field's interned name.
    pub field: Symbol,
    /// How the access affects the field's footprint.
    pub kind: OpKind,
    /// The call site.
    pub call_site: Span,
}

/// One storage field declaration as the analysis records it: the field's
/// name and declared type, and whether that type — resolved through any
/// alias layers — is container-like (a growable sequence or a key-value
/// mapping).
#[derive(Clone, Copy, Debug, PartialEq, Eq, Structural)]
pub struct StorageDeclaration {
    pub field_name: Symbol,
    pub declared_type: TypeId,
    pub span: Span,
    pub is_container: bool,
}

/// Method names whose call grows the receiver's footprint.
pub open spec fn insert_like(n: crate::tree::MethodName) -> bool {
    n == crate::tree::MethodName::Push || n == crate::tree::MethodName::Insert || n
        == crate::tree::MethodName::Append
}

/// Method names whose call shrinks the receiver's footprint.
pub open spec fn remove_like(n: crate::tree::MethodName) -> bool {
    n == crate::tree::MethodName::Pop || n == crate::tree::MethodName::Remove || n
        == crate::tree::MethodName::Delete || n == crate::tree::MethodName::Clear
}

/// The storage field an access path targets, when it resolves directly to
/// one: a field access `self.f`.  Aliasing through returned handles is out
/// of scope and deliberately not followed.
pub open spec fn field_target(e: Expr) -> Option<Symbol> {
    match e {
        Expr::FieldAccess { field, .. } => Some(field),
        _ => None,
    }
}

/// What one node contributes to the usage scan: a method call on a known
/// field is classified by its callee's name; a subscript write
/// `self.f[i] = v` is conservatively insert-like (it cannot be
/// distinguished, syntactically, from extending); everything else targets
/// no field.
pub open spec fn classify_node(e: Expr) -> Option<UsageRecord> {
    match e {
        Expr::MethodCall { name, receiver, span, .. } => match field_target(*receiver) {
            Some(f) => if insert_like(name) {
                Some(UsageRecord { field: f, kind: OpKind::Insert, call_site: span })
            } else if remove_like(name) {
                Some(UsageRecord { field: f, kind: OpKind::Remove, call_site: span })
            } else {
                Some(UsageRecord { field: f, kind: OpKind::Other, call_site: span })
            },
            None => None,
        },
        Expr::Assign { target, span, .. } => match *target {
            Expr::Index { base, .. } => match field_target(*base) {
                Some(f) => Some(UsageRecord { field: f, kind: OpKind::Insert, call_site: span }),
                None => None,
            },
            _ => None,
        },
        _ => None,
    }
}

/// The usage records of a depth-first pre-order walk of one expression.
pub open spec fn usages_in(e: Expr) -> Seq<UsageRecord>
    decreases e,
{
    (match classify_node(e) {
        Some(r) => seq![r],
        None => Seq::empty(),
    }) + match e {
        Expr::Binary { lhs, rhs, .. } => usages_in(*lhs) + usages_in(*rhs),
        Expr::MethodCall { receiver, args, .. } => usages_in(*receiver) + usages_in_list(args@),
        Expr::Index { base, index, .. } => usages_in(*base) + usages_in(*index),
        Expr::Assign { target, value, .. } => usages_in(*target) + usages_in(*value),
        _ => Seq::empty(),
    }
}

/// The usage records of walking each expression of a list in order.
pub open spec fn usages_in_list(es: Seq<Expr>) -> Seq<UsageRecord>
    decreases es,
{
    if es.len() == 0 {
        Seq::empty()
    } else {
        usages_in(es[0]) + usages_in_list(es.subrange(1, es.len() as int))
    }
}

/// The usage records of scanning every method body of the unit, in method
/// order.
pub open spec fn usages_in_methods(ms: Seq<Method>) -> Seq<UsageRecord>
    decreases ms.len(),
{
    if ms.len() == 0 {
        Seq::empty()
    } else {
        usages_in_list(ms[0].body@) + usages_in_methods(ms.subrange(1, ms.len() as int))
    }
}

/// Every usage record of the whole unit.
pub open spec fn unit_usages(u: AnalyzedUnit) -> Seq<UsageRecord> {
    usages_in_methods(u.methods@)
}

/// True iff some access anywhere in the unit targets field `name` with
/// operation kind `kind`.
pub open spec fn has_usage(u: AnalyzedUnit, name: Symbol, kind: OpKind) -> bool {
    exists|i: int|
        0 <= i < unit_usages(u).len() && (#[trigger] unit_usages(u)[i]).field == name
            && unit_usages(u)[i].kind == kind
}

/// The analysis's verdict on one declared field: reported iff it has at
/// least one insert-like usage and zero remove-like usages anywhere in the
/// unit.  A field never mutated at all is not reported (no growth risk
/// demonstrated); one with any remove-like usage is not reported either.
/// The verdict reads only the field's name and the unit's usage records,
/// so a field declared through any number of type aliases participates in
/// exactly the same rules as a directly-typed field.
pub open spec fn reported_field(u: AnalyzedUnit, d: FieldDecl) -> bool {
    has_usage(u, d.name, OpKind::Insert) && !has_usage(u, d.name, OpKind::Remove)
}

/// The finding for one write-only field: located at the field's
/// declaration site, with no suggested rewrite.
pub open spec fn storage_finding(d: FieldDecl) -> Finding {
    Finding { span: d.span, category: Category::StorageLifecycle, rewrite_span: None }
}

/// The findings for a list of declarations, in declaration order: one per
/// reported field.
pub open spec fn findings_for_decls(u: AnalyzedUnit, ds: Seq<FieldDecl>) -> Seq<Finding>
    decreases ds.len(),
{
    if ds.len() == 0 {
        Seq::empty()
    } else {
        (if reported_field(u, ds[0]) {
            seq![storage_finding(ds[0])]
        } else {
            Seq::empty()
        }) + findings_for_decls(u, ds.subrange(1, ds.len() as int))
    }
}

/// Everything the storage-lifecycle analysis reports for the unit.
pub open spec fn storage_findings(u: AnalyzedUnit) -> Seq<Finding> {
    findings_for_decls(u, u.fields@)
}

/// Classifies one node, as `classify_node` describes.
pub fn classify(e: &Expr) -> (r: Option<UsageRecord>)
    ensures
        r == classify_node(*e),
{
    match e {
        Expr::MethodCall { name, receiver, span, .. } => {
            match &**receiver {
                Expr::FieldAccess { field, .. } => {
                    let kind = match name {
                        crate::tree::MethodName::Push => OpKind::Insert,
                        crate::tree::MethodName::Insert => OpKind::Insert,
                        crate::tree::MethodName::Append => OpKind::Insert,
                        crate::tree::MethodName::Pop => OpKind::Remove,
                        crate::tree::MethodName::Remove => OpKind::Remove,
                        crate::tree::MethodName::Delete => OpKind::Remove,
                        crate::tree::MethodName::Clear => OpKind::Remove,
                        _ => OpKind::Other,
                    };
                    Some(UsageRecord { field: *field, kind, call_site: *span })
                },
                _ => None,
            }
        },
        Expr::Assign { target, span, .. } => {
            match &**target {
                Expr::Index { base, .. } => {
                    match &**base {
                        Expr::FieldAccess { field, .. } => Some(
                            UsageRecord { field: *field, kind: OpKind::Insert, call_site: *span },
                        ),
                        _ => None,
                    }
                },
                _ => None,
            }
        },
        _ => None,
    }
}

/// One step of scanning a list of expressions.
pub proof fn lemma_usages_in_list_take_step(es: Seq<Expr>, i: int)
    requires
        0 <= i < es.len(),
    ensures
        usages_in_list(es.take(i + 1)) == usages_in_list(es.take(i)) + usages_in(es[i]),
    decreases i,
{
    reveal_with_fuel(usages_in_list, 2);
    let a = es.take(i + 1);
    let b = es.take(i);
    if i == 0 {
        assert(a.len() == 1 && a[0] == es[0]);
        assert(a.subrange(1, a.len() as int) =~= Seq::<Expr>::empty());
        assert(usages_in_list(a) =~= usages_in(es[0]));
        assert(usages_in_list(b) =~= Seq::<UsageRecord>::empty());
        assert(usages_in_list(a) =~= usages_in_list(b) + usages_in(es[0]));
    } else {
        let tail = es.subrange(1, es.len() as int);
        lemma_usages_in_list_take_step(tail, i - 1);
        assert(a.subrange(1, a.len() as int) =~= tail.take(i));
        assert(b.subrange(1, b.len() as int) =~= tail.take(i - 1));
        assert(a[0] == es[0] && b[0] == es[0]);
        assert(tail[i - 1] == es[i]);
        assert(usages_in_list(a) == usages_in(es[0]) + usages_in_list(tail.take(i)));
        assert(usages_in_list(b) == usages_in(es[0]) + usages_in_list(tail.take(i - 1)));
        assert(usages_in_list(a) =~= usages_in_list(b) + usages_in(es[i]));
    }
}

/// One step of scanning the unit's methods.
pub proof fn lemma_usages_in_methods_take_step(ms: Seq<Method>, i: int)
    requires
        0 <= i < ms.len(),
    ensures
        usages_in_methods(ms.take(i + 1)) == usages_in_methods(ms.take(i)) + usages_in_list(
            ms[i].body@,
        ),
    decreases i,
{
    reveal_with_fuel(usages_in_methods, 2);
    let a = ms.take(i + 1);
    let b = ms.take(i);
    if i == 0 {
        assert(a.len() == 1 && a[0] == ms[0]);
        assert(a.subrange(1, a.len() as int) =~= Seq::<Method>::empty());
        assert(usages_in_methods(a) =~= usages_in_list(ms[0].body@));
        assert(usages_in_methods(b) =~= Seq::<UsageRecord>::empty());
    } else {
        let tail = ms.subrange(1, ms.len() as int);
        lemma_usages_in_methods_take_step(tail, i - 1);
        assert(a.subrange(1, a.len() as int) =~= tail.take(i));
        assert(b.subrange(1, b.len() as int) =~= tail.take(i - 1));
        assert(a[0] == ms[0] && b[0] == ms[0]);
        assert(tail[i - 1] == ms[i]);
        assert(usages_in_methods(a) == usages_in_list(ms[0].body@) + usages_in_methods(
            tail.take(i),
        ));
        assert(usages_in_methods(b) == usages_in_list(ms[0].body@) + usages_in_methods(
            tail.take(i - 1),
        ));
        assert(usages_in_methods(a) =~= usages_in_methods(b) + usages_in_list(ms[i].body@));
    }
}

/// One step of folding the declarations into findings.
pub proof fn lemma_findings_for_decls_take_step(u: AnalyzedUnit, ds: Seq<FieldDecl>, i: int)
    requires
        0 <= i < ds.len(),
    ensures
        findings_for_decls(u, ds.take(i + 1)) == findings_for_decls(u, ds.take(i)) + (if
        reported_field(u, ds[i]) {
            seq![storage_finding(ds[i])]
        } else {
            Seq::<Finding>::empty()
        }),
    decreases i,
{
    reveal_with_fuel(findings_for_decls, 2);
    let a = ds.take(i + 1);
    let b = ds.take(i);
    let head = (if reported_field(u, ds[0]) {
        seq![storage_finding(ds[0])]
    } else {
        Seq::<Finding>::empty()
    });
    if i == 0 {
        assert(a.len() == 1 && a[0] == ds[0]);
        assert(a.subrange(1, a.len() as int) =~= Seq::<FieldDecl>::empty());
        assert(findings_for_decls(u, a) =~= head);
        assert(findings_for_decls(u, b) =~= Seq::<Finding>::empty());
        assert(findings_for_decls(u, a) =~= findings_for_decls(u, b) + head);
    } else {
        let tail = ds.subrange(1, ds.len() as int);
        lemma_findings_for_decls_take_step(u, tail, i - 1);
        assert(a.subrange(1, a.len() as int) =~= tail.take(i));
        assert(b.subrange(1, b.len() as int) =~= tail.take(i - 1));
        assert(a[0] == ds[0] && b[0] == ds[0]);
        assert(tail[i - 1] == ds[i]);
        assert(findings_for_decls(u, a) == head + findings_for_decls(u, tail.take(i)));
        assert(findings_for_decls(u, b) == head + findings_for_decls(u, tail.take(i - 1)));
        assert(findings_for_decls(u, a) =~= findings_for_decls(u, b) + (if reported_field(
            u,
            ds[i],
        ) {
            seq![storage_finding(ds[i])]
        } else {
            Seq::<Finding>::empty()
        }));
    }
}

/// Walks one expression depth-first in pre-order, appending every usage
/// record it finds.
pub fn collect_usages_in(e: &Expr, out: &mut Vec<UsageRecord>)
    ensures
        final(out)@ == old(out)@ + usages_in(*e),
    decreases *e,
{
    let ghost pre = out@;
    if let Some(r) = classify(e) {
        out.push(r);
    }
    match e {
        Expr::Binary { lhs, rhs, .. } => {
            collect_usages_in(&**lhs, out);
            collect_usages_in(&**rhs, out);
            proof {
                assert(out@ =~= pre + usages_in(*e));
            }
        },
        Expr::MethodCall { receiver, args, .. } => {
            collect_usages_in(&**receiver, out);
            let n = args.len();
            let mut i: usize = 0;
            #[verifier::loop_isolation(false)]
            while i < n
                invariant
                    n == args@.len(),
                    i <= n,
                    out@ == pre + (match classify_node(*e) {
                        Some(r) => seq![r],
                        None => Seq::<UsageRecord>::empty(),
                    }) + usages_in(**receiver) + usages_in_list(args@.take(i as int)),
                decreases n - i,
            {
                proof {
                    let ghost ee = *e;
                    assert(ee->MethodCall_args == *args);
                    assert(decreases_to!(ee => ee->MethodCall_args));
                    assert(decreases_to!(ee->MethodCall_args => ee->MethodCall_args@));
                    assert(decreases_to!(ee->MethodCall_args@ => ee->MethodCall_args@[i as int]));
                    assert(args@[i as int] == ee->MethodCall_args@[i as int]);
                }
                collect_usages_in(&args[i], out);
                proof {
                    lemma_usages_in_list_take_step(args@, i as int);
                }
                i = i + 1;
            }
            proof {
                assert(args@.take(n as int) =~= args@);
                assert(out@ =~= pre + usages_in(*e));
            }
        },
        Expr::Index { base, index, .. } => {
            collect_usages_in(&**base, out);
            collect_usages_in(&**index, out);
            proof {
                assert(out@ =~= pre + usages_in(*e));
            }
        },
        Expr::Assign { target, value, .. } => {
            collect_usages_in(&**target, out);
            collect_usages_in(&**value, out);
            proof {
                assert(out@ =~= pre + usages_in(*e));
            }
        },
        _ => {
            proof {
                assert(out@ =~= pre + usages_in(*e));
            }
        },
    }
}

/// True iff the collected records hold an access to field `name` of kind
/// `kind`.
fn scan_has_usage(usages: &Vec<UsageRecord>, name: Symbol, kind: OpKind) -> (b: bool)
    ensures
        b == exists|i: int|
            0 <= i < usages@.len() && (#[trigger] usages@[i]).field == name && usages@[i].kind
                == kind,
{
    let n = usages.len();
    let mut i: usize = 0;
    while i < n
        invariant
            n == usages@.len(),
            i <= n,
            forall|k: int|
                0 <= k < i ==> !((#[trigger] usages@[k]).field == name && usages@[k].kind == kind),
        decreases n - i,
    {
        let r = usages[i];
        if r.field == name && r.kind == kind {
            proof {
                assert(usages@[i as int].field == name && usages@[i as int].kind == kind);
            }
            return true;
        }
        i = i + 1;
    }
    false
}

/// Collects the unit's storage declarations: one record per declared
/// field, in declaration order, marking container-like declared types
/// (resolved through any alias layers).
pub fn collect_declarations(u: &AnalyzedUnit) -> (ds: Vec<StorageDeclaration>)
    ensures
        ds@.len() == u.fields@.len(),
        forall|i: int|
            0 <= i < ds@.len() ==> #[trigger] ds@[i] == (StorageDeclaration {
                field_name: u.fields@[i].name,
                declared_type: u.fields@[i].ty,
                span: u.fields@[i].span,
                is_container: kind_is_container(
                    resolve_kind_at(u.types.entries@, u.fields@[i].ty as int),
                ),
            }),
{
    let n = u.fields.len();
    let mut ds: Vec<StorageDeclaration> = Vec::new();
    let mut i: usize = 0;
    while i < n
        invariant
            n == u.fields@.len(),
            i <= n,
            ds@.len() == i,
            forall|k: int|
                0 <= k < i ==> #[trigger] ds@[k] == (StorageDeclaration {
                    field_name: u.fields@[k].name,
                    declared_type: u.fields@[k].ty,
                    span: u.fields@[k].span,
                    is_container: kind_is_container(
                        resolve_kind_at(u.types.entries@, u.fields@[k].ty as int),
                    ),
                }),
        decreases n - i,
    {
        let f = &u.fields[i];
        let is_container = u.types.resolves_container(f.ty);
        ds.push(
            StorageDeclaration {
                field_name: f.name,
                declared_type: f.ty,
                span: f.span,
                is_container,
            },
        );
        i = i + 1;
    }
    ds
}

/// Runs the whole storage-lifecycle analysis on one unit: scans every
/// method body for usage records, folds them into a per-field verdict,
/// and only then emits one finding per write-only field, at its
/// declaration, in declaration order.
pub fn analyze_storage(u: &AnalyzedUnit) -> (v: Vec<Finding>)
    ensures
        v@ == storage_findings(*u),
{
    let mut usages: Vec<UsageRecord> = Vec::new();
    let nm = u.methods.len();
    let mut i: usize = 0;
    while i < nm
        invariant
            nm == u.methods@.len(),
            i <= nm,
            usages@ == usages_in_methods(u.methods@.take(i as int)),
        decreases nm - i,
    {
        let body = &u.methods[i].body;
        let nb = body.len();
        let mut j: usize = 0;
        #[verifier::loop_isolation(false)]
        while j < nb
            invariant
                nb == body@.len(),
                j <= nb,
                usages@ == usages_in_methods(u.methods@.take(i as int)) + usages_in_list(
                    body@.take(j as int),
                ),
            decreases nb - j,
        {
            collect_usages_in(&body[j], &mut usages);
            proof {
                lemma_usages_in_list_take_step(body@, j as int);
            }
            j = j + 1;
        }
        proof {
            assert(body@.take(nb as int) =~= body@);
            lemma_usages_in_methods_take_step(u.methods@, i as int);
        }
        i = i + 1;
    }
    proof {
        assert(u.methods@.take(nm as int) =~= u.methods@);
        assert(usages@ == unit_usages(*u));
    }
    let nf = u.fields.len();
    let mut v: Vec<Finding> = Vec::new();
    let mut k: usize = 0;
    while k < nf
        invariant
            nf == u.fields@.len(),
            k <= nf,
            usages@ == unit_usages(*u),
            v@ == findings_for_decls(*u, u.fields@.take(k as int)),
        decreases nf - k,
    {
        let f = &u.fields[k];
        let has_insert = scan_has_usage(&usages, f.name, OpKind::Insert);
        let has_remove = scan_has_usage(&usages, f.name, OpKind::Remove);
        if has_insert && !has_remove {
            proof {
                assert(reported_field(*u, u.fields@[k as int]));
            }
            v.push(Finding { span: f.span, category: Category::StorageLifecycle, rewrite_span: None });
        } else {
            proof {
                assert(!reported_field(*u, u.fields@[k as int]));
            }
        }
        proof {
            lemma_findings_for_decls_take_step(*u, u.fields@, k as int);
            assert(v@ =~= findings_for_decls(*u, u.fields@.take(k as int + 1)));
        }
        k = k + 1;
    }
    proof {
        assert(u.fields@.take(nf as int) =~= u.fields@);
    }
    v
}

/// Every finding this analysis produces carries the storage-lifecycle
/// category.
pub proof fn lemma_findings_for_decls_category(u: AnalyzedUnit, ds: Seq<FieldDecl>)
    ensures
        forall|i: int|
            0 <= i < findings_for_decls(u, ds).len() ==> (#[trigger] findings_for_decls(u, ds)[
                i]).category == Category::StorageLifecycle,
    decreases ds.len(),
{
    if ds.len() > 0 {
        lemma_findings_for_decls_category(u, ds.subrange(1, ds.len() as int));
    }
}

/// Category form over the whole unit.
pub proof fn lemma_storage_findings_category(u: AnalyzedUnit)
    ensures
        forall|i: int|
            0 <= i < storage_findings(u).len() ==> (#[trigger] storage_findings(u)[i]).category
                == Category::StorageLifecycle,
{
    lemma_findings_for_decls_category(u, u.fields@);
}

/// The analysis never synthesizes a location: every finding it emits is
/// the finding of some declared field whose verdict was positive, so its
/// span is that field's declaration site.
pub proof fn lemma_storage_findings_are_anchored(u: AnalyzedUnit, ds: Seq<FieldDecl>)
    ensures
        forall|i: int|
            0 <= i < findings_for_decls(u, ds).len() ==> exists|k: int|
                0 <= k < ds.len() && reported_field(u, ds[k]) && #[trigger] findings_for_decls(
                    u,
                    ds,
                )[i] == storage_finding(ds[k]),
    decreases ds.len(),
{
    if ds.len() > 0 {
        let fs = findings_for_decls(u, ds);
        let tail = ds.subrange(1, ds.len() as int);
        let tailfs = findings_for_decls(u, tail);
        let head = (if reported_field(u, ds[0]) {
            seq![storage_finding(ds[0])]
        } else {
            Seq::<Finding>::empty()
        });
        lemma_storage_findings_are_anchored(u, tail);
        assert forall|i: int| 0 <= i < fs.len() implies exists|k: int|
            0 <= k < ds.len() && reported_field(u, ds[k]) && #[trigger] fs[i] == storage_finding(
                ds[k],
            ) by {
            if i < head.len() {
                assert(reported_field(u, ds[0]) && fs[i] == storage_finding(ds[0]));
            } else {
                let j = i - head.len();
                let k = choose|k: int|
                    0 <= k < tail.len() && reported_field(u, tail[k]) && #[trigger] tailfs[j]
                        == storage_finding(tail[k]);
                assert(ds[k + 1] == tail[k]);
                assert(0 <= k + 1 < ds.len() && reported_field(u, ds[k + 1]) && fs[i]
                    == storage_finding(ds[k + 1]));
            }
        }
    }
}

/// How many findings of a list sit at span `s`.
pub open spec fn span_count(fs: Seq<Finding>, s: Span) -> nat
    decreases fs.len(),
{
    if fs.len() == 0 {
        0
    } else {
        (if fs[0].span == s {
            1nat
        } else {
            0nat
        }) + span_count(fs.subrange(1, fs.len() as int), s)
    }
}

/// With distinct declaration sites, the analysis emits exactly one finding
/// at span `s` when some declaration at `s` is reported, and none
/// otherwise.
proof fn lemma_span_count_for_decls(u: AnalyzedUnit, ds: Seq<FieldDecl>, s: Span)
    requires
        forall|i: int, j: int|
            0 <= i < j < ds.len() ==> (#[trigger] ds[i]).span != (#[trigger] ds[j]).span,
    ensures
        span_count(findings_for_decls(u, ds), s) == (if exists|i: int|
            0 <= i < ds.len() && (#[trigger] ds[i]).span == s && reported_field(u, ds[i]) {
            1nat
        } else {
            0nat
        }),
    decreases ds.len(),
{
    reveal_with_fuel(span_count, 2);
    if ds.len() == 0 {
    } else {
        let tail = ds.subrange(1, ds.len() as int);
        lemma_span_count_for_decls(u, tail, s);
        let fs = findings_for_decls(u, ds);
        let tailfs = findings_for_decls(u, tail);
        if reported_field(u, ds[0]) {
            assert(fs =~= seq![storage_finding(ds[0])] + tailfs);
            assert(fs.subrange(1, fs.len() as int) =~= tailfs);
            assert(span_count(fs, s) == (if ds[0].span == s {
                1nat
            } else {
                0nat
            }) + span_count(tailfs, s));
        } else {
            assert(fs =~= tailfs);
        }
        if ds[0].span == s {
            assert(forall|i: int|
                0 <= i < tail.len() ==> (#[trigger] tail[i]).span != s) by {
                assert(forall|i: int|
                    0 <= i < tail.len() ==> tail[i] == ds[i + 1] && ds[0].span != (
                    #[trigger] tail[i]).span);
            }
            assert(!(exists|i: int|
                0 <= i < tail.len() && (#[trigger] tail[i]).span == s && reported_field(
                    u,
                    tail[i],
                )));
            if reported_field(u, ds[0]) {
                assert(0 <= 0 < ds.len() && ds[0].span == s && reported_field(u, ds[0]));
                assert(span_count(fs, s) == 1nat);
            } else {
                assert(forall|i: int|
                    0 <= i < ds.len() && (#[trigger] ds[i]).span == s ==> i == 0);
                assert(span_count(fs, s) == 0nat);
            }
        } else {
            if exists|i: int|
                0 <= i < tail.len() && (#[trigger] tail[i]).span == s && reported_field(
                    u,
                    tail[i],
                ) {
                let wi = choose|i: int|
                    0 <= i < tail.len() && (#[trigger] tail[i]).span == s && reported_field(
                        u,
                        tail[i],
                    );
                assert(ds[wi + 1] == tail[wi]);
                assert(0 <= wi + 1 < ds.len() && ds[wi + 1].span == s && reported_field(
                    u,
                    ds[wi + 1],
                ));
            } else {
                assert(forall|i: int|
                    1 <= i < ds.len() ==> tail[i - 1] == #[trigger] ds[i]);
            }
        }
    }
}

/// A storage field mutated only via insert-like operations — across any
/// number of methods — and never via a remove-like operation is reported
/// exactly once, at its declaration site, as a storage-lifecycle finding.
pub proof fn lemma_write_only_field_reported_once(u: AnalyzedUnit, i: int)
    requires
        u.wf(),
        0 <= i < u.fields@.len(),
        has_usage(u, u.fields@[i].name, OpKind::Insert),
        !has_usage(u, u.fields@[i].name, OpKind::Remove),
    ensures
        span_count(storage_findings(u), u.fields@[i].span) == 1,
        storage_findings(u).contains(storage_finding(u.fields@[i])),
{
    assert(reported_field(u, u.fields@[i]));
    assert(forall|a: int, b: int|
        0 <= a < b < u.fields@.len() ==> (#[trigger] u.fields@[a]).span != (
        #[trigger] u.fields@[b]).span) by {
        assert(forall|a: int, b: int|
            0 <= a < b < u.fields@.len() ==> u.fields@[a].name != u.fields@[b].name
                && u.fields@[a].span != u.fields@[b].span);
    }
    lemma_span_count_for_decls(u, u.fields@, u.fields@[i].span);
    lemma_reported_decl_in_findings(u, u.fields@, i);
}

/// A reported declaration's finding is among the emitted findings.
proof fn lemma_reported_decl_in_findings(u: AnalyzedUnit, ds: Seq<FieldDecl>, i: int)
    requires
        0 <= i < ds.len(),
        reported_field(u, ds[i]),
    ensures
        findings_for_decls(u, ds).contains(storage_finding(ds[i])),
    decreases i,
{
    let fs = findings_for_decls(u, ds);
    let tail = ds.subrange(1, ds.len() as int);
    let tailfs = findings_for_decls(u, tail);
    if i == 0 {
        assert(fs[0] == storage_finding(ds[0]));
        assert(fs.contains(storage_finding(ds[0])));
    } else {
        assert(tail[i - 1] == ds[i]);
        lemma_reported_decl_in_findings(u, tail, i - 1);
        let wi = choose|k: int| 0 <= k < tailfs.len() && tailfs[k] == storage_finding(ds[i]);
        let head = (if reported_field(u, ds[0]) {
            seq![storage_finding(ds[0])]
        } else {
            Seq::<Finding>::empty()
        });
        assert(fs == head + tailfs);
        assert(fs[head.len() + wi] == storage_finding(ds[i]));
        assert(fs.contains(storage_finding(ds[i])));
    }
}

/// A storage field with both an insert-like and a remove-like usage — in
/// any methods, in any order — is not reported.
pub proof fn lemma_freed_field_not_reported(u: AnalyzedUnit, i: int)
    requires
        u.wf(),
        0 <= i < u.fields@.len(),
        has_usage(u, u.fields@[i].name, OpKind::Insert),
        has_usage(u, u.fields@[i].name, OpKind::Remove),
    ensures
        span_count(storage_findings(u), u.fields@[i].span) == 0,
{
    lemma_unreported_field_silent(u, i);
}

/// A storage field that is never mutated at all — no insert-like and no
/// remove-like usage anywhere in the unit — is not reported.
pub proof fn lemma_untouched_field_not_reported(u: AnalyzedUnit, i: int)
    requires
        u.wf(),
        0 <= i < u.fields@.len(),
        !has_usage(u, u.fields@[i].name, OpKind::Insert),
        !has_usage(u, u.fields@[i].name, OpKind::Remove),
    ensures
        span_count(storage_findings(u), u.fields@[i].span) == 0,
{
    lemma_unreported_field_silent(u, i);
}

/// Common form: a declaration whose verdict is negative yields no finding
/// at its declaration site.
proof fn lemma_unreported_field_silent(u: AnalyzedUnit, i: int)
    requires
        u.wf(),
        0 <= i < u.fields@.len(),
        !reported_field(u, u.fields@[i]),
    ensures
        span_count(storage_findings(u), u.fields@[i].span) == 0,
{
    assert(forall|a: int, b: int|
        0 <= a < b < u.fields@.len() ==> (#[trigger] u.fields@[a]).span != (
        #[trigger] u.fields@[b]).span) by {
        assert(forall|a: int, b: int|
            0 <= a < b < u.fields@.len() ==> u.fields@[a].name != u.fields@[b].name
                && u.fields@[a].span != u.fields@[b].span);
    }
    lemma_span_count_for_decls(u, u.fields@, u.fields@[i].span);
    assert(!(exists|k: int|
        0 <= k < u.fields@.len() && (#[trigger] u.fields@[k]).span == u.fields@[i].span
            && reported_field(u, u.fields@[k]))) by {
        assert(forall|k: int|
            0 <= k < u.fields@.len() && (#[trigger] u.fields@[k]).span == u.fields@[i].span
                ==> k == i);
    }
}

/// The verdict on a field does not read the field's declared type: two
/// declarations of the same name and site are reported alike, whatever
/// types — aliased or not — they were declared with.  Together with the
/// resolver's alias transparency this is what makes a field declared
/// through alias layers participate in exactly the same rules as a
/// directly-typed one.
pub proof fn lemma_verdict_ignores_declared_type(u: AnalyzedUnit, d1: FieldDecl, d2: FieldDecl)
    requires
        d1.name == d2.name,
    ensures
        reported_field(u, d1) == reported_field(u, d2),
{
}

} // verus!
