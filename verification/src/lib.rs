//! A static-analysis engine for smart-contract-style code.
//!
//! The engine inspects a typed expression/declaration tree (produced by a
//! host compiler) and flags two classes of defects:
//!
//! * arithmetic expressions that perform integer division before
//!   multiplication, risking precision loss to zero
//!   (the [`divide_before_multiply`] analysis), and
//! * persistent storage fields that are written to but never removed from,
//!   risking unbounded storage growth
//!   (the [`storage_never_freed`] analysis).
//!
//! The host hands one analyzed unit (its storage field declarations, its
//! method bodies, and a type table) to [`analyze_unit`], which returns the
//! findings of both analyses in traversal order.

use vstd::prelude::*;

pub mod divide_before_multiply;
pub mod report;
pub mod samples;
pub mod storage_never_freed;
pub mod tree;
pub mod types;
pub mod unit;

use crate::divide_before_multiply as arith;
use crate::report::{Category, Finding, Reporter};
use crate::storage_never_freed as storage;
use crate::tree::Expr;
use crate::unit::{AnalyzedUnit, Method};

verus! {

/// The arithmetic-order findings of every method body of the unit, in method
/// order, each body walked in pre-order.
pub open spec fn arith_findings_in_methods(u: AnalyzedUnit, ms: Seq<Method>) -> Seq<Finding>
    decreases ms.len(),
{
    if ms.len() == 0 {
        Seq::empty()
    } else {
        arith::findings_in_list(u, ms[0].body@)
            + arith_findings_in_methods(u, ms.subrange(1, ms.len() as int))
    }
}

/// Everything the engine reports for one analyzed unit: the arithmetic-order
/// findings of every method body (in traversal order), followed by the
/// storage-lifecycle findings (in field declaration order).  A disabled
/// analysis contributes nothing.
pub open spec fn unit_findings(u: AnalyzedUnit) -> Seq<Finding> {
    (if u.config.arithmetic_order {
        arith_findings_in_methods(u, u.methods@)
    } else {
        Seq::empty()
    }) + (if u.config.storage_lifecycle {
        storage::storage_findings(u)
    } else {
        Seq::empty()
    })
}

proof fn lemma_arith_methods_take_step(u: AnalyzedUnit, ms: Seq<Method>, i: int)
    requires
        0 <= i < ms.len(),
    ensures
        arith_findings_in_methods(u, ms.take(i + 1)) == arith_findings_in_methods(u, ms.take(i))
            + arith::findings_in_list(u, ms[i].body@),
    decreases i,
{
    reveal_with_fuel(arith_findings_in_methods, 2);
    let a = ms.take(i + 1);
    let b = ms.take(i);
    if i == 0 {
        assert(a.len() == 1 && a[0] == ms[0]);
        assert(a.subrange(1, a.len() as int) =~= Seq::<Method>::empty());
        assert(arith_findings_in_methods(u, a) =~= arith::findings_in_list(u, ms[0].body@));
        assert(arith_findings_in_methods(u, b) =~= Seq::<Finding>::empty());
    } else {
        lemma_arith_methods_take_step(u, ms.subrange(1, ms.len() as int), i - 1);
        let tail = ms.subrange(1, ms.len() as int);
        assert(a.subrange(1, a.len() as int) =~= tail.take(i));
        assert(b.subrange(1, b.len() as int) =~= tail.take(i - 1));
        assert(a[0] == ms[0] && b[0] == ms[0]);
        assert(tail[i - 1] == ms[i]);
        assert(arith_findings_in_methods(u, a) == arith::findings_in_list(u, ms[0].body@)
            + arith_findings_in_methods(u, tail.take(i)));
        assert(arith_findings_in_methods(u, b) == arith::findings_in_list(u, ms[0].body@)
            + arith_findings_in_methods(u, tail.take(i - 1)));
        assert(arith_findings_in_methods(u, a) =~= arith_findings_in_methods(u, b)
            + arith::findings_in_list(u, ms[i].body@));
    }
}

/// Runs every enabled analysis over one analyzed unit and returns the
/// accumulated findings: the arithmetic-order findings of each method body in
/// pre-order traversal order, then one storage-lifecycle finding per
/// write-only field, at its declaration.  A disabled analysis is skipped
/// entirely and contributes no findings.
pub fn analyze_unit(u: &AnalyzedUnit) -> (v: Vec<Finding>)
    ensures
        v@ == unit_findings(*u),
{
    let mut reporter = Reporter::new();
    if u.config.arithmetic_order {
        let n = u.methods.len();
        let mut i: usize = 0;
        while i < n
            invariant
                n == u.methods@.len(),
                i <= n,
                reporter@ == arith_findings_in_methods(*u, u.methods@.take(i as int)),
            decreases n - i,
        {
            arith::walk_method(u, &u.methods[i], &mut reporter);
            proof {
                lemma_arith_methods_take_step(*u, u.methods@, i as int);
            }
            i = i + 1;
        }
        proof {
            assert(u.methods@.take(n as int) =~= u.methods@);
        }
    }
    let mut v = reporter.into_findings();
    if u.config.storage_lifecycle {
        let mut tail = storage::analyze_storage(u);
        v.append(&mut tail);
    }
    proof {
        if !u.config.arithmetic_order {
            assert(unit_findings(*u) =~= (if u.config.storage_lifecycle {
                storage::storage_findings(*u)
            } else {
                Seq::<Finding>::empty()
            }));
        }
        assert(v@ =~= unit_findings(*u));
    }
    v
}

/// Every finding of the unit carries the category of the analysis that
/// produced it; hence, when an analysis is disabled for a unit, the engine
/// emits no finding of that analysis's category for the unit, whatever
/// patterns its tree holds.
pub proof fn lemma_disabled_analysis_is_silent(u: AnalyzedUnit)
    ensures
        !u.config.arithmetic_order ==> forall|i: int|
            0 <= i < unit_findings(u).len() ==> (#[trigger] unit_findings(u)[i]).category
                != Category::ArithmeticOrder,
        !u.config.storage_lifecycle ==> forall|i: int|
            0 <= i < unit_findings(u).len() ==> (#[trigger] unit_findings(u)[i]).category
                != Category::StorageLifecycle,
{
    lemma_arith_methods_category(u, u.methods@);
    storage::lemma_storage_findings_category(u);
}

/// True iff `f` is the finding of a multiply-of-divide match that occurs
/// in one of the method bodies `ms` — so `f`'s span is the matched
/// expression's own span.
pub open spec fn anchored_in_methods(u: AnalyzedUnit, ms: Seq<Method>, f: Finding) -> bool {
    exists|m: int, sub: Expr|
        0 <= m < ms.len() && #[trigger] arith::occurs_in_list(sub, ms[m].body@)
            && arith::mul_of_div_match(u, sub) && f == arith::arith_finding(sub)
}

/// True iff `f` is the finding of one of the unit's declared storage
/// fields with a positive write-only verdict — so `f`'s span is that
/// field's declaration site.
pub open spec fn anchored_at_decl(u: AnalyzedUnit, f: Finding) -> bool {
    exists|k: int|
        0 <= k < u.fields@.len() && storage::reported_field(u, #[trigger] u.fields@[k]) && f
            == storage::storage_finding(u.fields@[k])
}

/// The engine never synthesizes a location: every finding of a unit is
/// either the finding of a multiply-of-divide match occurring in one of
/// the unit's method bodies — its span the matched expression's own — or
/// the finding of a declared write-only storage field, at its declaration
/// site.
pub proof fn lemma_unit_findings_are_anchored(u: AnalyzedUnit)
    ensures
        forall|i: int|
            0 <= i < unit_findings(u).len() ==> anchored_in_methods(
                u,
                u.methods@,
                #[trigger] unit_findings(u)[i],
            ) || anchored_at_decl(u, unit_findings(u)[i]),
{
    let fs = unit_findings(u);
    let a = (if u.config.arithmetic_order {
        arith_findings_in_methods(u, u.methods@)
    } else {
        Seq::<Finding>::empty()
    });
    lemma_arith_methods_anchored(u, u.methods@);
    storage::lemma_storage_findings_are_anchored(u, u.fields@);
    assert forall|i: int| 0 <= i < fs.len() implies anchored_in_methods(
        u,
        u.methods@,
        #[trigger] fs[i],
    ) || anchored_at_decl(u, fs[i]) by {
        if i < a.len() {
            assert(fs[i] == arith_findings_in_methods(u, u.methods@)[i]);
        } else {
            let j = i - a.len();
            let ds = u.fields@;
            let k = choose|k: int|
                0 <= k < ds.len() && storage::reported_field(u, ds[k])
                    && #[trigger] storage::findings_for_decls(u, ds)[j] == storage::storage_finding(
                    ds[k],
                );
            assert(fs[i] == storage::findings_for_decls(u, ds)[j]);
            assert(storage::reported_field(u, u.fields@[k]));
            assert(anchored_at_decl(u, fs[i]));
        }
    }
}

/// Every finding of the arithmetic walk over a unit's methods is anchored
/// at a match occurring in one of those methods.
proof fn lemma_arith_methods_anchored(u: AnalyzedUnit, ms: Seq<Method>)
    ensures
        forall|i: int|
            0 <= i < arith_findings_in_methods(u, ms).len() ==> anchored_in_methods(
                u,
                ms,
                #[trigger] arith_findings_in_methods(u, ms)[i],
            ),
    decreases ms.len(),
{
    if ms.len() == 0 {
        assert(arith_findings_in_methods(u, ms).len() == 0);
    } else {
        let fs = arith_findings_in_methods(u, ms);
        let head = arith::findings_in_list(u, ms[0].body@);
        let tail = ms.subrange(1, ms.len() as int);
        let tailfs = arith_findings_in_methods(u, tail);
        arith::lemma_findings_in_list_are_anchored(u, ms[0].body@);
        lemma_arith_methods_anchored(u, tail);
        assert forall|i: int| 0 <= i < fs.len() implies anchored_in_methods(
            u,
            ms,
            #[trigger] fs[i],
        ) by {
            if i < head.len() {
                let sub = choose|sub: Expr|
                    arith::occurs_in_list(sub, ms[0].body@) && arith::mul_of_div_match(u, sub)
                        && #[trigger] head[i] == arith::arith_finding(sub);
                assert(fs[i] == head[i]);
                assert(arith::occurs_in_list(sub, ms[0].body@));
                assert(anchored_in_methods(u, ms, fs[i]));
            } else {
                let j = i - head.len();
                assert(fs[i] == tailfs[j]);
                assert(anchored_in_methods(u, tail, tailfs[j]));
                let (m, sub) = choose|m: int, sub: Expr|
                    0 <= m < tail.len() && #[trigger] arith::occurs_in_list(sub, tail[m].body@)
                        && arith::mul_of_div_match(u, sub) && tailfs[j] == arith::arith_finding(
                        sub,
                    );
                assert(ms[m + 1] == tail[m]);
                assert(arith::occurs_in_list(sub, ms[m + 1].body@));
                assert(anchored_in_methods(u, ms, fs[i]));
            }
        }
    }
}

/// The arithmetic walk over a unit's methods only ever reports
/// arithmetic-order findings.
pub proof fn lemma_arith_methods_category(u: AnalyzedUnit, ms: Seq<Method>)
    ensures
        forall|i: int|
            0 <= i < arith_findings_in_methods(u, ms).len() ==> (
            #[trigger] arith_findings_in_methods(u, ms)[i]).category == Category::ArithmeticOrder,
    decreases ms.len(),
{
    if ms.len() > 0 {
        arith::lemma_findings_in_list_category(u, ms[0].body@);
        lemma_arith_methods_category(u, ms.subrange(1, ms.len() as int));
    }
}

} // verus!

