//! Findings and the reporter that accumulates them.
//!
//! A finding is immutable once created and always points inside the span of
//! the expression or declaration that triggered it: the reporter never
//! synthesizes a location.  Rendering findings — turning spans back into
//! source text — is the host's job; the engine hands it spans, a fixed
//! per-category message, and, for arithmetic findings, the span whose
//! source text is the suggested rewrite.

use vstd::prelude::*;

use crate::tree::Span;

verus! {

/// Which analysis produced a finding.
#[derive(Clone, Copy, Debug, PartialEq, Eq, Structural)]
pub enum Category {
    /// Division performed before multiplication.
    ArithmeticOrder,
    /// A storage field written to but never removed from.
    StorageLifecycle,
}

/// One reported defect instance.  Both analyses report at the fixed
/// "warning" severity, so the finding does not carry a severity of its own.
#[derive(Clone, Copy, Debug, PartialEq, Eq)]
pub struct Finding {
    /// Where the defect is: the full matched expression for arithmetic
    /// findings, the field declaration for storage findings.
    pub span: Span,
    /// Which analysis produced the finding.
    pub category: Category,
    /// The span whose source text is the suggested rewrite, when the
    /// analysis suggests one.  The arithmetic analysis surfaces the matched
    /// expression's own text — the fix is a reordering the developer (or an
    /// editor tool acting on the exact span) applies.
    pub rewrite_span: Option<Span>,
}

impl Finding {
    /// The human-readable message of this finding, fixed per category.
    pub fn message(&self) -> (m: &'static str)
        ensures
            self.category == Category::ArithmeticOrder ==> m@
                == "division performed before multiplication"@,
            self.category == Category::StorageLifecycle ==> m@
                == "storage field is written to but never freed"@,
    {
        match self.category {
            Category::ArithmeticOrder => "division performed before multiplication",
            Category::StorageLifecycle => "storage field is written to but never freed",
        }
    }
}

/// An append-only sink of findings.  Its view is the sequence reported so
/// far, in the order reported; the engine appends in traversal order and
/// never reorders or drops a committed finding.
pub struct Reporter {
    findings: Vec<Finding>,
}

impl Reporter {
    /// The findings reported so far, oldest first.
    pub closed spec fn view(self) -> Seq<Finding> {
        self.findings@
    }

    /// An empty reporter.
    pub fn new() -> (r: Reporter)
        ensures
            r@ == Seq::<Finding>::empty(),
    {
        Reporter { findings: Vec::new() }
    }

    /// Appends one finding; everything already reported stays as it was.
    pub fn report(&mut self, f: Finding)
        ensures
            final(self)@ == old(self)@.push(f),
    {
        self.findings.push(f);
    }

    /// The number of findings reported so far.
    pub fn len(&self) -> (n: usize)
        ensures
            n == self@.len(),
    {
        self.findings.len()
    }

    /// Hands the accumulated findings to the host, in reported order.
    pub fn into_findings(self) -> (v: Vec<Finding>)
        ensures
            v@ == self@,
    {
        self.findings
    }
}

} // verus!
