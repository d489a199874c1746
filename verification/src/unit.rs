//! One analyzed unit: the smallest independently analyzed compilation
//! scope (one contract module), as the host hands it to the engine.

use vstd::prelude::*;

use crate::tree::{Expr, Span, Symbol, TypeId};
use crate::types::TypeTable;

verus! {

/// One persistent storage field declaration of the unit.
pub struct FieldDecl {
    /// The field's interned name; declarations are correlated with call
    /// sites by this name.
    pub name: Symbol,
    /// The field's declared type, before alias resolution.
    pub ty: TypeId,
    /// The declaration site; storage findings point here.
    pub span: Span,
}

/// One method body of the unit: a sequence of expression statements.
pub struct Method {
    pub body: Vec<Expr>,
}

/// Which analyses the host has enabled for this unit.  A lint may be turned
/// off per unit via an external directive; a disabled analysis is skipped
/// entirely for the unit.
#[derive(Clone, Copy, Debug, PartialEq, Eq, Structural)]
pub struct LintConfig {
    pub arithmetic_order: bool,
    pub storage_lifecycle: bool,
}

/// The typed declaration/expression tree of one analyzed unit, plus the
/// host's type information for it.
pub struct AnalyzedUnit {
    /// Every persistent storage field the unit declares.
    pub fields: Vec<FieldDecl>,
    /// Every method body belonging to the unit.
    pub methods: Vec<Method>,
    /// The unit's type table.
    pub types: TypeTable,
    /// Whether the host has type information for this unit at all.  When it
    /// does not, no node of the unit counts as integral (the analyses fail
    /// closed rather than guess).
    pub has_type_info: bool,
    /// Which analyses run on this unit.
    pub config: LintConfig,
}

impl AnalyzedUnit {
    /// Well-formedness of the declaration list: the host declares each
    /// field once, so names are distinct, and distinct declarations sit at
    /// distinct source sites.
    pub open spec fn wf(self) -> bool {
        forall|i: int, j: int|
            0 <= i < j < self.fields@.len() ==> #[trigger] self.fields@[i].name
                != #[trigger] self.fields@[j].name && self.fields@[i].span != self.fields@[j].span
    }
}

} // verus!
