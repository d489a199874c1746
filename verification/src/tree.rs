//! The typed expression tree that the engine analyzes.
//!
//! The host compiler owns the real tree; what the analyses read of it —
//! node kinds, operator kinds, interned method and field names, source
//! spans, and a type annotation per node — is carried here as plain values.

use vstd::prelude::*;

verus! {

/// A region of the original source text, as byte offsets.  Findings point
/// into the span of the expression or declaration that triggered them.
#[derive(Clone, Copy, Debug, PartialEq, Eq, Structural)]
pub struct Span {
    pub lo: u32,
    pub hi: u32,
}

/// The binary operators the tree distinguishes.
#[derive(Clone, Copy, Debug, PartialEq, Eq, Structural)]
pub enum BinOp {
    Add,
    Sub,
    Mul,
    Div,
    Rem,
}

/// Interned method names.  The engine's patterns name a closed set of
/// methods; every other callee is `Other`.
#[derive(Clone, Copy, Debug, PartialEq, Eq, Structural)]
pub enum MethodName {
    /// Saturating multiplication: the call form of `*`.
    SaturatingMul,
    /// Saturating division: the call form of `/`.
    SaturatingDiv,
    /// Appends one element to a sequence.
    Push,
    /// Adds or overwrites one entry of a mapping.
    Insert,
    /// Appends many elements to a sequence.
    Append,
    /// Removes the last element of a sequence.
    Pop,
    /// Removes one entry of a mapping.
    Remove,
    /// Removes one element of a sequence.
    Delete,
    /// Removes every element.
    Clear,
    /// Reads one entry.
    Get,
    /// Any method the patterns do not name.
    Other,
}

/// An index into the analyzed unit's type table (`TypeTable`).
pub type TypeId = usize;

/// An interned identifier, as the host's interner numbered it.
pub type Symbol = u32;

/// One node of the typed expression tree.  Every node carries its source
/// span and the `TypeId` of its resolved-but-not-peeled type.
pub enum Expr {
    /// `lhs op rhs`.
    Binary { op: BinOp, lhs: Box<Expr>, rhs: Box<Expr>, span: Span, ty: TypeId },
    /// `receiver.name(args...)`.
    MethodCall { name: MethodName, receiver: Box<Expr>, args: Vec<Expr>, span: Span, ty: TypeId },
    /// A literal value.
    Literal { span: Span, ty: TypeId },
    /// A local variable or path.
    Identifier { sym: Symbol, span: Span, ty: TypeId },
    /// An access to a persistent storage field of the analyzed unit,
    /// `self.field`.
    FieldAccess { field: Symbol, span: Span, ty: TypeId },
    /// `base[index]`.
    Index { base: Box<Expr>, index: Box<Expr>, span: Span, ty: TypeId },
    /// `target = value`.
    Assign { target: Box<Expr>, value: Box<Expr>, span: Span, ty: TypeId },
}

impl Expr {
    /// The source span of this node.
    pub open spec fn spec_span(self) -> Span {
        match self {
            Expr::Binary { span, .. } => span,
            Expr::MethodCall { span, .. } => span,
            Expr::Literal { span, .. } => span,
            Expr::Identifier { span, .. } => span,
            Expr::FieldAccess { span, .. } => span,
            Expr::Index { span, .. } => span,
            Expr::Assign { span, .. } => span,
        }
    }

    /// The type annotation of this node.
    pub open spec fn spec_ty(self) -> TypeId {
        match self {
            Expr::Binary { ty, .. } => ty,
            Expr::MethodCall { ty, .. } => ty,
            Expr::Literal { ty, .. } => ty,
            Expr::Identifier { ty, .. } => ty,
            Expr::FieldAccess { ty, .. } => ty,
            Expr::Index { ty, .. } => ty,
            Expr::Assign { ty, .. } => ty,
        }
    }

    /// A leaf node: one with no child expressions.
    pub open spec fn is_leaf(self) -> bool {
        self is Literal || self is Identifier || self is FieldAccess
    }

    /// The source span of this node.
    pub fn span(&self) -> (s: Span)
        ensures
            s == self.spec_span(),
    {
        match self {
            Expr::Binary { span, .. } => *span,
            Expr::MethodCall { span, .. } => *span,
            Expr::Literal { span, .. } => *span,
            Expr::Identifier { span, .. } => *span,
            Expr::FieldAccess { span, .. } => *span,
            Expr::Index { span, .. } => *span,
            Expr::Assign { span, .. } => *span,
        }
    }

    /// The type annotation of this node.
    pub fn ty(&self) -> (t: TypeId)
        ensures
            t == self.spec_ty(),
    {
        match self {
            Expr::Binary { ty, .. } => *ty,
            Expr::MethodCall { ty, .. } => *ty,
            Expr::Literal { ty, .. } => *ty,
            Expr::Identifier { ty, .. } => *ty,
            Expr::FieldAccess { ty, .. } => *ty,
            Expr::Index { ty, .. } => *ty,
            Expr::Assign { ty, .. } => *ty,
        }
    }
}

} // verus!
