//! The type resolver.
//!
//! The host's type system hands the engine a table of semantic types; a
//! node's `TypeId` points into it.  Resolution strips reference layers and
//! follows type-alias indirection down to the underlying type kind.  The
//! host guarantees that alias chains are finite; the table records a chain
//! as links to strictly smaller indices, and a link that does not decrease
//! counts as unresolvable.  Every failure to resolve degrades to "no
//! information" (`None`), never to an error: an unresolvable node simply
//! does not count as integral or container-like, so it can suppress a
//! finding but never crash the analysis.

use vstd::prelude::*;

use crate::tree::TypeId;

verus! {

/// One entry of the unit's type table.
#[derive(Clone, Copy, Debug, PartialEq, Eq, Structural)]
pub enum Ty {
    /// An integral numeric type (whole numbers).
    Int,
    /// A floating-point or fixed-point numeric type.
    Float,
    /// An ordered growable sequence type.
    Sequence,
    /// A key-value mapping type.
    Mapping,
    /// A reference to another type.
    Ref(TypeId),
    /// A type alias for another type.
    Alias(TypeId),
    /// Any other type.
    Other,
}

/// The kind of a fully resolved type: what is left after every reference
/// and alias layer has been stripped.
#[derive(Clone, Copy, Debug, PartialEq, Eq, Structural)]
pub enum Kind {
    Int,
    Float,
    Sequence,
    Mapping,
    Other,
}

/// The underlying kind of table entry `id`: references and aliases are
/// followed as long as they point to strictly smaller indices; an
/// out-of-range index or a non-decreasing link resolves to `None`
/// (an unresolvable alias, treated as "no type information").
pub open spec fn resolve_kind_at(ts: Seq<Ty>, id: int) -> Option<Kind>
    decreases id,
{
    if id < 0 || id >= ts.len() {
        None
    } else {
        match ts[id] {
            Ty::Int => Some(Kind::Int),
            Ty::Float => Some(Kind::Float),
            Ty::Sequence => Some(Kind::Sequence),
            Ty::Mapping => Some(Kind::Mapping),
            Ty::Ref(t) => if (t as int) < id {
                resolve_kind_at(ts, t as int)
            } else {
                None
            },
            Ty::Alias(t) => if (t as int) < id {
                resolve_kind_at(ts, t as int)
            } else {
                None
            },
            Ty::Other => Some(Kind::Other),
        }
    }
}

/// True iff the kind is an integral numeric kind.
pub open spec fn kind_is_integral(k: Option<Kind>) -> bool {
    k == Some(Kind::Int)
}

/// True iff the kind is container-like: a growable sequence or a key-value
/// mapping.
pub open spec fn kind_is_container(k: Option<Kind>) -> bool {
    k == Some(Kind::Sequence) || k == Some(Kind::Mapping)
}

/// The semantic types of one analyzed unit, as the host's type system
/// reported them.
pub struct TypeTable {
    pub entries: Vec<Ty>,
}

impl TypeTable {
    /// Follows reference and alias layers from `id` down to the underlying
    /// type kind; `None` when the chain leaves the table or fails to
    /// decrease.
    pub fn resolve(&self, id: TypeId) -> (k: Option<Kind>)
        ensures
            k == resolve_kind_at(self.entries@, id as int),
    {
        let mut cur: TypeId = id;
        loop
            invariant
                resolve_kind_at(self.entries@, id as int) == resolve_kind_at(
                    self.entries@,
                    cur as int,
                ),
            decreases cur,
        {
            if cur >= self.entries.len() {
                return None;
            }
            match self.entries[cur] {
                Ty::Int => {
                    return Some(Kind::Int);
                },
                Ty::Float => {
                    return Some(Kind::Float);
                },
                Ty::Sequence => {
                    return Some(Kind::Sequence);
                },
                Ty::Mapping => {
                    return Some(Kind::Mapping);
                },
                Ty::Other => {
                    return Some(Kind::Other);
                },
                Ty::Ref(t) => {
                    if t < cur {
                        cur = t;
                    } else {
                        return None;
                    }
                },
                Ty::Alias(t) => {
                    if t < cur {
                        cur = t;
                    } else {
                        return None;
                    }
                },
            }
        }
    }

    /// True iff table entry `id` resolves to an integral numeric type.
    pub fn resolves_integral(&self, id: TypeId) -> (b: bool)
        ensures
            b == kind_is_integral(resolve_kind_at(self.entries@, id as int)),
    {
        match self.resolve(id) {
            Some(Kind::Int) => true,
            _ => false,
        }
    }

    /// True iff table entry `id` resolves to a container-like type.
    pub fn resolves_container(&self, id: TypeId) -> (b: bool)
        ensures
            b == kind_is_container(resolve_kind_at(self.entries@, id as int)),
    {
        match self.resolve(id) {
            Some(Kind::Sequence) => true,
            Some(Kind::Mapping) => true,
            _ => false,
        }
    }
}

/// Resolution looks through an alias layer: an entry that aliases a smaller
/// entry resolves to exactly what that entry resolves to.  In particular a
/// type declared through any number of alias layers keeps the kind — and
/// with it the container-likeness — of the type it ultimately names.
pub proof fn lemma_alias_is_transparent(ts: Seq<Ty>, i: int, j: TypeId)
    requires
        0 <= i < ts.len(),
        ts[i] == Ty::Alias(j) || ts[i] == Ty::Ref(j),
        (j as int) < i,
    ensures
        resolve_kind_at(ts, i) == resolve_kind_at(ts, j as int),
        kind_is_container(resolve_kind_at(ts, i)) == kind_is_container(
            resolve_kind_at(ts, j as int),
        ),
        kind_is_integral(resolve_kind_at(ts, i)) == kind_is_integral(
            resolve_kind_at(ts, j as int),
        ),
{
}

} // verus!
