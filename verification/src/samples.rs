//! A miniature contract exercised by the arithmetic-order analysis.
//!
//! `DivideBeforeMultiply` is the executable side of a sample analyzed
//! unit: its `test_lint` method evaluates, on concrete integral values,
//! exactly the divide-before-multiply expressions that the analysis
//! flags — constants, locals, method-call operands, and operands typed
//! through type aliases.  The tests rebuild the typed tree of this method
//! and hold the engine's findings against it.

use vstd::prelude::*;

verus! {

/// An alias of an integral type.
pub type TyAlias1 = u32;

/// A second alias layer over `TyAlias1`.
pub type TyAlias2 = TyAlias1;

pub const CONST_1: u32 = 1;

pub const CONST_2: u32 = 2;

pub const CONST_3: u32 = 3;

/// The sample contract: no storage, three methods.
pub struct DivideBeforeMultiply {}

impl DivideBeforeMultiply {
    pub fn new() -> (r: Self)
        ensures
            r == (DivideBeforeMultiply {  }),
    {
        DivideBeforeMultiply {  }
    }

    pub fn return_1(&self) -> (r: u32)
        ensures
            r == 1,
    {
        1
    }

    pub fn return_2(&self) -> (r: u32)
        ensures
            r == 2,
    {
        2
    }

    /// Evaluates every divide-before-multiply shape the analysis flags.
    /// Each one divides first, so each can truncate: the sum of all of
    /// them comes out as 10, where multiplying first would have given 19.
    pub fn test_lint(&mut self) -> (sum: u32)
        ensures
            sum == 10,
    {
        // Constants
        let t1: u32 = CONST_1 / CONST_2 * CONST_3;
        // Variables
        let a: u32 = 1;
        let b: u32 = 2;
        let t2: u32 = a / b * (4 + 4);
        let t3: u32 = a / b * CONST_3;
        let t4: u32 = a / b * a;
        // Function calls
        let t5: u32 = self.return_1() / self.return_2() * self.return_1();
        let t6: u32 = a / self.return_2() * 2;
        let t7: u32 = self.return_1() / CONST_1 * b;
        // Type aliases
        let c: TyAlias2 = 4;
        let t8: u32 = c / b * 4;
        let t9: u32 = a / c * CONST_3;
        let t10: u32 = a / b * c;
        t1 + t2 + t3 + t4 + t5 + t6 + t7 + t8 + t9 + t10
    }
}

} // verus!
