use vstd::prelude::*;

verus! {

/// One of the six unordered pairs of 3x3 quadrants that a move may exchange.
/// `TL`, `TR`, `BL` and `BR` name the top-left, top-right, bottom-left and
/// bottom-right quadrant.
#[allow(non_camel_case_types)]
#[derive(Debug, PartialEq, Eq, Structural, Clone, Copy)]
pub enum Swap {
    TL_TR,
    BL_BR,
    TL_BL,
    TR_BR,
    TL_BR,
    TR_BL,
}

/// All six swaps, in the fixed order move enumeration uses.
pub open spec fn all_swaps() -> Seq<Swap> {
    seq![Swap::TL_TR, Swap::BL_BR, Swap::TL_BL, Swap::TR_BR, Swap::TL_BR, Swap::TR_BL]
}

impl Swap {
    /// Returns the six swaps in their fixed enumeration order.
    pub fn iterator() -> (r: Vec<Swap>)
        ensures
            r@ == all_swaps(),
    {
        let r: Vec<Swap> = vec![
            Swap::TL_TR,
            Swap::BL_BR,
            Swap::TL_BL,
            Swap::TR_BR,
            Swap::TL_BR,
            Swap::TR_BL,
        ];
        proof {
            assert(r@ =~= all_swaps());
        }
        r
    }
}

} // verus!
