//! What all positions share and none of them changes: attack tables, hash
//! keys and, where one is loaded, the evaluation network.
use vstd::prelude::*;
use crate::bitboard::AttackTables;
use crate::nnue::inference::NnueEvaluator;
use crate::zobrist::ZobristTable;

verus! {

pub struct Context {
    pub attacks: AttackTables,
    pub zobrist: ZobristTable,
    pub nnue: Option<NnueEvaluator>,
}

impl Context {
    /// The network, if there is one, has the right shape.
    pub open spec fn wf(self) -> bool {
        self.nnue matches Some(ev) ==> ev.wf()
    }

    /// The tables, with the network that evaluation should use.
    pub fn new(nnue: Option<NnueEvaluator>) -> (r: Self)
        requires
            nnue matches Some(ev) ==> ev.wf(),
        ensures
            r.wf(),
            r.nnue == nnue,
    {
        Context { attacks: AttackTables::new(), zobrist: ZobristTable::new(), nnue }
    }
}

} // verus!
