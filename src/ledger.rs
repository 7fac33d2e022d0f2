use vstd::prelude::*;

verus! {

/// One invocation of a program function inside a transaction, as the ledger
/// records it.
#[derive(Clone, Debug)]
pub struct Transition {
    pub id: String,
    pub program: String,
    pub function: String,
}

pub struct TransitionView {
    pub id: Seq<char>,
    pub program: Seq<char>,
    pub function: Seq<char>,
}

impl View for Transition {
    type V = TransitionView;

    open spec fn view(&self) -> TransitionView {
        TransitionView { id: self.id@, program: self.program@, function: self.function@ }
    }
}

/// A transaction of a finalized block: its id and its transitions in ledger
/// order.
#[derive(Clone, Debug)]
pub struct Transaction {
    pub id: String,
    pub transitions: Vec<Transition>,
}

pub struct TransactionView {
    pub id: Seq<char>,
    pub transitions: Seq<TransitionView>,
}

impl View for Transaction {
    type V = TransactionView;

    open spec fn view(&self) -> TransactionView {
        TransactionView {
            id: self.id@,
            transitions: self.transitions@.map_values(|t: Transition| t@),
        }
    }
}

/// The views of the transactions of one block, in ledger order.
pub open spec fn block_view(txs: Seq<Transaction>) -> Seq<TransactionView> {
    txs.map_values(|t: Transaction| t@)
}

} // verus!
