//! The records of the ledger and their mathematical views.

use vstd::prelude::*;

verus! {

/// A transfer of `amount` units from `sender` to `recipient`.
#[derive(Debug, PartialEq, Eq)]
pub struct Transaction {
    pub sender: String,
    pub recipient: String,
    pub amount: i64,
}

/// What a [`Transaction`] holds, as plain mathematical values.
pub struct TransactionView {
    pub sender: Seq<char>,
    pub recipient: Seq<char>,
    pub amount: int,
}

impl View for Transaction {
    type V = TransactionView;

    open spec fn view(&self) -> TransactionView {
        TransactionView {
            sender: self.sender@,
            recipient: self.recipient@,
            amount: self.amount as int,
        }
    }
}

impl Clone for Transaction {
    fn clone(&self) -> (copy: Self)
        ensures
            copy == *self,
    {
        Transaction {
            sender: self.sender.clone(),
            recipient: self.recipient.clone(),
            amount: self.amount,
        }
    }
}

/// The views of a sequence of transactions, in order.
pub open spec fn transaction_views(transactions: Seq<Transaction>) -> Seq<TransactionView> {
    transactions.map_values(|t: Transaction| t@)
}

/// The hashed, chain-linking part of a block.
#[derive(Debug, PartialEq, Eq)]
pub struct BlockHeader {
    pub timestamp: i64,
    pub nonce: u32,
    pub previous_hash: String,
    pub merkle_root: String,
    pub difficulty: u32,
}

/// What a [`BlockHeader`] holds, as plain mathematical values.
pub struct HeaderView {
    pub timestamp: int,
    pub nonce: nat,
    pub previous_hash: Seq<char>,
    pub merkle_root: Seq<char>,
    pub difficulty: nat,
}

impl View for BlockHeader {
    type V = HeaderView;

    open spec fn view(&self) -> HeaderView {
        HeaderView {
            timestamp: self.timestamp as int,
            nonce: self.nonce as nat,
            previous_hash: self.previous_hash@,
            merkle_root: self.merkle_root@,
            difficulty: self.difficulty as nat,
        }
    }
}

impl Clone for BlockHeader {
    fn clone(&self) -> (copy: Self)
        ensures
            copy == *self,
    {
        BlockHeader {
            timestamp: self.timestamp,
            nonce: self.nonce,
            previous_hash: self.previous_hash.clone(),
            merkle_root: self.merkle_root.clone(),
            difficulty: self.difficulty,
        }
    }
}

/// A header together with the ordered transactions of its block and their
/// number. A block is not changed once it is made.
#[derive(Debug, PartialEq, Eq)]
pub struct Block {
    block_header: BlockHeader,
    transaction_count: usize,
    transactions: Vec<Transaction>,
}

/// What a [`Block`] holds, as plain mathematical values.
pub struct BlockView {
    pub header: HeaderView,
    pub transaction_count: nat,
    pub transactions: Seq<TransactionView>,
}

impl View for Block {
    type V = BlockView;

    closed spec fn view(&self) -> BlockView {
        BlockView {
            header: self.block_header@,
            transaction_count: self.transaction_count as nat,
            transactions: transaction_views(self.transactions@),
        }
    }
}

impl Clone for Block {
    fn clone(&self) -> (copy: Self)
        ensures
            copy@ == self@,
    {
        let mut transactions: Vec<Transaction> = Vec::new();
        let mut i: usize = 0;
        while i < self.transactions.len()
            invariant
                i <= self.transactions.len(),
                transactions@ == self.transactions@.take(i as int),
            decreases self.transactions.len() - i,
        {
            transactions.push(self.transactions[i].clone());
            i += 1;
        }
        proof {
            use_type_invariant(self);
            assert(transactions@ =~= self.transactions@);
        }
        Block {
            block_header: self.block_header.clone(),
            transaction_count: self.transaction_count,
            transactions,
        }
    }
}

impl Block {
    /// The count of every block is the number of its transactions.
    #[verifier::type_invariant]
    spec fn counted(self) -> bool {
        self.transaction_count == self.transactions@.len()
    }

    /// A block of the given header and transactions. Its count is the number
    /// of the transactions.
    pub fn new(block_header: BlockHeader, transactions: Vec<Transaction>) -> (block: Block)
        ensures
            block@ == (BlockView {
                header: block_header@,
                transaction_count: transactions@.len(),
                transactions: transaction_views(transactions@),
            }),
    {
        Block { block_header, transaction_count: transactions.len(), transactions }
    }

    /// The header of the block.
    pub fn header(&self) -> (header: &BlockHeader)
        ensures
            header@ == self@.header,
    {
        &self.block_header
    }

    /// The number of transactions of the block.
    pub fn transaction_count(&self) -> (count: usize)
        ensures
            count == self@.transaction_count,
            count == self@.transactions.len(),
    {
        proof {
            use_type_invariant(self);
        }
        self.transaction_count
    }

    /// The transactions of the block, in order.
    pub fn transactions(&self) -> (transactions: &[Transaction])
        ensures
            transaction_views(transactions@) == self@.transactions,
    {
        self.transactions.as_slice()
    }
}

} // verus!
