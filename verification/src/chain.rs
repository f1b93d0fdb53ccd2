//! The ledger: an append-only sequence of sealed blocks, the pool of pending
//! transfers, and the settings of the next mining round.

use vstd::prelude::*;
use crate::clock::unix_seconds;
use crate::digest::{digest_hex, zero_hash, zero_hash_text, DIGEST_LENGTH};
use crate::json::header_json;
use crate::merkle::merkle_root;
use crate::pow::{
    admitted, least_admitted, least_nonce, lemma_least_admitted_exists,
    lemma_least_admitted_unique, minable, nonce_admitted, with_nonce, MiningError,
};
use crate::record::{
    transaction_views, Block, BlockHeader, BlockView, HeaderView, Transaction, TransactionView,
};

verus! {

/// The ledger.
pub struct Chain {
    chain: Vec<Block>,
    current_transactions: Vec<Transaction>,
    difficulty: u32,
    miner_address: String,
    reward_amount: i64,
}

/// What a [`Chain`] holds, as plain mathematical values.
pub struct ChainView {
    pub blocks: Seq<BlockView>,
    pub pool: Seq<TransactionView>,
    pub difficulty: nat,
    pub miner_address: Seq<char>,
    pub reward_amount: int,
}

/// The views of a sequence of blocks, in order.
pub open spec fn block_views(blocks: Seq<Block>) -> Seq<BlockView> {
    blocks.map_values(|b: Block| b@)
}

impl View for Chain {
    type V = ChainView;

    closed spec fn view(&self) -> ChainView {
        ChainView {
            blocks: block_views(self.chain@),
            pool: transaction_views(self.current_transactions@),
            difficulty: self.difficulty as nat,
            miner_address: self.miner_address@,
            reward_amount: self.reward_amount as int,
        }
    }
}

/// The hash that the next block is linked to: the content hash of the last
/// block's header, or the sentinel digest where there is no block yet.
pub open spec fn last_hash_of(blocks: Seq<BlockView>) -> Seq<char> {
    if blocks.len() == 0 {
        zero_hash()
    } else {
        digest_hex(header_json(blocks.last().header))
    }
}

/// Each block names the hash of the one before it, the first the sentinel.
pub open spec fn linked(blocks: Seq<BlockView>) -> bool {
    forall|i: int|
        0 <= i < blocks.len() ==> (#[trigger] blocks[i]).header.previous_hash == last_hash_of(
            blocks.take(i),
        )
}

/// What holds of a sealed block by itself: its count is the number of its
/// transactions, the first of which credits the miner from no sender; its
/// header commits to its transactions and meets its own difficulty.
pub open spec fn block_well_formed(block: BlockView, miner_address: Seq<char>) -> bool {
    &&& block.transaction_count == block.transactions.len()
    &&& block.transactions.len() >= 1
    &&& block.transactions[0].sender == Seq::<char>::empty()
    &&& block.transactions[0].recipient == miner_address
    &&& block.header.merkle_root == merkle_root(block.transactions)
    &&& admitted(digest_hex(header_json(block.header)), block.header.difficulty)
}

/// The invariant of the ledger.
pub open spec fn well_formed(ledger: ChainView) -> bool {
    &&& linked(ledger.blocks)
    &&& forall|i: int|
        0 <= i < ledger.blocks.len() ==> block_well_formed(
            #[trigger] ledger.blocks[i],
            ledger.miner_address,
        )
}

/// The ledger before its first block.
pub open spec fn empty_ledger(
    miner_address: Seq<char>,
    difficulty: nat,
    reward_amount: int,
) -> ChainView {
    ChainView {
        blocks: Seq::empty(),
        pool: Seq::empty(),
        difficulty,
        miner_address,
        reward_amount,
    }
}

/// The transfer that pays the miner of the next block.
pub open spec fn reward_transaction(ledger: ChainView) -> TransactionView {
    TransactionView {
        sender: Seq::empty(),
        recipient: ledger.miner_address,
        amount: ledger.reward_amount,
    }
}

/// The transactions of the next block: the reward, then the pool in its order.
pub open spec fn assembled(ledger: ChainView) -> Seq<TransactionView> {
    seq![reward_transaction(ledger)] + ledger.pool
}

/// The header of the next block before the search for its nonce.
pub open spec fn candidate_header(ledger: ChainView, timestamp: int) -> HeaderView {
    HeaderView {
        timestamp,
        nonce: 0,
        previous_hash: last_hash_of(ledger.blocks),
        merkle_root: merkle_root(assembled(ledger)),
        difficulty: ledger.difficulty,
    }
}

/// The ledger after one more transfer was submitted.
pub open spec fn submitted(ledger: ChainView, transaction: TransactionView) -> ChainView {
    ChainView { pool: ledger.pool.push(transaction), ..ledger }
}

/// The ledger after a mining round at the given time. Where the candidate
/// header can be mined, the new block holds the assembled transactions under
/// the least admitted nonce and the pool is empty; where it cannot, nothing
/// has changed.
pub open spec fn mined(ledger: ChainView, timestamp: int) -> ChainView {
    let candidate = candidate_header(ledger, timestamp);
    if minable(candidate) {
        let block = BlockView {
            header: with_nonce(candidate, least_nonce(candidate)),
            transaction_count: assembled(ledger).len(),
            transactions: assembled(ledger),
        };
        ChainView { blocks: ledger.blocks.push(block), pool: Seq::empty(), ..ledger }
    } else {
        ledger
    }
}

impl Chain {
    /// The invariant of the ledger.
    pub open spec fn wf(&self) -> bool {
        well_formed(self@)
    }

    /// The sealed blocks, oldest first.
    pub fn blocks(&self) -> (blocks: &[Block])
        ensures
            block_views(blocks@) == self@.blocks,
    {
        self.chain.as_slice()
    }

    /// The pending transfers, in the order of their submission.
    pub fn pending_transactions(&self) -> (pool: &[Transaction])
        ensures
            transaction_views(pool@) == self@.pool,
    {
        self.current_transactions.as_slice()
    }

    /// The difficulty of the next block.
    pub fn difficulty(&self) -> (difficulty: u32)
        ensures
            difficulty == self@.difficulty,
    {
        self.difficulty
    }

    /// The address that the rewards are paid to.
    pub fn miner_address(&self) -> (address: &str)
        ensures
            address@ == self@.miner_address,
    {
        self.miner_address.as_str()
    }

    /// The reward of the next block.
    pub fn reward_amount(&self) -> (amount: i64)
        ensures
            amount == self@.reward_amount,
    {
        self.reward_amount
    }

    /// A ledger for the given miner and settings, with its first block mined at
    /// the time of the call.
    pub fn new(miner_address: String, difficulty: u32, reward_amount: i64) -> (ledger: Chain)
        ensures
            ledger.wf(),
            exists|timestamp: i64|
                ledger@ == mined(
                    empty_ledger(miner_address@, difficulty as nat, reward_amount as int),
                    timestamp as int,
                ),
    {
        let timestamp: i64 = unix_seconds();
        Chain::new_at(miner_address, difficulty, reward_amount, timestamp)
    }

    /// A ledger for the given miner and settings, with its first block mined
    /// under the given timestamp. The first block holds the reward alone and
    /// names the sentinel digest as its previous hash. Where the difficulty
    /// cannot be met the ledger has no block.
    pub fn new_at(
        miner_address: String,
        difficulty: u32,
        reward_amount: i64,
        timestamp: i64,
    ) -> (ledger: Chain)
        ensures
            ledger.wf(),
            ledger@ == mined(
                empty_ledger(miner_address@, difficulty as nat, reward_amount as int),
                timestamp as int,
            ),
    {
        let mut chain = Chain {
            chain: Vec::new(),
            current_transactions: Vec::new(),
            difficulty,
            miner_address,
            reward_amount,
        };
        assert(chain@.blocks =~= Seq::<BlockView>::empty());
        assert(chain@.pool =~= Seq::<TransactionView>::empty());
        let _ = chain.mine_block_at(timestamp);
        chain
    }

    /// Appends a transfer to the pool. Every transfer is accepted.
    pub fn new_transaction(
        &mut self,
        sender: String,
        recipient: String,
        amount: i64,
    ) -> (accepted: bool)
        ensures
            accepted,
            final(self)@ == submitted(
                old(self)@,
                TransactionView { sender: sender@, recipient: recipient@, amount: amount as int },
            ),
            old(self).wf() ==> final(self).wf(),
    {
        let transaction = Transaction { sender, recipient, amount };
        proof {
            assert(transaction_views(self.current_transactions@.push(transaction))
                =~= transaction_views(self.current_transactions@).push(transaction@));
        }
        self.current_transactions.push(transaction);
        true
    }

    /// The hash that the next block will be linked to.
    pub fn last_hash(&self) -> (hash: String)
        ensures
            hash@ == last_hash_of(self@.blocks),
    {
        let blocks: usize = self.chain.len();
        if blocks == 0 {
            zero_hash_text()
        } else {
            Chain::hash(self.chain[blocks - 1].header())
        }
    }

    /// Sets the difficulty of the blocks mined from now on.
    pub fn update_difficulty(&mut self, difficulty: u32) -> (updated: bool)
        ensures
            updated,
            final(self)@ == (ChainView { difficulty: difficulty as nat, ..old(self)@ }),
            old(self).wf() ==> final(self).wf(),
    {
        self.difficulty = difficulty;
        true
    }

    /// Sets the reward of the blocks mined from now on.
    pub fn update_reward(&mut self, reward_amount: i64) -> (updated: bool)
        ensures
            updated,
            final(self)@ == (ChainView { reward_amount: reward_amount as int, ..old(self)@ }),
            old(self).wf() ==> final(self).wf(),
    {
        self.reward_amount = reward_amount;
        true
    }

    /// Mines a block at the time of the call and tells whether one was sealed.
    pub fn generate_new_block(&mut self) -> (sealed: bool)
        ensures
            exists|timestamp: i64|
                final(self)@ == mined(old(self)@, timestamp as int) && (sealed <==> minable(
                    candidate_header(old(self)@, timestamp as int),
                )),
            old(self).wf() ==> final(self).wf(),
    {
        let timestamp: i64 = unix_seconds();
        match self.mine_block_at(timestamp) {
            Ok(()) => true,
            Err(_) => false,
        }
    }

    /// Assembles the transactions of a new block: the reward for the miner
    /// first, then the whole pool in its order. The transfers move out of the
    /// pool, which is left empty.
    pub fn assemble(
        pool: &mut Vec<Transaction>,
        miner_address: &str,
        reward_amount: i64,
    ) -> (transactions: Vec<Transaction>)
        ensures
            transaction_views(transactions@) == seq![
                TransactionView {
                    sender: Seq::empty(),
                    recipient: miner_address@,
                    amount: reward_amount as int,
                },
            ] + transaction_views(old(pool)@),
            transactions@.skip(1) == old(pool)@,
            final(pool)@ == Seq::<Transaction>::empty(),
    {
        let reward_transaction = Transaction {
            sender: String::new(),
            recipient: String::from_str(miner_address),
            amount: reward_amount,
        };
        let mut transactions: Vec<Transaction> = Vec::new();
        transactions.push(reward_transaction);
        transactions.append(pool);
        assert(transaction_views(transactions@) =~= seq![reward_transaction@] + transaction_views(
            old(pool)@,
        ));
        transactions
    }

    /// Mines a block under the given timestamp: assembles the reward and the
    /// whole pool into the block's transactions, commits to them by their
    /// Merkle root, links the header to the last block and searches its nonce.
    /// On success the block is appended and the pool is empty. On failure the
    /// ledger, its pool included, is as it was.
    pub fn mine_block_at(&mut self, timestamp: i64) -> (outcome: Result<(), MiningError>)
        ensures
            final(self)@ == mined(old(self)@, timestamp as int),
            outcome is Ok <==> minable(candidate_header(old(self)@, timestamp as int)),
            outcome == Err::<(), MiningError>(MiningError::DifficultyExceedsDigest)
                <==> old(self)@.difficulty > DIGEST_LENGTH,
            old(self).wf() ==> final(self).wf(),
    {
        let ghost before = self@;
        let ghost candidate = candidate_header(before, timestamp as int);
        let previous_hash = self.last_hash();
        let mut transactions = Chain::assemble(
            &mut self.current_transactions,
            self.miner_address.as_str(),
            self.reward_amount,
        );
        let merkle_root = Chain::get_merkle_root(transactions.as_slice());
        let mut block_header = BlockHeader {
            timestamp,
            nonce: 0,
            previous_hash,
            merkle_root,
            difficulty: self.difficulty,
        };
        match Chain::proof_of_work(&mut block_header) {
            Ok(()) => {
                let block = Block::new(block_header, transactions);
                proof {
                    let nonce: nat = block@.header.nonce;
                    lemma_least_admitted_exists(candidate, nonce);
                    lemma_least_admitted_unique(candidate, nonce, least_nonce(candidate));
                    assert(block_views(self.chain@.push(block)) =~= block_views(self.chain@).push(
                        block@,
                    ));
                    if well_formed(before) {
                        lemma_linked_push(before.blocks, block@);
                    }
                }
                self.chain.push(block);
                assert(self@.pool =~= Seq::<TransactionView>::empty());
                Ok(())
            },
            Err(error) => {
                let _ = transactions.remove(0);
                self.current_transactions = transactions;
                Err(error)
            },
        }
    }
}

/// The ledger after each of the given transfers was submitted, in order.
pub open spec fn submitted_all(ledger: ChainView, transactions: Seq<TransactionView>) -> ChainView
    decreases transactions.len(),
{
    if transactions.len() == 0 {
        ledger
    } else {
        submitted(submitted_all(ledger, transactions.drop_last()), transactions.last())
    }
}

/// Submissions only lengthen the pool: after them it holds what it held,
/// followed by the submitted transfers in their order.
pub proof fn lemma_submitted_all(ledger: ChainView, transactions: Seq<TransactionView>)
    ensures
        submitted_all(ledger, transactions) == (ChainView {
            pool: ledger.pool + transactions,
            ..ledger
        }),
    decreases transactions.len(),
{
    if transactions.len() == 0 {
        assert(ledger.pool + transactions =~= ledger.pool);
    } else {
        lemma_submitted_all(ledger, transactions.drop_last());
        assert((ledger.pool + transactions.drop_last()).push(transactions.last()) =~= ledger.pool
            + transactions);
    }
}

/// In a well-formed ledger the first block names the sentinel digest as its
/// previous hash, and every later block names the content hash of the header
/// of the block before it.
pub proof fn lemma_chain_linkage(ledger: ChainView, i: int)
    requires
        well_formed(ledger),
        0 <= i < ledger.blocks.len(),
    ensures
        i == 0 ==> ledger.blocks[i].header.previous_hash == zero_hash(),
        i >= 1 ==> ledger.blocks[i].header.previous_hash == digest_hex(
            header_json(ledger.blocks[i - 1].header),
        ),
{
    let before = ledger.blocks.take(i);
    assert(ledger.blocks[i].header.previous_hash == last_hash_of(before));
    if i >= 1 {
        assert(before.last() == ledger.blocks[i - 1]);
    }
}

/// A mining round keeps the ledger well formed.
pub proof fn lemma_mined_well_formed(ledger: ChainView, timestamp: int)
    requires
        well_formed(ledger),
    ensures
        well_formed(mined(ledger, timestamp)),
{
    let candidate = candidate_header(ledger, timestamp);
    if minable(candidate) {
        let witness: nat = choose|nonce: nat| nonce <= u32::MAX && nonce_admitted(candidate, nonce);
        lemma_least_admitted_exists(candidate, witness);
        let after = mined(ledger, timestamp);
        lemma_linked_push(ledger.blocks, after.blocks.last());
    }
}

/// A mining round never removes, reorders or replaces a sealed block: the
/// blocks from before are the first blocks afterwards.
pub proof fn lemma_mined_keeps_blocks(ledger: ChainView, timestamp: int)
    ensures
        ledger.blocks.len() <= mined(ledger, timestamp).blocks.len() <= ledger.blocks.len() + 1,
        mined(ledger, timestamp).blocks.take(ledger.blocks.len() as int) == ledger.blocks,
{
    assert(mined(ledger, timestamp).blocks.take(ledger.blocks.len() as int) =~= ledger.blocks);
}

/// The pool moves into the next block: when transfers are submitted to a
/// ledger with an empty pool and the next mining round seals a block, that
/// block holds the reward followed by the submitted transfers in their order,
/// its count is their number plus one, and the pool is empty again.
pub proof fn lemma_pool_transfer(
    ledger: ChainView,
    transactions: Seq<TransactionView>,
    timestamp: int,
)
    requires
        ledger.pool.len() == 0,
        minable(candidate_header(submitted_all(ledger, transactions), timestamp)),
    ensures
        ({
            let after = mined(submitted_all(ledger, transactions), timestamp);
            let block = after.blocks.last();
            &&& after.blocks.len() == ledger.blocks.len() + 1
            &&& block.transactions.len() == transactions.len() + 1
            &&& block.transaction_count == transactions.len() + 1
            &&& block.transactions[0] == reward_transaction(ledger)
            &&& block.transactions.skip(1) == transactions
            &&& after.pool.len() == 0
        }),
{
    lemma_submitted_all(ledger, transactions);
    let before = submitted_all(ledger, transactions);
    assert(before.pool =~= transactions);
    let block = mined(before, timestamp).blocks.last();
    assert(block.transactions.skip(1) =~= transactions);
}

/// A linked sequence stays linked when a block that names its last hash is
/// appended.
pub proof fn lemma_linked_push(blocks: Seq<BlockView>, block: BlockView)
    requires
        linked(blocks),
        block.header.previous_hash == last_hash_of(blocks),
    ensures
        linked(blocks.push(block)),
{
    let longer = blocks.push(block);
    assert forall|i: int| 0 <= i < longer.len() implies (#[trigger] longer[i]).header.previous_hash
        == last_hash_of(longer.take(i)) by {
        if i < blocks.len() {
            assert(longer.take(i) =~= blocks.take(i));
            assert(longer[i] == blocks[i]);
        } else {
            assert(longer.take(i) =~= blocks);
        }
    }
}

} // verus!
