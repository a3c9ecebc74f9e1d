//! The chain: an append-only sequence of verified blocks, each linked to its
//! predecessor by hash, starting from a genesis block.
use vstd::prelude::*;
use vstd::string::StrSliceExecFns;
use crate::block::{utc_now, Block, MiningError};
use crate::text::{has_leading_zeros, meets_difficulty};

verus! {

/// The difficulty the genesis block is mined at, whatever the chain's own.
pub const GENESIS_DIFFICULTY: usize = 4;

#[derive(Clone, Debug)]
pub struct Blockchain {
    pub chain: Vec<Block>,
    pub difficulty: usize,
}

/// Why a block was refused.
#[derive(Debug, PartialEq, Eq)]
pub enum ChainError {
    /// The stored hash is not the block's digest.
    InvalidHash,
    /// The hash has fewer leading zeros than the chain's difficulty asks.
    InsufficientWork,
    /// The block's `previous_hash` is not the hash of the chain's last block.
    BrokenLink,
}

/// Each block after the first names its predecessor's hash.
pub open spec fn linked(chain: Seq<Block>) -> bool {
    forall|i: int| 0 < i < chain.len() ==> #[trigger] chain[i].previous_hash@ == chain[i - 1].hash@
}

/// No 64-bit nonce seals a genesis block created at time `timestamp`,
/// `date_time` at the genesis difficulty.
pub open spec fn genesis_unsealable(timestamp: u64, date_time: Seq<char>) -> bool {
    forall|b: Block, m: u64|
        is_genesis(b) && b.timestamp == timestamp && b.date_time@ == date_time ==> !has_leading_zeros(
            #[trigger] b.digest_at(m),
            GENESIS_DIFFICULTY as nat,
        )
}

/// Never empty, starts with a genesis block, every block verifies, every block
/// after the first meets `difficulty`, and every adjacent pair is linked.
pub open spec fn valid_chain(chain: Seq<Block>, difficulty: usize) -> bool {
    &&& chain.len() >= 1
    &&& is_genesis(chain[0])
    &&& forall|i: int| 0 <= i < chain.len() ==> #[trigger] chain[i].verifies()
    &&& forall|i: int|
        0 < i < chain.len() ==> has_leading_zeros(#[trigger] chain[i].hash@, difficulty as nat)
    &&& linked(chain)
}

/// A genesis block: index 0, no predecessor, no transactions.
pub open spec fn is_genesis(b: Block) -> bool {
    &&& b.index == 0
    &&& b.previous_hash@ == Seq::<char>::empty()
    &&& b.transactions@.len() == 0
}

impl Blockchain {
    /// Never empty, starts with a genesis block, every block verifies, every
    /// block after the genesis block meets the chain's difficulty, and every
    /// adjacent pair is linked.
    pub open spec fn wf(&self) -> bool {
        valid_chain(self.chain@, self.difficulty)
    }

    /// A chain of loaded blocks, re-checked: `None` unless the blocks form a
    /// well-formed chain at `difficulty`.
    pub fn from_blocks(blocks: Vec<Block>, difficulty: usize) -> (r: Option<Self>)
        ensures
            r is Some <==> valid_chain(blocks@, difficulty),
            r matches Some(c) ==> c.chain@ == blocks@ && c.difficulty == difficulty,
    {
        if blocks.len() == 0 {
            return None;
        }
        if blocks[0].index != 0 || blocks[0].previous_hash.as_str().unicode_len() != 0
            || blocks[0].transactions.len() != 0 {
            return None;
        }
        assert(blocks@[0].previous_hash@ =~= Seq::<char>::empty());
        let mut i: usize = 0;
        while i < blocks.len()
            invariant
                0 < blocks@.len(),
                is_genesis(blocks@[0]),
                i <= blocks@.len(),
                forall|j: int| 0 <= j < i ==> #[trigger] blocks@[j].verifies(),
                forall|j: int|
                    0 < j < i ==> has_leading_zeros(#[trigger] blocks@[j].hash@, difficulty as nat),
                forall|j: int|
                    0 < j < i ==> #[trigger] blocks@[j].previous_hash@ == blocks@[j - 1].hash@,
            decreases blocks@.len() - i,
        {
            if !blocks[i].verify() {
                return None;
            }
            if i > 0 {
                if !meets_difficulty(&blocks[i].hash, difficulty) {
                    return None;
                }
                if blocks[i].previous_hash != blocks[i - 1].hash {
                    return None;
                }
            }
            i = i + 1;
        }
        Some(Blockchain { chain: blocks, difficulty })
    }

    /// A chain holding one genesis block, stamped now and sealed at the fixed
    /// genesis difficulty; `difficulty` is kept for the blocks that follow.
    pub fn new(difficulty: usize) -> (r: Result<Self, MiningError>)
        ensures
            r matches Ok(c) ==> {
                &&& c.wf()
                &&& c.chain@.len() == 1
                &&& c.chain@[0].sealed(GENESIS_DIFFICULTY as nat)
                &&& c.difficulty == difficulty
            },
            r is Err ==> exists|t: u64, d: Seq<char>| #[trigger] genesis_unsealable(t, d),
    {
        let (timestamp, date_time) = utc_now();
        let ghost d = date_time@;
        let r = Blockchain::starting_at(difficulty, timestamp, date_time);
        assert(r is Err ==> genesis_unsealable(timestamp, d));
        r
    }

    /// A chain holding one genesis block with the given creation time, sealed
    /// with the first nonce from 0 up that meets the fixed genesis difficulty;
    /// fails only when no 64-bit nonce does.
    pub fn starting_at(difficulty: usize, timestamp: u64, date_time: String) -> (r: Result<
        Self,
        MiningError,
    >)
        ensures
            r matches Ok(c) ==> {
                &&& c.wf()
                &&& c.chain@.len() == 1
                &&& c.chain@[0].timestamp == timestamp
                &&& c.chain@[0].date_time@ == date_time@
                &&& c.chain@[0].sealed(GENESIS_DIFFICULTY as nat)
                &&& forall|m: u64|
                    m < c.chain@[0].proof_of_work ==> !has_leading_zeros(
                        #[trigger] c.chain@[0].digest_at(m),
                        GENESIS_DIFFICULTY as nat,
                    )
                &&& c.difficulty == difficulty
            },
            r is Err ==> genesis_unsealable(timestamp, date_time@),
    {
        let mut genesis_block = Block::stamped(0, Vec::new(), String::new(), timestamp, date_time);
        let ghost unmined = genesis_block;
        match genesis_block.mine(GENESIS_DIFFICULTY, 0) {
            Ok(()) => {
                let chain = vec![genesis_block];
                assert(linked(chain@));
                Ok(Blockchain { chain, difficulty })
            },
            Err(e) => {
                assert forall|b: Block, m: u64|
                    is_genesis(b) && b.timestamp == timestamp && b.date_time@ == date_time@
                        implies !has_leading_zeros(
                        #[trigger] b.digest_at(m),
                        GENESIS_DIFFICULTY as nat,
                    ) by {
                    assert(b.transactions@ =~= unmined.transactions@);
                    assert(b.text_at(m) =~= unmined.text_at(m));
                    assert(b.digest_at(m) == unmined.digest_at(m));
                }
                Err(e)
            },
        }
    }

    /// The difficulty the chain was configured with.
    pub fn difficulty(&self) -> (r: usize)
        ensures
            r == self.difficulty,
    {
        self.difficulty
    }

    /// The hash of the last block.
    pub fn tip_hash(&self) -> (r: &String)
        requires
            self.wf(),
        ensures
            r == &self.chain@.last().hash,
    {
        &self.chain[self.chain.len() - 1]
            .hash
    }

    /// Appends `block` when its hash is its digest and it links to the
    /// current last block; otherwise refuses it and leaves the chain as it was.
    pub fn add_block(&mut self, block: Block) -> (r: Result<(), ChainError>)
        requires
            old(self).wf(),
        ensures
            final(self).wf(),
            final(self).difficulty == old(self).difficulty,
            r == Err::<(), ChainError>(ChainError::InvalidHash) <==> !block.verifies(),
            r == Err::<(), ChainError>(ChainError::InsufficientWork) <==> block.verifies()
                && !has_leading_zeros(block.hash@, old(self).difficulty as nat),
            r == Err::<(), ChainError>(ChainError::BrokenLink) <==> block.verifies()
                && has_leading_zeros(block.hash@, old(self).difficulty as nat)
                && block.previous_hash@ != old(self).chain@.last().hash@,
            r is Ok ==> final(self).chain@ == old(self).chain@.push(block),
            r is Err ==> final(self).chain@ == old(self).chain@,
    {
        if !block.verify() {
            return Err(ChainError::InvalidHash);
        }
        if !meets_difficulty(&block.hash, self.difficulty) {
            return Err(ChainError::InsufficientWork);
        }
        if block.previous_hash != *self.tip_hash() {
            return Err(ChainError::BrokenLink);
        }
        self.chain.push(block);
        proof {
            let c = self.chain@;
            assert forall|i: int| 0 < i < c.len() implies #[trigger] c[i].previous_hash@
                == c[i - 1].hash@ by {
                if i < c.len() - 1 {
                    assert(old(self).chain@[i].previous_hash@ == old(self).chain@[i - 1].hash@);
                }
            }
        }
        Ok(())
    }
}

/// Every block after the first of a well-formed chain names its
/// predecessor's hash as `previous_hash`.
pub proof fn lemma_chain_linked(c: &Blockchain, i: int)
    requires
        c.wf(),
        0 < i < c.chain@.len(),
    ensures
        c.chain@[i].previous_hash@ == c.chain@[i - 1].hash@,
{
}

} // verus!
