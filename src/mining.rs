//! The arena of one mining round: shared state into which concurrent workers
//! report solutions, and which admits exactly the first one.
use vstd::prelude::*;
use crate::block::Block;
use crate::text::has_leading_zeros;

verus! {

#[derive(Clone, Debug)]
pub struct Mining {
    pub mined: bool,
    pub proof_of_work: u64,
    pub hash: String,
    /// How many solutions were reported, saturating at `u64::MAX`.
    pub consensus: u64,
}

/// The arena's state as plain values.
pub ghost struct ArenaView {
    pub mined: bool,
    pub proof_of_work: u64,
    pub hash: Seq<char>,
    pub consensus: u64,
}

impl View for Mining {
    type V = ArenaView;

    open spec fn view(&self) -> ArenaView {
        ArenaView {
            mined: self.mined,
            proof_of_work: self.proof_of_work,
            hash: self.hash@,
            consensus: self.consensus,
        }
    }
}

/// Why a round's result could not be turned into a block.
#[derive(Debug, PartialEq, Eq)]
pub enum SealError {
    /// No worker has claimed the round yet.
    Unsolved,
    /// The winning hash is not the block's digest under the winning proof of work.
    Rejected,
}

/// The state of an arena before any claim.
pub open spec fn fresh_arena() -> ArenaView {
    ArenaView { mined: false, proof_of_work: 0, hash: Seq::empty(), consensus: 0 }
}

/// One claim: the first one on an unsolved arena wins and is recorded; any
/// later one only counts. The flag says whether the claim won.
pub open spec fn claim_step(v: ArenaView, proof_of_work: u64, hash: Seq<char>) -> (ArenaView, bool) {
    let count = if v.consensus < u64::MAX { (v.consensus + 1) as u64 } else { v.consensus };
    if v.mined {
        (ArenaView { consensus: count, ..v }, false)
    } else {
        (ArenaView { mined: true, proof_of_work, hash, consensus: count }, true)
    }
}

/// A series of claims applied in order: the final state and the number of
/// claims that won.
pub open spec fn run_claims(v: ArenaView, claims: Seq<(u64, Seq<char>)>) -> (ArenaView, nat)
    decreases claims.len(),
{
    if claims.len() == 0 {
        (v, 0)
    } else {
        let (before, wins) = run_claims(v, claims.drop_last());
        let (after, won) = claim_step(before, claims.last().0, claims.last().1);
        (after, if won { wins + 1 } else { wins })
    }
}

/// On a solved arena no claim wins, and the recorded solution stays.
pub proof fn lemma_solved_arena_keeps_winner(v: ArenaView, claims: Seq<(u64, Seq<char>)>)
    requires
        v.mined,
    ensures
        run_claims(v, claims).1 == 0,
        run_claims(v, claims).0.mined,
        run_claims(v, claims).0.proof_of_work == v.proof_of_work,
        run_claims(v, claims).0.hash == v.hash,
    decreases claims.len(),
{
    if claims.len() > 0 {
        lemma_solved_arena_keeps_winner(v, claims.drop_last());
    }
}

/// Exactly one winner per round: whatever the order in which workers report,
/// a non-empty series of claims on an unsolved arena has exactly one winning
/// claim, the first, and the arena ends holding its solution.
pub proof fn lemma_exactly_one_winner(v: ArenaView, claims: Seq<(u64, Seq<char>)>)
    requires
        !v.mined,
        claims.len() > 0,
    ensures
        run_claims(v, claims).1 == 1,
        run_claims(v, claims).0.mined,
        run_claims(v, claims).0.proof_of_work == claims[0].0,
        run_claims(v, claims).0.hash == claims[0].1,
    decreases claims.len(),
{
    let earlier = claims.drop_last();
    if claims.len() > 1 {
        lemma_exactly_one_winner(v, earlier);
        assert(earlier[0] == claims[0]);
    } else {
        assert(run_claims(v, earlier) == (v, 0nat));
    }
}

/// A round's result comes whole from one worker: when every claim is a
/// solution for block `b` at difficulty `d` (a nonce with its digest, which has
/// `d` leading zeros), the arena ends holding a proof of work and a hash that
/// belong together, and the hash meets the difficulty.
pub proof fn lemma_round_result_is_one_solution(
    v: ArenaView,
    claims: Seq<(u64, Seq<char>)>,
    b: Block,
    d: nat,
)
    requires
        !v.mined,
        claims.len() > 0,
        forall|i: int|
            0 <= i < claims.len() ==> (#[trigger] claims[i]).1 == b.digest_at(claims[i].0)
                && has_leading_zeros(claims[i].1, d),
    ensures
        run_claims(v, claims).0.hash == b.digest_at(run_claims(v, claims).0.proof_of_work),
        has_leading_zeros(run_claims(v, claims).0.hash, d),
{
    lemma_exactly_one_winner(v, claims);
    assert(claims[0].1 == b.digest_at(claims[0].0));
}

impl Mining {
    /// An unsolved arena.
    pub fn new() -> (r: Self)
        ensures
            r@ == fresh_arena(),
    {
        Mining { mined: false, proof_of_work: 0, hash: String::new(), consensus: 0 }
    }

    /// Reports a solution. Checking whether the round is solved and recording
    /// the solution are one step; returns whether this claim won.
    pub fn try_claim(&mut self, proof_of_work: u64, hash: String) -> (r: bool)
        ensures
            (final(self)@, r) == claim_step(old(self)@, proof_of_work, hash@),
    {
        if self.consensus < u64::MAX {
            self.consensus = self.consensus + 1;
        }
        if self.mined {
            false
        } else {
            self.mined = true;
            self.proof_of_work = proof_of_work;
            self.hash = hash;
            true
        }
    }

    /// Copies the winning proof of work and hash onto the round's block and
    /// re-validates it.
    pub fn finalize(&self, block: Block) -> (r: Result<Block, SealError>)
        ensures
            r == Err::<Block, SealError>(SealError::Unsolved) <==> !self.mined,
            r == Err::<Block, SealError>(SealError::Rejected) <==> self.mined && self.hash@
                != block.digest_at(self.proof_of_work),
            r matches Ok(b) ==> {
                &&& b.same_content(&block)
                &&& b.proof_of_work == self.proof_of_work
                &&& b.hash@ == self.hash@
                &&& b.verifies()
            },
    {
        if !self.mined {
            return Err(SealError::Unsolved);
        }
        let mut sealed = block;
        sealed.proof_of_work = self.proof_of_work;
        sealed.hash = self.hash.clone();
        assert(sealed.text_at(self.proof_of_work) =~= block.text_at(self.proof_of_work));
        if sealed.verify() {
            Ok(sealed)
        } else {
            Err(SealError::Rejected)
        }
    }
}

} // verus!
