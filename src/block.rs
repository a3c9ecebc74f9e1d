//! Blocks: their canonical text, their digest, the nonce search that seals
//! them, and self-verification.
use vstd::prelude::*;
use vstd::utf8::encode_utf8;
use crate::crypto::{sha256, sha256_of};
use crate::text::{
    decimal, framed, has_leading_zeros, hex_of, hex_string, meets_difficulty, push_decimal,
    push_framed, push_text, lemma_decimal_injective, lemma_framed_prefix,
    lemma_strip_prefix, lemma_decimal_prefix,
};
use crate::transaction::Transaction;

verus! {

#[derive(Clone, Debug)]
pub struct Block {
    pub index: usize,
    /// Milliseconds since the Unix epoch at creation.
    pub timestamp: u64,
    /// The creation time as readable text.
    pub date_time: String,
    pub proof_of_work: u64,
    pub transactions: Vec<Transaction>,
    pub previous_hash: String,
    pub hash: String,
}

/// The nonce search ran out of 64-bit nonces without meeting the difficulty.
#[derive(Debug, PartialEq, Eq)]
pub enum MiningError {
    NoncesExhausted,
}

/// What one chunk of a worker's nonce search came to.
#[derive(Debug, PartialEq, Eq)]
pub enum SearchStep {
    /// A nonce meeting the difficulty, with its digest.
    Found(u64, String),
    /// No nonce in the chunk did; the next chunk starts here.
    Next(u64),
    /// No nonce in the chunk did, and it ended at `u64::MAX`.
    Exhausted,
}

/// The last nonce of the chunk of `len` nonces from `start`, cut at `u64::MAX`.
pub open spec fn chunk_end(start: u64, len: u64) -> u64 {
    if start + len - 1 > u64::MAX {
        u64::MAX
    } else {
        (start + len - 1) as u64
    }
}

/// Canonical text of one transaction.
pub open spec fn transaction_text(t: Transaction) -> Seq<char> {
    "{sender:"@ + framed(t.sender@) + ",recipient:"@ + framed(t.recipient@) + ",amount:"@
        + decimal(t.amount as nat) + ",signature:"@ + framed(t.signature@) + "}"@
}

/// Canonical text of a sequence of transactions, in order.
pub open spec fn transactions_text(ts: Seq<Transaction>) -> Seq<char>
    decreases ts.len(),
{
    if ts.len() == 0 {
        Seq::empty()
    } else {
        transactions_text(ts.drop_last()) + transaction_text(ts.last())
    }
}

/// Relies on `chrono::Utc::now`: the current time, as milliseconds since the
/// epoch and as `%Y-%m-%d %H:%M:%S:%3f` text. Nothing is promised of it.
#[verifier::external_body]
pub(crate) fn utc_now() -> (r: (u64, String)) {
    let now = chrono::Utc::now();
    (now.timestamp_millis() as u64, now.format("%Y-%m-%d %H:%M:%S:%3f").to_string())
}

fn push_transaction(s: &mut String, t: &Transaction)
    ensures
        final(s)@ == old(s)@ + transaction_text(*t),
{
    push_text(s, "{sender:");
    push_framed(s, &t.sender);
    push_text(s, ",recipient:");
    push_framed(s, &t.recipient);
    push_text(s, ",amount:");
    push_decimal(s, t.amount);
    push_text(s, ",signature:");
    push_framed(s, &t.signature);
    push_text(s, "}");
    assert(final(s)@ =~= old(s)@ + transaction_text(*t));
}

impl Block {
    /// Canonical text of the block with `proof_of_work` replaced by `nonce`;
    /// the `hash` field takes no part.
    pub open spec fn text_at(&self, nonce: u64) -> Seq<char> {
        "{index:"@ + decimal(self.index as nat) + ",timestamp:"@ + decimal(self.timestamp as nat)
            + ",date_time:"@ + framed(self.date_time@) + ",proof_of_work:"@ + decimal(nonce as nat)
            + ",transactions:["@ + transactions_text(self.transactions@) + "],previous_hash:"@
            + framed(self.previous_hash@) + "}"@
    }

    /// The digest the block would have with `proof_of_work == nonce`:
    /// lowercase hex of the SHA-256 of the canonical text.
    pub open spec fn digest_at(&self, nonce: u64) -> Seq<char> {
        hex_of(sha256_of(encode_utf8(self.text_at(nonce))))
    }

    /// The digest of the block as it stands.
    pub open spec fn digest(&self) -> Seq<char> {
        self.digest_at(self.proof_of_work)
    }

    /// The stored hash is the block's digest.
    pub open spec fn verifies(&self) -> bool {
        self.hash@ == self.digest()
    }

    /// The block is sealed at `difficulty`: it verifies and its hash has that
    /// many leading zeros.
    pub open spec fn sealed(&self, difficulty: nat) -> bool {
        self.verifies() && has_leading_zeros(self.hash@, difficulty)
    }

    /// `other` holds the same content: all but the proof of work and hash.
    pub open spec fn same_content(&self, other: &Block) -> bool {
        &&& self.index == other.index
        &&& self.timestamp == other.timestamp
        &&& self.date_time == other.date_time
        &&& self.transactions == other.transactions
        &&& self.previous_hash == other.previous_hash
    }

    /// A fresh, unmined block stamped with the current time.
    pub fn new(index: usize, transactions: Vec<Transaction>, previous_hash: String) -> (r: Self)
        ensures
            r.index == index,
            r.transactions == transactions,
            r.previous_hash == previous_hash,
            r.proof_of_work == 0,
            r.hash@ == Seq::<char>::empty(),
    {
        let (timestamp, date_time) = utc_now();
        Block::stamped(index, transactions, previous_hash, timestamp, date_time)
    }

    /// A fresh, unmined block with the given creation time.
    pub fn stamped(
        index: usize,
        transactions: Vec<Transaction>,
        previous_hash: String,
        timestamp: u64,
        date_time: String,
    ) -> (r: Self)
        ensures
            r.index == index,
            r.transactions == transactions,
            r.previous_hash == previous_hash,
            r.timestamp == timestamp,
            r.date_time == date_time,
            r.proof_of_work == 0,
            r.hash@ == Seq::<char>::empty(),
    {
        Block {
            index,
            timestamp,
            date_time,
            proof_of_work: 0,
            transactions,
            previous_hash,
            hash: String::new(),
        }
    }

    /// Canonical text with the given nonce in place of the proof of work.
    fn canonical_text(&self, nonce: u64) -> (r: String)
        ensures
            r@ == self.text_at(nonce),
    {
        let mut s = String::new();
        push_text(&mut s, "{index:");
        push_decimal(&mut s, self.index as u64);
        push_text(&mut s, ",timestamp:");
        push_decimal(&mut s, self.timestamp);
        push_text(&mut s, ",date_time:");
        push_framed(&mut s, &self.date_time);
        push_text(&mut s, ",proof_of_work:");
        push_decimal(&mut s, nonce);
        push_text(&mut s, ",transactions:[");
        let ghost before = s@;
        let mut i: usize = 0;
        while i < self.transactions.len()
            invariant
                i <= self.transactions@.len(),
                s@ == before + transactions_text(self.transactions@.subrange(0, i as int)),
            decreases self.transactions@.len() - i,
        {
            push_transaction(&mut s, &self.transactions[i]);
            proof {
                let ts = self.transactions@.subrange(0, i + 1);
                assert(ts.drop_last() =~= self.transactions@.subrange(0, i as int));
            }
            i = i + 1;
        }
        assert(self.transactions@.subrange(0, i as int) =~= self.transactions@);
        push_text(&mut s, "],previous_hash:");
        push_framed(&mut s, &self.previous_hash);
        push_text(&mut s, "}");
        assert(s@ =~= self.text_at(nonce));
        s
    }

    /// The digest the block would have with the given nonce as proof of work.
    pub fn hash_with_nonce(&self, nonce: u64) -> (r: String)
        ensures
            r@ == self.digest_at(nonce),
            r@.len() == 64,
    {
        let text = self.canonical_text(nonce);
        hex_string(&sha256(text.as_str().as_bytes()))
    }

    /// The block's digest, computed over its content and proof of work with
    /// the stored hash left out.
    pub fn generate_block_hash(&self) -> (r: String)
        ensures
            r@ == self.digest(),
            r@.len() == 64,
    {
        self.hash_with_nonce(self.proof_of_work)
    }

    /// Whether the stored hash is the block's digest.
    pub fn verify(&self) -> (r: bool)
        ensures
            r == self.verifies(),
            r ==> self.hash@.len() == 64,
    {
        self.generate_block_hash() == self.hash
    }

    /// Tries the nonces `first..=last` in order and returns the first whose
    /// digest meets `difficulty`, with that digest.
    pub fn find_nonce(&self, difficulty: usize, first: u64, last: u64) -> (r: Option<(u64, String)>)
        requires
            first <= last,
        ensures
            r matches Some((n, h)) ==> {
                &&& first <= n <= last
                &&& h@ == self.digest_at(n)
                &&& h@.len() == 64
                &&& has_leading_zeros(h@, difficulty as nat)
                &&& forall|m: u64|
                    first <= m < n ==> !has_leading_zeros(#[trigger] self.digest_at(m), difficulty as nat)
            },
            r is None ==> forall|m: u64|
                first <= m <= last ==> !has_leading_zeros(#[trigger] self.digest_at(m), difficulty as nat),
    {
        let mut n = first;
        loop
            invariant
                first <= n <= last,
                forall|m: u64|
                    first <= m < n ==> !has_leading_zeros(#[trigger] self.digest_at(m), difficulty as nat),
            decreases last - n,
        {
            let h = self.hash_with_nonce(n);
            if meets_difficulty(&h, difficulty) {
                return Some((n, h));
            }
            if n == last {
                return None;
            }
            n = n + 1;
        }
    }

    /// Searches the chunk of `len` nonces from `start` (cut at `u64::MAX`),
    /// and says where a worker goes next.
    pub fn search_chunk(&self, difficulty: usize, start: u64, len: u64) -> (r: SearchStep)
        requires
            len > 0,
        ensures
            r matches SearchStep::Found(n, h) ==> {
                &&& start <= n <= chunk_end(start, len)
                &&& h@ == self.digest_at(n)
                &&& h@.len() == 64
                &&& has_leading_zeros(h@, difficulty as nat)
                &&& forall|m: u64|
                    start <= m < n ==> !has_leading_zeros(#[trigger] self.digest_at(m), difficulty as nat)
            },
            !(r is Found) ==> forall|m: u64|
                start <= m <= chunk_end(start, len) ==> !has_leading_zeros(
                    #[trigger] self.digest_at(m),
                    difficulty as nat,
                ),
            r matches SearchStep::Next(next) ==> chunk_end(start, len) < u64::MAX && next
                == chunk_end(start, len) + 1,
            r is Exhausted ==> chunk_end(start, len) == u64::MAX,
    {
        let last = if start > u64::MAX - (len - 1) {
            u64::MAX
        } else {
            start + (len - 1)
        };
        match self.find_nonce(difficulty, start, last) {
            Some((n, h)) => SearchStep::Found(n, h),
            None => {
                if last == u64::MAX {
                    SearchStep::Exhausted
                } else {
                    SearchStep::Next(last + 1)
                }
            },
        }
    }

    /// Seals the block: searches the nonces from `nonce` upwards for the first
    /// whose digest has `difficulty` leading zeros, and stores it with its
    /// digest. Fails, leaving the block as it was, when every nonce up to
    /// `u64::MAX` has been tried.
    pub fn mine(&mut self, difficulty: usize, nonce: u64) -> (r: Result<(), MiningError>)
        ensures
            final(self).same_content(old(self)),
            r is Ok ==> {
                &&& final(self).sealed(difficulty as nat)
                &&& final(self).hash@.len() == 64
                &&& nonce <= final(self).proof_of_work
                &&& forall|m: u64|
                    nonce <= m < final(self).proof_of_work ==> !has_leading_zeros(
                        #[trigger] final(self).digest_at(m),
                        difficulty as nat,
                    )
            },
            r is Err ==> {
                &&& *final(self) == *old(self)
                &&& forall|m: u64|
                    nonce <= m ==> !has_leading_zeros(#[trigger] old(self).digest_at(m), difficulty as nat)
            },
    {
        match self.find_nonce(difficulty, nonce, u64::MAX) {
            Some((n, h)) => {
                self.proof_of_work = n;
                self.hash = h;
                proof {
                    assert(final(self).text_at(n) =~= old(self).text_at(n));
                    assert forall|m: u64| nonce <= m < n implies
                        !has_leading_zeros(#[trigger] self.digest_at(m), difficulty as nat) by {
                        assert(self.text_at(m) =~= old(self).text_at(m));
                        assert(self.digest_at(m) == old(self).digest_at(m));
                    }
                }
                Ok(())
            },
            None => Err(MiningError::NoncesExhausted),
        }
    }
}

/// The canonical text that is hashed tells proofs of work apart: two distinct
/// nonces give two distinct texts, so their digests differ unless SHA-256
/// collides.
pub proof fn lemma_text_separates_nonces(b: &Block, n1: u64, n2: u64)
    requires
        n1 != n2,
    ensures
        b.text_at(n1) != b.text_at(n2),
{
    let p = "{index:"@ + decimal(b.index as nat) + ",timestamp:"@ + decimal(b.timestamp as nat)
        + ",date_time:"@ + framed(b.date_time@) + ",proof_of_work:"@;
    let q = ",transactions:["@ + transactions_text(b.transactions@) + "],previous_hash:"@
        + framed(b.previous_hash@) + "}"@;
    let d1 = decimal(n1 as nat);
    let d2 = decimal(n2 as nat);
    assert(b.text_at(n1) =~= p + d1 + q);
    assert(b.text_at(n2) =~= p + d2 + q);
    if b.text_at(n1) == b.text_at(n2) {
        assert(d1.len() == d2.len());
        assert(d1 =~= b.text_at(n1).subrange(p.len() as int, p.len() + d1.len() as int));
        assert(d2 =~= b.text_at(n2).subrange(p.len() as int, p.len() + d2.len() as int));
        lemma_decimal_injective(n1 as nat, n2 as nat);
    }
}

/// The canonical text tells previous hashes apart: two blocks that differ
/// only in `previous_hash` have distinct texts under any nonce, so their
/// digests differ unless SHA-256 collides.
pub proof fn lemma_text_separates_previous_hash(a: &Block, b: &Block, nonce: u64)
    requires
        a.index == b.index,
        a.timestamp == b.timestamp,
        a.date_time@ == b.date_time@,
        a.transactions@ == b.transactions@,
        a.previous_hash@ != b.previous_hash@,
    ensures
        a.text_at(nonce) != b.text_at(nonce),
{
    let r = "{index:"@ + decimal(a.index as nat) + ",timestamp:"@ + decimal(a.timestamp as nat)
        + ",date_time:"@ + framed(a.date_time@) + ",proof_of_work:"@ + decimal(nonce as nat)
        + ",transactions:["@ + transactions_text(a.transactions@) + "],previous_hash:"@;
    let fa = framed(a.previous_hash@);
    let fb = framed(b.previous_hash@);
    assert(a.text_at(nonce) =~= r + fa + "}"@);
    assert(b.text_at(nonce) =~= r + fb + "}"@);
    if a.text_at(nonce) == b.text_at(nonce) {
        assert(r + fa + "}"@ =~= r + (fa + "}"@));
        assert(r + fb + "}"@ =~= r + (fb + "}"@));
        lemma_strip_prefix(r, fa + "}"@, fb + "}"@);
        lemma_framed_prefix(a.previous_hash@, b.previous_hash@, "}"@, "}"@);
    }
}

/// The fields of a transaction that its canonical text carries.
pub open spec fn transaction_fields(t: Transaction) -> (Seq<char>, Seq<char>, u64, Seq<char>) {
    (t.sender@, t.recipient@, t.amount, t.signature@)
}

/// Two transaction sequences of the same length whose members carry the same
/// fields, position by position.
pub open spec fn same_fields(s1: Seq<Transaction>, s2: Seq<Transaction>) -> bool {
    &&& s1.len() == s2.len()
    &&& forall|i: int|
        0 <= i < s1.len() ==> transaction_fields(#[trigger] s1[i]) == transaction_fields(s2[i])
}

/// The canonical text of a transaction reads back uniquely, whatever follows.
proof fn lemma_transaction_prefix(t1: Transaction, t2: Transaction, x: Seq<char>, y: Seq<char>)
    requires
        transaction_text(t1) + x == transaction_text(t2) + y,
    ensures
        transaction_fields(t1) == transaction_fields(t2),
        x == y,
{
    let l1 = "{sender:"@;
    let l2 = ",recipient:"@;
    let l3 = ",amount:"@;
    let l4 = ",signature:"@;
    let l5 = "}"@;
    let g1 = framed(t1.signature@) + (l5 + x);
    let g2 = framed(t2.signature@) + (l5 + y);
    let a1 = decimal(t1.amount as nat) + (l4 + g1);
    let a2 = decimal(t2.amount as nat) + (l4 + g2);
    let r1 = framed(t1.recipient@) + (l3 + a1);
    let r2 = framed(t2.recipient@) + (l3 + a2);
    let s1 = framed(t1.sender@) + (l2 + r1);
    let s2 = framed(t2.sender@) + (l2 + r2);
    lemma_transaction_text_tail(t1, x);
    lemma_transaction_text_tail(t2, y);
    lemma_strip_prefix(l1, s1, s2);
    lemma_framed_prefix(t1.sender@, t2.sender@, l2 + r1, l2 + r2);
    lemma_strip_prefix(l2, r1, r2);
    lemma_framed_prefix(t1.recipient@, t2.recipient@, l3 + a1, l3 + a2);
    lemma_strip_prefix(l3, a1, a2);
    reveal_strlit(",signature:");
    assert((l4 + g1)[0] == ',');
    assert((l4 + g2)[0] == ',');
    lemma_decimal_prefix(t1.amount as nat, t2.amount as nat, l4 + g1, l4 + g2);
    lemma_strip_prefix(l4, g1, g2);
    lemma_framed_prefix(t1.signature@, t2.signature@, l5 + x, l5 + y);
    lemma_strip_prefix(l5, x, y);
}

proof fn lemma_assoc(a: Seq<char>, b: Seq<char>, c: Seq<char>)
    ensures
        (a + b) + c == a + (b + c),
{
    assert((a + b) + c =~= a + (b + c));
}

/// The canonical text of a transaction followed by `x`, regrouped from the
/// right.
proof fn lemma_transaction_text_tail(t: Transaction, x: Seq<char>)
    ensures
        transaction_text(t) + x == "{sender:"@ + (framed(t.sender@) + (",recipient:"@ + (framed(
            t.recipient@,
        ) + (",amount:"@ + (decimal(t.amount as nat) + (",signature:"@ + (framed(t.signature@) + (
        "}"@ + x)))))))),
{
    let l1 = "{sender:"@;
    let l2 = ",recipient:"@;
    let l3 = ",amount:"@;
    let l4 = ",signature:"@;
    let l5 = "}"@;
    let fs = framed(t.sender@);
    let fr = framed(t.recipient@);
    let d = decimal(t.amount as nat);
    let fg = framed(t.signature@);
    let p1 = l1 + fs;
    let p2 = p1 + l2;
    let p3 = p2 + fr;
    let p4 = p3 + l3;
    let p5 = p4 + d;
    let p6 = p5 + l4;
    let p7 = p6 + fg;
    assert(transaction_text(t) == p7 + l5);
    lemma_assoc(p7, l5, x);
    lemma_assoc(p6, fg, l5 + x);
    lemma_assoc(p5, l4, fg + (l5 + x));
    lemma_assoc(p4, d, l4 + (fg + (l5 + x)));
    lemma_assoc(p3, l3, d + (l4 + (fg + (l5 + x))));
    lemma_assoc(p2, fr, l3 + (d + (l4 + (fg + (l5 + x)))));
    lemma_assoc(p1, l2, fr + (l3 + (d + (l4 + (fg + (l5 + x))))));
    lemma_assoc(l1, fs, l2 + (fr + (l3 + (d + (l4 + (fg + (l5 + x)))))));
}

/// The canonical text of a transaction opens with a brace.
proof fn lemma_transaction_opens(t: Transaction)
    ensures
        transaction_text(t).len() > 0,
        transaction_text(t)[0] == '{',
{
    reveal_strlit("{sender:");
    let rest = framed(t.sender@) + ",recipient:"@ + framed(t.recipient@) + ",amount:"@ + decimal(
        t.amount as nat,
    ) + ",signature:"@ + framed(t.signature@) + "}"@;
    assert(transaction_text(t) =~= "{sender:"@ + rest);
}

/// The canonical text of a non-empty sequence, read from the front.
proof fn lemma_transactions_front(s: Seq<Transaction>)
    requires
        s.len() > 0,
    ensures
        transactions_text(s) == transaction_text(s[0]) + transactions_text(s.drop_first()),
    decreases s.len(),
{
    if s.len() == 1 {
        assert(s.drop_last().len() == 0);
        assert(s.drop_first().len() == 0);
        assert(transactions_text(s.drop_last()) == Seq::<char>::empty());
        assert(transactions_text(s.drop_first()) == Seq::<char>::empty());
        assert(transactions_text(s) == transactions_text(s.drop_last()) + transaction_text(s.last()));
        assert(transactions_text(s) =~= transaction_text(s[0]) + transactions_text(s.drop_first()));
    } else {
        lemma_transactions_front(s.drop_last());
        assert(s.drop_last().drop_first() =~= s.drop_first().drop_last());
        assert(transactions_text(s) == transactions_text(s.drop_last()) + transaction_text(s.last()));
        assert(transactions_text(s.drop_first()) == transactions_text(s.drop_first().drop_last())
            + transaction_text(s.drop_first().last()));
        assert(s.drop_last()[0] == s[0]);
        assert(s.drop_first().last() == s.last());
        lemma_assoc(
            transaction_text(s[0]),
            transactions_text(s.drop_last().drop_first()),
            transaction_text(s.last()),
        );
    }
}

/// The canonical text of a non-empty sequence opens with a brace.
proof fn lemma_transactions_open(s: Seq<Transaction>, x: Seq<char>)
    requires
        s.len() > 0,
    ensures
        (transactions_text(s) + x)[0] == '{',
{
    lemma_transactions_front(s);
    lemma_transaction_opens(s[0]);
    lemma_assoc(transaction_text(s[0]), transactions_text(s.drop_first()), x);
    assert((transaction_text(s[0]) + (transactions_text(s.drop_first()) + x))[0]
        == transaction_text(s[0])[0]);
}

/// The canonical text of a transaction sequence, followed by `]`, reads back
/// uniquely.
proof fn lemma_transactions_prefix(s1: Seq<Transaction>, s2: Seq<Transaction>, x: Seq<char>, y: Seq<char>)
    requires
        transactions_text(s1) + x == transactions_text(s2) + y,
        x.len() > 0,
        y.len() > 0,
        x[0] == ']',
        y[0] == ']',
    ensures
        same_fields(s1, s2),
        x == y,
    decreases s1.len(),
{
    if s1.len() == 0 && s2.len() == 0 {
        assert(x =~= transactions_text(s1) + x);
        assert(y =~= transactions_text(s2) + y);
    } else if s1.len() == 0 {
        lemma_transactions_open(s2, y);
        assert(x =~= transactions_text(s1) + x);
    } else if s2.len() == 0 {
        lemma_transactions_open(s1, x);
        assert(y =~= transactions_text(s2) + y);
    } else {
        lemma_transactions_front(s1);
        lemma_transactions_front(s2);
        let r1 = transactions_text(s1.drop_first()) + x;
        let r2 = transactions_text(s2.drop_first()) + y;
        lemma_assoc(transaction_text(s1[0]), transactions_text(s1.drop_first()), x);
        lemma_assoc(transaction_text(s2[0]), transactions_text(s2.drop_first()), y);
        lemma_transaction_prefix(s1[0], s2[0], r1, r2);
        lemma_transactions_prefix(s1.drop_first(), s2.drop_first(), x, y);
        assert forall|i: int| 0 <= i < s1.len() implies transaction_fields(#[trigger] s1[i])
            == transaction_fields(s2[i]) by {
            if i > 0 {
                assert(s1[i] == s1.drop_first()[i - 1]);
                assert(s2[i] == s2.drop_first()[i - 1]);
            }
        }
    }
}

/// The canonical text tells transaction lists apart: two blocks that differ
/// only in their transactions (in how many there are, or in the sender,
/// recipient, amount or signature of one of them) have distinct texts under
/// any nonce, so their digests differ unless SHA-256 collides.
pub proof fn lemma_text_separates_transactions(a: &Block, b: &Block, nonce: u64)
    requires
        a.index == b.index,
        a.timestamp == b.timestamp,
        a.date_time@ == b.date_time@,
        a.previous_hash@ == b.previous_hash@,
        !same_fields(a.transactions@, b.transactions@),
    ensures
        a.text_at(nonce) != b.text_at(nonce),
{
    let p = "{index:"@ + decimal(a.index as nat) + ",timestamp:"@ + decimal(a.timestamp as nat)
        + ",date_time:"@ + framed(a.date_time@) + ",proof_of_work:"@ + decimal(nonce as nat)
        + ",transactions:["@;
    let q = "],previous_hash:"@ + framed(a.previous_hash@) + "}"@;
    let ta = transactions_text(a.transactions@);
    let tb = transactions_text(b.transactions@);
    assert(a.text_at(nonce) =~= p + (ta + q));
    assert(b.text_at(nonce) =~= p + (tb + q));
    if a.text_at(nonce) == b.text_at(nonce) {
        lemma_strip_prefix(p, ta + q, tb + q);
        reveal_strlit("],previous_hash:");
        assert(q[0] == ']');
        lemma_transactions_prefix(a.transactions@, b.transactions@, q, q);
    }
}

} // verus!
