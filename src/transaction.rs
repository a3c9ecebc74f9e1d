//! Signed value transfers, and the pending pool built from them.
use vstd::prelude::*;
use vstd::utf8::encode_utf8;
use crate::crypto::{
    public_key_of, sha256, sha256_of, sign_digest, signature_of, signature_verifies, verify_digest,
};
use crate::text::{
    decimal, framed, lemma_decimal_injective, lemma_framed_prefix, push_decimal, push_framed,
};
use crate::wallet::Wallet;

verus! {

#[derive(Clone, Debug)]
pub struct Transaction {
    pub sender: String,
    pub recipient: String,
    /// Whole units transferred.
    pub amount: u64,
    /// Hex of the DER signature over `create_message`, or empty where signing failed.
    pub signature: String,
}

/// The text that is hashed for signing: sender and recipient, each framed by
/// its length, then the decimal amount.
pub open spec fn message_text(sender: Seq<char>, recipient: Seq<char>, amount: u64) -> Seq<char> {
    framed(sender) + framed(recipient) + decimal(amount as nat)
}

/// The signed text tells transactions apart: distinct senders, recipients or
/// amounts give distinct texts, so any change to them changes the digest that
/// the signature covers, unless SHA-256 collides.
pub proof fn lemma_message_text_injective(
    s1: Seq<char>,
    r1: Seq<char>,
    a1: u64,
    s2: Seq<char>,
    r2: Seq<char>,
    a2: u64,
)
    requires
        message_text(s1, r1, a1) == message_text(s2, r2, a2),
    ensures
        s1 == s2,
        r1 == r2,
        a1 == a2,
{
    let d1 = decimal(a1 as nat);
    let d2 = decimal(a2 as nat);
    assert(message_text(s1, r1, a1) =~= framed(s1) + (framed(r1) + d1));
    assert(message_text(s2, r2, a2) =~= framed(s2) + (framed(r2) + d2));
    lemma_framed_prefix(s1, s2, framed(r1) + d1, framed(r2) + d2);
    lemma_framed_prefix(r1, r2, d1, d2);
    lemma_decimal_injective(a1 as nat, a2 as nat);
}

/// The 32-byte digest that a transaction's signature covers.
pub open spec fn message_digest(sender: Seq<char>, recipient: Seq<char>, amount: u64) -> Seq<u8> {
    sha256_of(encode_utf8(message_text(sender, recipient, amount)))
}

/// What signing a digest with a secret key stores: the signature, or the
/// empty text where the key cannot sign.
pub open spec fn stored_signature(secret: Seq<u8>, digest: Seq<u8>) -> Seq<char> {
    match signature_of(secret, digest) {
        Some(s) => s,
        None => Seq::empty(),
    }
}

impl Transaction {
    pub open spec fn digest_spec(&self) -> Seq<u8> {
        message_digest(self.sender@, self.recipient@, self.amount)
    }

    /// The signature checks out under `public`.
    pub open spec fn verifies_under(&self, public: Seq<u8>) -> bool {
        signature_verifies(public, self.digest_spec(), self.signature@)
    }

    /// A transaction signed with the wallet's secret key.
    pub fn new(sender: String, recipient: String, amount: u64, wallet: &Wallet) -> (r: Self)
        ensures
            r.sender@ == sender@,
            r.recipient@ == recipient@,
            r.amount == amount,
            r.signature@ == stored_signature(
                wallet.sec_key@,
                message_digest(sender@, recipient@, amount),
            ),
            wallet.wf() ==> r.verifies_under(wallet.pub_key@),
    {
        let mut transaction = Transaction { sender, recipient, amount, signature: String::new() };
        transaction.sign(wallet.sec_key());
        transaction
    }

    /// Replaces the signature by one made with `secret_key`.
    pub fn sign(&mut self, secret_key: &Vec<u8>)
        ensures
            final(self).sender == old(self).sender,
            final(self).recipient == old(self).recipient,
            final(self).amount == old(self).amount,
            final(self).signature@ == stored_signature(secret_key@, old(self).digest_spec()),
            public_key_of(secret_key@) matches Some(p) ==> final(self).verifies_under(p),
    {
        let message = self.create_message();
        self.signature = match sign_digest(secret_key.as_slice(), message.as_slice()) {
            Some(s) => s,
            None => String::new(),
        };
    }

    /// The SHA-256 digest of the framed sender and recipient and the decimal
    /// amount.
    pub fn create_message(&self) -> (r: Vec<u8>)
        ensures
            r@ == self.digest_spec(),
            r@.len() == 32,
    {
        let mut text = String::new();
        push_framed(&mut text, &self.sender);
        push_framed(&mut text, &self.recipient);
        push_decimal(&mut text, self.amount);
        assert(text@ =~= message_text(self.sender@, self.recipient@, self.amount));
        sha256(text.as_str().as_bytes())
    }

    /// Whether the stored signature verifies under `public_key`.
    pub fn verify(&self, public_key: &Vec<u8>) -> (r: bool)
        ensures
            r == self.verifies_under(public_key@),
            self.signature@.len() == 0 ==> !r,
            public_key@.len() == 0 ==> !r,
    {
        let message = self.create_message();
        verify_digest(public_key.as_slice(), message.as_slice(), self.signature.as_str())
    }

    /// The amount does not exceed the wallet's balance.
    pub fn check_balance(&self, wallet: &Wallet) -> (r: bool)
        ensures
            r == (self.amount as int <= wallet.balance as int),
    {
        wallet.balance() >= 0 && self.amount <= wallet.balance() as u64
    }

    pub fn amount(&self) -> (r: u64)
        ensures
            r == self.amount,
    {
        self.amount
    }

    pub fn sender(&self) -> (r: String)
        ensures
            r@ == self.sender@,
    {
        self.sender.clone()
    }

    pub fn recipient(&self) -> (r: String)
        ensures
            r@ == self.recipient@,
    {
        self.recipient.clone()
    }
}

/// A candidate enters the pool when the sender's wallet can afford it and its
/// signature verifies under the wallet's public key.
pub open spec fn admissible(t: Transaction, wallet: &Wallet) -> bool {
    t.amount as int <= wallet.balance as int && t.verifies_under(wallet.pub_key@)
}

/// The admissible candidates, in their original order.
pub open spec fn pool_of(candidates: Seq<Transaction>, wallet: &Wallet) -> Seq<Transaction>
    decreases candidates.len(),
{
    if candidates.len() == 0 {
        Seq::empty()
    } else {
        let rest = pool_of(candidates.drop_last(), wallet);
        if admissible(candidates.last(), wallet) {
            rest.push(candidates.last())
        } else {
            rest
        }
    }
}

/// Filters the candidates of one sender down to those the sender can afford
/// and has validly signed; the others are dropped, not fatal.
pub fn build_pool(candidates: Vec<Transaction>, wallet: &Wallet) -> (r: Vec<Transaction>)
    ensures
        r@ == pool_of(candidates@, wallet),
{
    let mut rest = candidates;
    let mut pool: Vec<Transaction> = Vec::new();
    let ghost all = rest@;
    assert(all.len() == rest.len());
    let mut i: usize = 0;
    while rest.len() > 0
        invariant
            i + rest@.len() == all.len(),
            all.len() <= usize::MAX,
            rest@ == all.subrange(i as int, all.len() as int),
            pool@ == pool_of(all.subrange(0, i as int), wallet),
        decreases rest.len(),
    {
        let t = rest.remove(0);
        proof {
            assert(all.subrange(0, i + 1).drop_last() =~= all.subrange(0, i as int));
        }
        if t.check_balance(wallet) && t.verify(wallet.pub_key()) {
            pool.push(t);
        }
        i = i + 1;
        assert(rest@ =~= all.subrange(i as int, all.len() as int));
    }
    assert(all.subrange(0, i as int) =~= all);
    pool
}

} // verus!
