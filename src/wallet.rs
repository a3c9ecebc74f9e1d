//! A wallet: a named key pair derived from a secret phrase, and a balance in
//! whole units.
use vstd::prelude::*;
use vstd::utf8::encode_utf8;
use crate::crypto::{derive_public_key, public_key_of, sha256, sha256_of};

verus! {

/// The balance every new wallet starts with.
pub const INITIAL_BALANCE: i64 = 1000;

#[derive(Clone, Debug)]
pub struct Wallet {
    pub name: String,
    /// The 32-byte secp256k1 secret key.
    pub sec_key: Vec<u8>,
    /// The 33-byte compressed public key of `sec_key`.
    pub pub_key: Vec<u8>,
    pub balance: i64,
}

impl Wallet {
    /// The keys belong together.
    pub open spec fn wf(&self) -> bool {
        public_key_of(self.sec_key@) == Some(self.pub_key@)
    }

    /// A wallet whose secret key is the SHA-256 digest of `secret`, with the
    /// initial balance; `None` where that digest is not a valid secret key.
    pub fn new(name: String, secret: String) -> (r: Option<Self>)
        ensures
            r is Some <==> public_key_of(sha256_of(encode_utf8(secret@))) is Some,
            r matches Some(w) ==> {
                &&& w.wf()
                &&& w.name@ == name@
                &&& w.sec_key@ == sha256_of(encode_utf8(secret@))
                &&& w.balance == INITIAL_BALANCE
            },
    {
        let sec_key = sha256(secret.as_str().as_bytes());
        match derive_public_key(sec_key.as_slice()) {
            Some(pub_key) => Some(Wallet { name, sec_key, pub_key, balance: INITIAL_BALANCE }),
            None => None,
        }
    }

    pub fn sec_key(&self) -> (r: &Vec<u8>)
        ensures
            r == &self.sec_key,
    {
        &self.sec_key
    }

    pub fn pub_key(&self) -> (r: &Vec<u8>)
        ensures
            r == &self.pub_key,
    {
        &self.pub_key
    }

    pub fn balance(&self) -> (r: i64)
        ensures
            r == self.balance,
    {
        self.balance
    }

    pub fn name(&self) -> (r: String)
        ensures
            r@ == self.name@,
    {
        self.name.clone()
    }

    /// Deducts `amount` from the balance (a negative amount credits).
    pub fn update_balance(&mut self, amount: i64)
        requires
            i64::MIN <= old(self).balance - amount <= i64::MAX,
        ensures
            final(self).balance == old(self).balance - amount,
            final(self).name == old(self).name,
            final(self).sec_key == old(self).sec_key,
            final(self).pub_key == old(self).pub_key,
    {
        self.balance = self.balance - amount;
    }
}

} // verus!
