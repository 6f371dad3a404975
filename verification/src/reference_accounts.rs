use vstd::prelude::*;
use crate::keys::{contains_key, copy_keys, key_views, keys_without, lemma_without_key, without_key};
use crate::pubkey::Pubkey;
use crate::storage::{opt_text, read_stored_keys, stored_keys, stored_keys_of, write_stored_keys, PersistError};

verus! {

/// The reference accounts whose follows are whitelisted.
#[derive(Debug)]
pub struct ReferenceAccounts {
    accounts: Vec<Pubkey>,
}

impl ReferenceAccounts {
    /// The reference accounts, in order.
    pub closed spec fn keys(&self) -> Seq<Seq<u8>> {
        key_views(self.accounts@)
    }

    /// The reference accounts that the stored JSON text lists (the contents of the
    /// reference accounts file, where one could be read); invalid entries are skipped.
    pub fn new(stored: Option<&str>) -> (r: ReferenceAccounts)
        ensures
            r.keys() == stored_keys_of(opt_text(stored)),
    {
        ReferenceAccounts { accounts: read_stored_keys(stored) }
    }

    /// All reference accounts.
    pub fn list(&self) -> (r: Vec<Pubkey>)
        ensures
            key_views(r@) == self.keys(),
    {
        copy_keys(&self.accounts)
    }

    /// Adds a reference account; returns whether it was new (it is appended only then).
    pub fn add(&mut self, pk: Pubkey) -> (r: bool)
        ensures
            r == !old(self).keys().contains(pk@),
            final(self).keys() == (if r {
                old(self).keys().push(pk@)
            } else {
                old(self).keys()
            }),
    {
        if contains_key(&self.accounts, &pk) {
            return false;
        }
        self.accounts.push(pk);
        assert(self.keys() =~= old(self).keys().push(pk@));
        true
    }

    /// Removes every entry of a reference account; returns whether there was one.
    pub fn remove(&mut self, pk: &Pubkey) -> (r: bool)
        ensures
            r == old(self).keys().contains(pk@),
            final(self).keys() == without_key(old(self).keys(), pk@),
    {
        let kept = keys_without(&self.accounts, pk);
        let len_before = self.accounts.len();
        proof {
            lemma_without_key(old(self).keys(), pk@);
        }
        self.accounts = kept;
        self.accounts.len() < len_before
    }

    /// The text to store in the reference accounts file: a pretty JSON array of
    /// lowercase hexadecimal keys, always produced. Reading it back gives the same accounts.
    pub fn persist(&self) -> (r: Result<String, PersistError>)
        ensures
            r is Ok,
            r matches Ok(text) ==> stored_keys(text@) == self.keys(),
            r matches Ok(text) ==> text@ == crate::json::json_pretty_string_list(
                crate::keys::key_texts(self.keys()),
            ),
    {
        write_stored_keys(&self.accounts)
    }

    /// The number of reference accounts.
    pub fn len(&self) -> (r: usize)
        ensures
            r == self.keys().len(),
    {
        self.accounts.len()
    }
}

} // verus!
