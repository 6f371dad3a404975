use vstd::prelude::*;
use crate::keys::{
    contains_key, copy_keys, extend_unique, extend_with_new_keys, key_views, keys_without,
    lemma_extend_unique, lemma_without_key, without_key,
};
use crate::pubkey::Pubkey;
use crate::storage::{opt_text, read_stored_keys, stored_keys, stored_keys_of, write_stored_keys, PersistError};

verus! {

broadcast use vstd::seq_lib::group_seq_properties;

/// The relay's whitelist: keys added by hand (configuration and runtime changes) and
/// keys derived from the follow lists of reference accounts.
#[derive(Debug)]
pub struct Whitelist {
    manual: Vec<Pubkey>,
    follow_derived: Vec<Pubkey>,
}

impl Whitelist {
    /// The keys added by hand, in order.
    pub closed spec fn manual_keys(&self) -> Seq<Seq<u8>> {
        key_views(self.manual@)
    }

    /// The follow-derived keys, in order.
    pub closed spec fn follow_keys(&self) -> Seq<Seq<u8>> {
        key_views(self.follow_derived@)
    }

    /// All whitelisted keys: the manual ones, then each follow-derived key that is not
    /// listed yet.
    pub open spec fn listed_keys(&self) -> Seq<Seq<u8>> {
        extend_unique(self.manual_keys(), self.follow_keys())
    }

    /// A whitelist of `initial`, followed by each key of the stored runtime overrides
    /// (the JSON text of the runtime file, where one could be read) that is not in it
    /// yet; invalid entries are skipped. Nothing is follow-derived yet.
    pub fn new(initial: Vec<Pubkey>, runtime_overrides: Option<&str>) -> (w: Whitelist)
        ensures
            w.manual_keys() == extend_unique(key_views(initial@), stored_keys_of(opt_text(runtime_overrides))),
            w.follow_keys() == Seq::<Seq<u8>>::empty(),
    {
        let mut pubkeys = initial;
        let stored = read_stored_keys(runtime_overrides);
        extend_with_new_keys(&mut pubkeys, &stored);
        let w = Whitelist { manual: pubkeys, follow_derived: Vec::new() };
        assert(w.follow_keys() =~= Seq::<Seq<u8>>::empty());
        w
    }

    /// Whether `pk` is whitelisted by hand or by follow.
    pub fn contains(&self, pk: &Pubkey) -> (r: bool)
        ensures
            r == (self.manual_keys().contains(pk@) || self.follow_keys().contains(pk@)),
    {
        contains_key(&self.manual, pk) || contains_key(&self.follow_derived, pk)
    }

    /// Whether nothing is whitelisted at all, which means no restriction.
    pub fn is_empty(&self) -> (r: bool)
        ensures
            r == (self.manual_keys().len() == 0 && self.follow_keys().len() == 0),
    {
        self.manual.len() == 0 && self.follow_derived.len() == 0
    }

    /// All whitelisted keys: the manual ones, then the follow-derived ones not listed yet.
    pub fn list(&self) -> (r: Vec<Pubkey>)
        ensures
            key_views(r@) == self.listed_keys(),
    {
        let mut combined = copy_keys(&self.manual);
        extend_with_new_keys(&mut combined, &self.follow_derived);
        combined
    }

    /// The keys added by hand.
    pub fn list_manual(&self) -> (r: Vec<Pubkey>)
        ensures
            key_views(r@) == self.manual_keys(),
    {
        copy_keys(&self.manual)
    }

    /// The follow-derived keys.
    pub fn list_follow_derived(&self) -> (r: Vec<Pubkey>)
        ensures
            key_views(r@) == self.follow_keys(),
    {
        copy_keys(&self.follow_derived)
    }

    /// Adds `pk` by hand; returns whether it was new there (it is appended only then).
    pub fn add(&mut self, pk: Pubkey) -> (r: bool)
        ensures
            r == !old(self).manual_keys().contains(pk@),
            final(self).manual_keys() == (if r {
                old(self).manual_keys().push(pk@)
            } else {
                old(self).manual_keys()
            }),
            final(self).follow_keys() == old(self).follow_keys(),
    {
        if contains_key(&self.manual, &pk) {
            return false;
        }
        self.manual.push(pk);
        assert(self.manual_keys() =~= old(self).manual_keys().push(pk@));
        true
    }

    /// Removes every manual entry of `pk`; returns whether there was one.
    pub fn remove(&mut self, pk: &Pubkey) -> (r: bool)
        ensures
            r == old(self).manual_keys().contains(pk@),
            final(self).manual_keys() == without_key(old(self).manual_keys(), pk@),
            final(self).follow_keys() == old(self).follow_keys(),
    {
        let kept = keys_without(&self.manual, pk);
        let len_before = self.manual.len();
        proof {
            lemma_without_key(old(self).manual_keys(), pk@);
        }
        self.manual = kept;
        self.manual.len() < len_before
    }

    /// The number of distinct whitelisted keys, whether added by hand or derived.
    pub open spec fn distinct_count(&self) -> nat {
        self.manual_keys().to_set().union(self.follow_keys().to_set()).len()
    }

    /// The number of whitelisted keys, manual and follow-derived, each counted once.
    pub fn len(&self) -> (r: usize)
        ensures
            r == self.distinct_count(),
    {
        let mut distinct: Vec<Pubkey> = Vec::new();
        assert(key_views(distinct@) =~= Seq::<Seq<u8>>::empty());
        extend_with_new_keys(&mut distinct, &self.manual);
        extend_with_new_keys(&mut distinct, &self.follow_derived);
        proof {
            let none = Seq::<Seq<u8>>::empty();
            let once = extend_unique(none, self.manual_keys());
            let twice = extend_unique(once, self.follow_keys());
            lemma_extend_unique(none, self.manual_keys());
            lemma_extend_unique(once, self.follow_keys());
            assert(key_views(distinct@) == twice);
            assert(twice.to_set() =~= self.manual_keys().to_set().union(self.follow_keys().to_set()));
            twice.unique_seq_to_set();
        }
        distinct.len()
    }

    /// Replaces the follow-derived keys.
    pub fn set_follow_derived(&mut self, pubkeys: Vec<Pubkey>)
        ensures
            final(self).follow_keys() == key_views(pubkeys@),
            final(self).manual_keys() == old(self).manual_keys(),
    {
        self.follow_derived = pubkeys;
    }

    /// The text to store in the runtime whitelist file: the manual keys as a pretty JSON
    /// array of lowercase hexadecimal strings, always produced. Reading it back gives the
    /// same keys.
    pub fn persist(&self) -> (r: Result<String, PersistError>)
        ensures
            r is Ok,
            r matches Ok(text) ==> stored_keys(text@) == self.manual_keys(),
            r matches Ok(text) ==> text@ == crate::json::json_pretty_string_list(
                crate::keys::key_texts(self.manual_keys()),
            ),
    {
        write_stored_keys(&self.manual)
    }
}

/// A key is listed exactly when it is whitelisted by hand or by follow, and the manual
/// keys come first in the list, unchanged.
pub proof fn lemma_listed_is_union(w: &Whitelist, k: Seq<u8>)
    ensures
        w.listed_keys().contains(k) <==> (w.manual_keys().contains(k) || w.follow_keys().contains(k)),
        w.listed_keys().subrange(0, w.manual_keys().len() as int) == w.manual_keys(),
{
    lemma_extend_unique(w.manual_keys(), w.follow_keys());
}

/// Where no key was added twice by hand, the list holds no key twice, so its length
/// is the number of distinct whitelisted keys, which `len` returns.
pub proof fn lemma_len_counts_distinct(w: &Whitelist)
    requires
        w.manual_keys().no_duplicates(),
    ensures
        w.listed_keys().no_duplicates(),
        w.listed_keys().len() == w.distinct_count(),
{
    lemma_extend_unique(w.manual_keys(), w.follow_keys());
    w.listed_keys().unique_seq_to_set();
    assert(w.listed_keys().to_set() =~= w.manual_keys().to_set().union(w.follow_keys().to_set()));
}

/// The whitelist is empty exactly when it lists no key.
pub proof fn lemma_empty_iff_nothing_listed(w: &Whitelist)
    ensures
        (w.manual_keys().len() == 0 && w.follow_keys().len() == 0) <==> w.listed_keys().len() == 0,
{
    lemma_extend_unique(w.manual_keys(), w.follow_keys());
    if w.follow_keys().len() > 0 {
        assert(w.follow_keys().contains(w.follow_keys()[0]));
        assert(w.listed_keys().contains(w.follow_keys()[0]));
    }
    if w.manual_keys().len() == 0 && w.follow_keys().len() == 0 {
        assert(w.follow_keys() =~= Seq::<Seq<u8>>::empty());
        assert(w.listed_keys() == w.manual_keys());
    }
}

/// Adding a key by hand and then removing it gives back the manual keys as they were,
/// where the key was not among them.
pub proof fn lemma_add_then_remove(manual: Seq<Seq<u8>>, k: Seq<u8>)
    requires
        !manual.contains(k),
    ensures
        without_key(manual.push(k), k) == manual,
{
    let p = crate::keys::other_than(k);
    manual.lemma_filter_push(k, p);
    lemma_without_key(manual, k);
}

/// Appending a key that is not present keeps a list free of repeats.
pub proof fn lemma_push_unique(s: Seq<Seq<u8>>, x: Seq<u8>)
    requires
        s.no_duplicates(),
        !s.contains(x),
    ensures
        s.push(x).no_duplicates(),
{
    assert forall|i: int, j: int| 0 <= i < s.push(x).len() && 0 <= j < s.push(x).len() && i != j
        implies s.push(x)[i] != s.push(x)[j] by {
        if i == s.len() {
            assert(s[j] == s.push(x)[j]);
        } else if j == s.len() {
            assert(s[i] == s.push(x)[i]);
        }
    }
}

/// Adding and removing by hand keep the manual keys free of repeats.
pub proof fn lemma_changes_keep_manual_unique(manual: Seq<Seq<u8>>, k: Seq<u8>)
    requires
        manual.no_duplicates(),
    ensures
        !manual.contains(k) ==> manual.push(k).no_duplicates(),
        without_key(manual, k).no_duplicates(),
    decreases manual.len(),
{
    if !manual.contains(k) {
        lemma_push_unique(manual, k);
    }
    if manual.len() > 0 {
        let p = crate::keys::other_than(k);
        let init = manual.drop_last();
        assert(init.no_duplicates());
        lemma_changes_keep_manual_unique(init, k);
        assert(init.push(manual.last()) =~= manual);
        init.lemma_filter_push(manual.last(), p);
        lemma_without_key(init, k);
        assert(!init.contains(manual.last())) by {
            if init.contains(manual.last()) {
                let j = choose|j: int| 0 <= j < init.len() && init[j] == manual.last();
                assert(manual[j] == manual[manual.len() - 1]);
            }
        }
        if p(manual.last()) {
            lemma_push_unique(without_key(init, k), manual.last());
        }
    } else {
        assert(without_key(manual, k) =~= manual) by {
            reveal(Seq::filter);
        }
    }
}

} // verus!
