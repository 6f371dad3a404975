use vstd::prelude::*;
use crate::event::tag_views;
use crate::keys::{contains_key, key_views};
use crate::pubkey::{is_key_hex, key_from_hex_text, nostr_key_from_hex, Pubkey};
use crate::storage::{opt_text, read_stored_keys, stored_keys, stored_keys_of, write_stored_keys, PersistError};
use crate::text::str_equals;

verus! {

broadcast use vstd::seq_lib::group_seq_properties;

/// A kind-3 contact list event, as fetched from a relay.
pub struct ContactList {
    pub author: Pubkey,
    pub created_at: u64,
    pub tags: Vec<Vec<String>>,
}

/// The fields of a contact list.
pub struct ContactListView {
    pub author: Seq<u8>,
    pub created_at: u64,
    pub tags: Seq<Seq<Seq<char>>>,
}

impl View for ContactList {
    type V = ContactListView;

    open spec fn view(&self) -> ContactListView {
        ContactListView { author: self.author@, created_at: self.created_at, tags: tag_views(self.tags@) }
    }
}

/// The fields of each contact list.
pub open spec fn list_views(lists: Seq<ContactList>) -> Seq<ContactListView> {
    lists.map_values(|l: ContactList| l@)
}

/// Whether the `i`-th list is the one kept for its author: the latest, and the first
/// among the latest where several share its time.
pub open spec fn is_latest(lists: Seq<ContactListView>, i: int) -> bool {
    &&& 0 <= i < lists.len()
    &&& forall|j: int|
        0 <= j < lists.len() && #[trigger] lists[j].author == lists[i].author ==> (lists[j].created_at
            < lists[i].created_at || (lists[j].created_at == lists[i].created_at && i <= j))
}

/// The key a `p` tag follows, if the tag is one with a valid hexadecimal key.
pub open spec fn followed_key(tag: Seq<Seq<char>>) -> Option<Seq<u8>> {
    if tag.len() >= 2 && tag[0] == "p"@ && is_key_hex(tag[1]) {
        Some(key_from_hex_text(tag[1]))
    } else {
        None
    }
}

/// Whether the `t`-th tag of the `i`-th list follows `k` and that list is kept.
pub open spec fn follows_at(lists: Seq<ContactListView>, i: int, t: int, k: Seq<u8>) -> bool {
    &&& is_latest(lists, i)
    &&& 0 <= t < lists[i].tags.len()
    &&& followed_key(lists[i].tags[t]) == Some(k)
}

/// Whether a kept list follows `k`.
pub open spec fn is_followed(lists: Seq<ContactListView>, k: Seq<u8>) -> bool {
    exists|i: int, t: int| #[trigger] follows_at(lists, i, t, k)
}

/// Whether the `i`-th list is the one kept for its author.
fn is_latest_list(lists: &Vec<ContactList>, i: usize) -> (r: bool)
    requires
        i < lists@.len(),
    ensures
        r == is_latest(list_views(lists@), i as int),
{
    let ghost lv = list_views(lists@);
    let n = lists.len();
    for j in 0..n
        invariant
            n == lists@.len(),
            i < n,
            lv == list_views(lists@),
            forall|m: int|
                0 <= m < j && #[trigger] lv[m].author == lv[i as int].author ==> (lv[m].created_at
                    < lv[i as int].created_at || (lv[m].created_at == lv[i as int].created_at && i <= m)),
    {
        if lists[j].author.same(&lists[i].author) {
            if lists[j].created_at > lists[i].created_at || (lists[j].created_at == lists[i].created_at && j < i) {
                assert(lv[j as int].author == lv[i as int].author);
                return false;
            }
        }
    }
    true
}

/// The key a tag follows, if it is a `p` tag with a valid hexadecimal key.
fn followed_key_of(tag: &Vec<String>) -> (r: Option<Pubkey>)
    ensures
        match r {
            Some(k) => followed_key(tag@.map_values(|s: String| s@)) == Some(k@),
            None => followed_key(tag@.map_values(|s: String| s@)) is None,
        },
{
    let ghost tv = tag@.map_values(|s: String| s@);
    if tag.len() < 2 {
        return None;
    }
    assert(tv[0] == tag@[0]@);
    assert(tv[1] == tag@[1]@);
    if !str_equals(tag[0].as_str(), "p") {
        return None;
    }
    nostr_key_from_hex(tag[1].as_str())
}

/// Every key followed by the contact list kept for each author, once each. For each
/// author the latest list is kept (the first of the latest where several share a
/// time); a follow is a `p` tag whose second string is a valid hexadecimal key.
pub fn follows_from_contact_lists(lists: &Vec<ContactList>) -> (r: Vec<Pubkey>)
    ensures
        key_views(r@).no_duplicates(),
        forall|k: Seq<u8>| #[trigger] key_views(r@).contains(k) <==> is_followed(list_views(lists@), k),
{
    let ghost lv = list_views(lists@);
    let mut out: Vec<Pubkey> = Vec::new();
    let n = lists.len();
    for i in 0..n
        invariant
            n == lists@.len(),
            lv == list_views(lists@),
            key_views(out@).no_duplicates(),
            forall|k: Seq<u8>|
                #[trigger] key_views(out@).contains(k) <==> exists|i2: int, t2: int|
                    0 <= i2 < i && #[trigger] follows_at(lv, i2, t2, k),
    {
        if is_latest_list(lists, i) {
            let tags = &lists[i].tags;
            let m = tags.len();
            assert(lv[i as int].tags == tag_views(tags@));
            for t in 0..m
                invariant
                    n == lists@.len(),
                    lv == list_views(lists@),
                    i < n,
                    is_latest(lv, i as int),
                    tags == &lists@[i as int].tags,
                    m == tags@.len(),
                    lv[i as int].tags == tag_views(tags@),
                    key_views(out@).no_duplicates(),
                    forall|k: Seq<u8>|
                        #[trigger] key_views(out@).contains(k) <==> ((exists|i2: int, t2: int|
                            0 <= i2 < i && #[trigger] follows_at(lv, i2, t2, k)) || (exists|t2: int|
                            0 <= t2 < t && #[trigger] follows_at(lv, i as int, t2, k))),
            {
                let ghost before = key_views(out@);
                assert(tag_views(tags@)[t as int] == tags@[t as int]@.map_values(|s: String| s@));
                match followed_key_of(&tags[t]) {
                    Some(k) => {
                        assert(follows_at(lv, i as int, t as int, k@));
                        if !contains_key(&out, &k) {
                            out.push(k);
                            assert(key_views(out@) =~= before.push(k@));
                            assert forall|a: int, b: int| 0 <= a < key_views(out@).len() && 0 <= b < key_views(out@).len() && a != b
                                implies key_views(out@)[a] != key_views(out@)[b] by {
                                if a == before.len() {
                                    assert(before[b] == key_views(out@)[b]);
                                } else if b == before.len() {
                                    assert(before[a] == key_views(out@)[a]);
                                } else {
                                    assert(before[a] == key_views(out@)[a]);
                                    assert(before[b] == key_views(out@)[b]);
                                }
                            }
                        }
                        assert forall|k2: Seq<u8>| #[trigger] key_views(out@).contains(k2) <==> ((exists|i2: int, t2: int|
                            0 <= i2 < i && #[trigger] follows_at(lv, i2, t2, k2)) || (exists|t2: int|
                            0 <= t2 < t + 1 && #[trigger] follows_at(lv, i as int, t2, k2))) by {
                            if key_views(out@).contains(k2) && !before.contains(k2) {
                                assert(k2 == k@);
                            }
                            if before.contains(k2) {
                                assert(key_views(out@).contains(k2));
                            }
                            if exists|t2: int| 0 <= t2 < t + 1 && #[trigger] follows_at(lv, i as int, t2, k2) {
                                let t2 = choose|t2: int| 0 <= t2 < t + 1 && #[trigger] follows_at(lv, i as int, t2, k2);
                                if t2 == t {
                                    assert(k2 == k@);
                                }
                            }
                        }
                    },
                    None => {
                        assert forall|k2: Seq<u8>| #[trigger] key_views(out@).contains(k2) <==> ((exists|i2: int, t2: int|
                            0 <= i2 < i && #[trigger] follows_at(lv, i2, t2, k2)) || (exists|t2: int|
                            0 <= t2 < t + 1 && #[trigger] follows_at(lv, i as int, t2, k2))) by {
                            if exists|t2: int| 0 <= t2 < t + 1 && #[trigger] follows_at(lv, i as int, t2, k2) {
                                let t2 = choose|t2: int| 0 <= t2 < t + 1 && #[trigger] follows_at(lv, i as int, t2, k2);
                                assert(t2 != t);
                            }
                        }
                    },
                }
            }
            assert forall|k2: Seq<u8>| #[trigger] key_views(out@).contains(k2) <==> exists|i2: int, t2: int|
                0 <= i2 < i + 1 && #[trigger] follows_at(lv, i2, t2, k2) by {
                if exists|i2: int, t2: int| 0 <= i2 < i + 1 && #[trigger] follows_at(lv, i2, t2, k2) {
                    let (i2, t2) = choose|i2: int, t2: int| 0 <= i2 < i + 1 && #[trigger] follows_at(lv, i2, t2, k2);
                    if i2 == i {
                        assert(0 <= t2 < m);
                    }
                }
            }
        } else {
            assert forall|k2: Seq<u8>| #[trigger] key_views(out@).contains(k2) <==> exists|i2: int, t2: int|
                0 <= i2 < i + 1 && #[trigger] follows_at(lv, i2, t2, k2) by {
                if exists|i2: int, t2: int| 0 <= i2 < i + 1 && #[trigger] follows_at(lv, i2, t2, k2) {
                    let (i2, t2) = choose|i2: int, t2: int| 0 <= i2 < i + 1 && #[trigger] follows_at(lv, i2, t2, k2);
                    assert(i2 != i);
                }
            }
        }
    }
    assert forall|k: Seq<u8>| #[trigger] key_views(out@).contains(k) <==> is_followed(lv, k) by {
        if is_followed(lv, k) {
            let (i2, t2) = choose|i2: int, t2: int| #[trigger] follows_at(lv, i2, t2, k);
            assert(0 <= i2 < n);
        }
    }
    out
}

/// Where a list is inserted anywhere among the others, the kept lists other than it
/// are the same, shifted past it, provided an older list of an author with a newer one.
proof fn lemma_older_list_keeps_latest(lists: Seq<ContactListView>, pos: int, e: ContactListView, i: int)
    requires
        0 <= pos <= lists.len(),
        0 <= i < lists.len(),
        exists|j: int| 0 <= j < lists.len() && lists[j].author == e.author && lists[j].created_at > e.created_at,
    ensures
        is_latest(lists, i) <==> is_latest(lists.insert(pos, e), if i < pos { i } else { i + 1 }),
        !is_latest(lists.insert(pos, e), pos),
{
    let l2 = lists.insert(pos, e);
    let i2 = if i < pos { i } else { i + 1 };
    let j0 = choose|j: int| 0 <= j < lists.len() && lists[j].author == e.author && lists[j].created_at > e.created_at;
    let j0_2 = if j0 < pos { j0 } else { j0 + 1 };
    assert(l2[i2] == lists[i]);
    assert(l2[j0_2] == lists[j0]);
    assert(l2[pos] == e);
    if is_latest(lists, i) {
        assert forall|j2: int|
            0 <= j2 < l2.len() && #[trigger] l2[j2].author == l2[i2].author implies (l2[j2].created_at
                < l2[i2].created_at || (l2[j2].created_at == l2[i2].created_at && i2 <= j2)) by {
            if j2 == pos {
                assert(lists[j0].author == lists[i].author);
                assert(lists[j0].created_at <= lists[i].created_at);
            } else {
                let j = if j2 < pos { j2 } else { j2 - 1 };
                assert(l2[j2] == lists[j]);
                assert(lists[j].author == lists[i].author);
            }
        }
    }
    if is_latest(l2, i2) {
        assert forall|j: int|
            0 <= j < lists.len() && #[trigger] lists[j].author == lists[i].author implies (lists[j].created_at
                < lists[i].created_at || (lists[j].created_at == lists[i].created_at && i <= j)) by {
            let j2 = if j < pos { j } else { j + 1 };
            assert(l2[j2] == lists[j]);
            assert(l2[j2].author == l2[i2].author);
        }
    }
    assert(l2[j0_2].author == l2[pos].author);
}

/// Adding a contact list older than one its author already has changes no follow:
/// follows found only in an author's older lists are never taken in.
pub proof fn lemma_older_list_adds_no_follow(lists: Seq<ContactListView>, pos: int, e: ContactListView, k: Seq<u8>)
    requires
        0 <= pos <= lists.len(),
        exists|j: int| 0 <= j < lists.len() && lists[j].author == e.author && lists[j].created_at > e.created_at,
    ensures
        is_followed(lists.insert(pos, e), k) <==> is_followed(lists, k),
{
    let l2 = lists.insert(pos, e);
    if is_followed(lists, k) {
        let (i, t) = choose|i: int, t: int| #[trigger] follows_at(lists, i, t, k);
        lemma_older_list_keeps_latest(lists, pos, e, i);
        let i2 = if i < pos { i } else { i + 1 };
        assert(l2[i2] == lists[i]);
        assert(follows_at(l2, i2, t, k));
    }
    if is_followed(l2, k) {
        let (i2, t) = choose|i2: int, t: int| #[trigger] follows_at(l2, i2, t, k);
        lemma_older_list_keeps_latest(lists, pos, e, 0);
        assert(i2 != pos);
        let i = if i2 < pos { i2 } else { i2 - 1 };
        lemma_older_list_keeps_latest(lists, pos, e, i);
        assert(l2[i2] == lists[i]);
        assert(follows_at(lists, i, t, k));
    }
}

/// The follow-derived keys that the stored JSON text lists (the contents of the
/// follows file, where one could be read); invalid entries are skipped.
pub fn load_follow_derived(stored: Option<&str>) -> (r: Vec<Pubkey>)
    ensures
        key_views(r@) == stored_keys_of(opt_text(stored)),
{
    read_stored_keys(stored)
}

/// The text to store in the follows file: a pretty JSON array of lowercase
/// hexadecimal keys, always produced. Reading it back gives the same keys.
pub fn persist_follow_derived(pubkeys: &Vec<Pubkey>) -> (r: Result<String, PersistError>)
    ensures
        r is Ok,
        r matches Ok(text) ==> stored_keys(text@) == key_views(pubkeys@),
        r matches Ok(text) ==> text@ == crate::json::json_pretty_string_list(
            crate::keys::key_texts(key_views(pubkeys@)),
        ),
{
    write_stored_keys(pubkeys)
}

} // verus!
