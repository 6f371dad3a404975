use vstd::prelude::*;
use crate::json::string_views;
use crate::pubkey::{Pubkey, is_key_hex, key_from_hex_text, lemma_hex_text_decodes, nostr_key_from_hex};
use crate::text::hex_text;

verus! {

broadcast use vstd::seq_lib::group_seq_properties;

/// The bytes of each key in a list.
pub open spec fn key_views(v: Seq<Pubkey>) -> Seq<Seq<u8>> {
    v.map_values(|k: Pubkey| k@)
}

/// `acc` followed by each key of `extra` that is not already present, in the order of
/// first appearance.
pub open spec fn extend_unique(acc: Seq<Seq<u8>>, extra: Seq<Seq<u8>>) -> Seq<Seq<u8>>
    decreases extra.len(),
{
    if extra.len() == 0 {
        acc
    } else {
        let prev = extend_unique(acc, extra.drop_last());
        if prev.contains(extra.last()) {
            prev
        } else {
            prev.push(extra.last())
        }
    }
}

/// Holds of the keys other than `k`.
pub open spec fn other_than(k: Seq<u8>) -> spec_fn(Seq<u8>) -> bool {
    |x: Seq<u8>| x != k
}

/// The keys of `v` other than `k`, in order.
pub open spec fn without_key(v: Seq<Seq<u8>>, k: Seq<u8>) -> Seq<Seq<u8>> {
    v.filter(other_than(k))
}

/// The keys that the valid 64-digit hexadecimal texts of a list stand for, in order;
/// other texts are skipped.
pub open spec fn keys_from_texts(texts: Seq<Seq<char>>) -> Seq<Seq<u8>>
    decreases texts.len(),
{
    if texts.len() == 0 {
        seq![]
    } else {
        let prev = keys_from_texts(texts.drop_last());
        if is_key_hex(texts.last()) {
            prev.push(key_from_hex_text(texts.last()))
        } else {
            prev
        }
    }
}

/// The lowercase hexadecimal text of each key.
pub open spec fn key_texts(keys: Seq<Seq<u8>>) -> Seq<Seq<char>> {
    keys.map_values(|k: Seq<u8>| hex_text(k))
}

/// Every key of a list is 32 bytes long.
pub open spec fn all_key_sized(keys: Seq<Seq<u8>>) -> bool {
    forall|i: int| 0 <= i < keys.len() ==> (#[trigger] keys[i]).len() == 32
}

/// What `extend_unique` holds: exactly the keys of both lists, `acc` first and unchanged.
pub proof fn lemma_extend_unique(acc: Seq<Seq<u8>>, extra: Seq<Seq<u8>>)
    ensures
        extend_unique(acc, extra).len() >= acc.len(),
        extend_unique(acc, extra).subrange(0, acc.len() as int) == acc,
        forall|k: Seq<u8>|
            #[trigger] extend_unique(acc, extra).contains(k) <==> (acc.contains(k) || extra.contains(k)),
        acc.no_duplicates() ==> extend_unique(acc, extra).no_duplicates(),
    decreases extra.len(),
{
    if extra.len() > 0 {
        let prev = extend_unique(acc, extra.drop_last());
        lemma_extend_unique(acc, extra.drop_last());
        assert forall|k: Seq<u8>| #[trigger] extend_unique(acc, extra).contains(k) <==> (acc.contains(k) || extra.contains(k)) by {
            if extra.contains(k) && !extra.drop_last().contains(k) {
                let j = choose|j: int| 0 <= j < extra.len() && extra[j] == k;
                if j < extra.len() - 1 {
                    assert(extra.drop_last()[j] == k);
                }
            }
            if extra.drop_last().contains(k) {
                let j = choose|j: int| 0 <= j < extra.drop_last().len() && extra.drop_last()[j] == k;
                assert(extra[j] == k);
            }
        }
        if !prev.contains(extra.last()) {
            assert(prev.push(extra.last()).subrange(0, acc.len() as int) =~= prev.subrange(0, acc.len() as int));
        }
    }
}

/// Keys written as lowercase hexadecimal text read back as the same keys.
pub proof fn lemma_keys_from_key_texts(keys: Seq<Seq<u8>>)
    requires
        all_key_sized(keys),
    ensures
        keys_from_texts(key_texts(keys)) == keys,
    decreases keys.len(),
{
    if keys.len() > 0 {
        let last = keys.last();
        assert(key_texts(keys).drop_last() =~= key_texts(keys.drop_last()));
        lemma_keys_from_key_texts(keys.drop_last());
        lemma_hex_text_decodes(last);
        assert(key_texts(keys).last() == hex_text(last));
        assert(keys.drop_last().push(last) =~= keys);
    }
}

/// What `without_key` holds: the other keys, and no more.
pub proof fn lemma_without_key(v: Seq<Seq<u8>>, k: Seq<u8>)
    ensures
        forall|x: Seq<u8>| #[trigger] without_key(v, k).contains(x) <==> (v.contains(x) && x != k),
        !without_key(v, k).contains(k),
        without_key(v, k).len() <= v.len(),
        v.contains(k) ==> without_key(v, k).len() < v.len(),
        !v.contains(k) ==> without_key(v, k) == v,
    decreases v.len(),
{
    let p = other_than(k);
    reveal(Seq::filter);
    if v.len() > 0 {
        lemma_without_key(v.drop_last(), k);
        assert(v.drop_last().push(v.last()) =~= v);
        v.drop_last().lemma_filter_push(v.last(), p);
        assert forall|x: Seq<u8>| #[trigger] without_key(v, k).contains(x) <==> (v.contains(x) && x != k) by {
            if v.contains(x) && !v.drop_last().contains(x) {
                let j = choose|j: int| 0 <= j < v.len() && v[j] == x;
                if j < v.len() - 1 {
                    assert(v.drop_last()[j] == x);
                }
            }
            if v.drop_last().contains(x) {
                let j = choose|j: int| 0 <= j < v.drop_last().len() && v.drop_last()[j] == x;
                assert(v[j] == x);
            }
        }
    }
}

/// Whether `k` is one of `keys`.
pub fn contains_key(keys: &Vec<Pubkey>, k: &Pubkey) -> (r: bool)
    ensures
        r == key_views(keys@).contains(k@),
{
    let n = keys.len();
    for i in 0..n
        invariant
            n == keys@.len(),
            forall|j: int| 0 <= j < i ==> keys@[j]@ != k@,
    {
        if keys[i].same(k) {
            assert(key_views(keys@)[i as int] == k@);
            return true;
        }
    }
    assert forall|j: int| 0 <= j < key_views(keys@).len() implies key_views(keys@)[j] != k@ by {
        assert(keys@[j]@ != k@);
    }
    false
}

/// A copy of a list of keys.
pub fn copy_keys(keys: &Vec<Pubkey>) -> (r: Vec<Pubkey>)
    ensures
        r@ == keys@,
{
    let mut out: Vec<Pubkey> = Vec::new();
    let n = keys.len();
    for i in 0..n
        invariant
            n == keys@.len(),
            out@ == keys@.subrange(0, i as int),
    {
        out.push(keys[i]);
        assert(out@ =~= keys@.subrange(0, i + 1));
    }
    assert(keys@.subrange(0, n as int) =~= keys@);
    out
}

/// The keys of `keys` other than `k`, in order.
pub fn keys_without(keys: &Vec<Pubkey>, k: &Pubkey) -> (r: Vec<Pubkey>)
    ensures
        key_views(r@) == without_key(key_views(keys@), k@),
{
    let ghost p = other_than(k@);
    let mut out: Vec<Pubkey> = Vec::new();
    let n = keys.len();
    for i in 0..n
        invariant
            n == keys@.len(),
            p == other_than(k@),
            key_views(out@) == key_views(keys@).subrange(0, i as int).filter(p),
    {
        let ghost before = out@;
        if !keys[i].same(k) {
            out.push(keys[i]);
        }
        proof {
            let prefix = key_views(keys@).subrange(0, i as int);
            assert(key_views(keys@).subrange(0, i + 1) =~= prefix.push(keys@[i as int]@));
            prefix.lemma_filter_push(keys@[i as int]@, p);
            if keys@[i as int]@ != k@ {
                assert(key_views(out@) =~= key_views(before).push(keys@[i as int]@));
            } else {
                assert(key_views(out@) =~= key_views(before));
            }
        }
    }
    assert(key_views(keys@).subrange(0, n as int) =~= key_views(keys@));
    out
}

/// Appends to `acc` each key of `extra` that it does not hold yet.
pub fn extend_with_new_keys(acc: &mut Vec<Pubkey>, extra: &Vec<Pubkey>)
    ensures
        key_views(final(acc)@) == extend_unique(key_views(old(acc)@), key_views(extra@)),
{
    let ghost start = key_views(acc@);
    let n = extra.len();
    for i in 0..n
        invariant
            n == extra@.len(),
            key_views(acc@) == extend_unique(start, key_views(extra@).subrange(0, i as int)),
    {
        let ghost before = key_views(acc@);
        let k = extra[i];
        proof {
            let sub = key_views(extra@).subrange(0, i + 1);
            assert(sub.drop_last() =~= key_views(extra@).subrange(0, i as int));
            assert(sub.last() == k@);
        }
        if !contains_key(acc, &k) {
            acc.push(k);
            assert(key_views(acc@) =~= before.push(k@));
        }
    }
    assert(key_views(extra@).subrange(0, n as int) =~= key_views(extra@));
}

/// The keys that the valid 64-digit hexadecimal texts among `texts` stand for.
pub fn decode_key_texts(texts: &Vec<String>) -> (r: Vec<Pubkey>)
    ensures
        key_views(r@) == keys_from_texts(string_views(texts@)),
{
    let mut out: Vec<Pubkey> = Vec::new();
    let n = texts.len();
    for i in 0..n
        invariant
            n == texts@.len(),
            key_views(out@) == keys_from_texts(string_views(texts@).subrange(0, i as int)),
    {
        let ghost before = key_views(out@);
        let parsed = nostr_key_from_hex(texts[i].as_str());
        proof {
            let sub = string_views(texts@).subrange(0, i + 1);
            assert(sub.drop_last() =~= string_views(texts@).subrange(0, i as int));
            assert(sub.last() == texts@[i as int]@);
        }
        match parsed {
            Some(k) => {
                out.push(k);
                assert(key_views(out@) =~= before.push(k@));
            },
            None => {},
        }
    }
    assert(string_views(texts@).subrange(0, n as int) =~= string_views(texts@));
    out
}

/// The lowercase hexadecimal text of each key.
pub fn encode_key_texts(keys: &Vec<Pubkey>) -> (r: Vec<String>)
    ensures
        string_views(r@) == key_texts(key_views(keys@)),
{
    let mut out: Vec<String> = Vec::new();
    let n = keys.len();
    for i in 0..n
        invariant
            n == keys@.len(),
            string_views(out@) == key_texts(key_views(keys@)).subrange(0, i as int),
    {
        let t = keys[i].to_hex();
        let ghost before = out@;
        out.push(t);
        proof {
            assert(out@ == before.push(t));
            assert(string_views(before).len() == i);
            assert forall|j: int| 0 <= j <= i implies #[trigger] string_views(out@)[j] == key_texts(key_views(keys@))[j] by {
                if j < i {
                    assert(out@[j] == before[j]);
                    assert(string_views(before)[j] == key_texts(key_views(keys@)).subrange(0, i as int)[j]);
                } else {
                    assert(out@[j] == t);
                    assert(key_views(keys@)[j] == keys@[j]@);
                }
            }
            assert(string_views(out@) =~= key_texts(key_views(keys@)).subrange(0, i + 1));
        }
    }
    assert(key_texts(key_views(keys@)).subrange(0, n as int) =~= key_texts(key_views(keys@)));
    out
}

} // verus!
