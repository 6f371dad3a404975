use vstd::prelude::*;

verus! {

broadcast use vstd::seq_lib::group_seq_properties;

/// The value stored under `k` in a list of keyed entries: that of its last entry.
pub open spec fn lookup<V>(s: Seq<(Seq<char>, V)>, k: Seq<char>) -> Option<V>
    decreases s.len(),
{
    if s.len() == 0 {
        None
    } else if s.last().0 == k {
        Some(s.last().1)
    } else {
        lookup(s.drop_last(), k)
    }
}

/// No key occurs in two entries.
pub open spec fn keys_unique<V>(s: Seq<(Seq<char>, V)>) -> bool {
    forall|i: int, j: int| 0 <= i < s.len() && 0 <= j < s.len() && i != j ==> s[i].0 != s[j].0
}

/// Holds of the entries whose key is not `k`.
pub open spec fn key_other_than<V>(k: Seq<char>) -> spec_fn((Seq<char>, V)) -> bool {
    |e: (Seq<char>, V)| e.0 != k
}

/// The entries whose key is not `k`.
pub open spec fn take_out<V>(s: Seq<(Seq<char>, V)>, k: Seq<char>) -> Seq<(Seq<char>, V)> {
    s.filter(key_other_than(k))
}

/// `s` with `v` stored under `k`, replacing what was stored there.
pub open spec fn put<V>(s: Seq<(Seq<char>, V)>, k: Seq<char>, v: V) -> Seq<(Seq<char>, V)> {
    take_out(s, k).push((k, v))
}

/// `lookup` finds a value exactly where some entry holds the key, and then it is the
/// value of such an entry.
pub proof fn lemma_lookup<V>(s: Seq<(Seq<char>, V)>, k: Seq<char>)
    ensures
        lookup(s, k) is Some <==> exists|i: int| 0 <= i < s.len() && #[trigger] s[i].0 == k,
        lookup(s, k) matches Some(v) ==> exists|i: int| 0 <= i < s.len() && #[trigger] s[i] == (k, v),
    decreases s.len(),
{
    if s.len() > 0 {
        lemma_lookup(s.drop_last(), k);
        if s.last().0 == k {
            assert(s[s.len() - 1].0 == k);
            assert(s[s.len() - 1] == (k, s.last().1));
        } else {
            if exists|i: int| 0 <= i < s.len() && #[trigger] s[i].0 == k {
                let i = choose|i: int| 0 <= i < s.len() && #[trigger] s[i].0 == k;
                assert(s.drop_last()[i].0 == k);
            }
            if lookup(s, k) is Some {
                let i = choose|i: int| 0 <= i < s.drop_last().len() && #[trigger] s.drop_last()[i] == (k, lookup(s, k)->0);
                assert(s[i] == (k, lookup(s, k)->0));
            }
        }
    }
}

/// The entries a filter keeps all come from the list.
proof fn lemma_filter_from<V>(s: Seq<(Seq<char>, V)>, p: spec_fn((Seq<char>, V)) -> bool, x: (Seq<char>, V))
    requires
        s.filter(p).contains(x),
    ensures
        s.contains(x),
        p(x),
{
    broadcast use vstd::seq_lib::group_filter_ensures;
    s.lemma_filter_contains_rev(p, x);
    let i = choose|i: int| 0 <= i < s.filter(p).len() && s.filter(p)[i] == x;
    s.lemma_filter_pred(p, i);
}

/// Filtering keeps keys unique.
pub proof fn lemma_filter_unique<V>(s: Seq<(Seq<char>, V)>, p: spec_fn((Seq<char>, V)) -> bool)
    requires
        keys_unique(s),
    ensures
        keys_unique(s.filter(p)),
    decreases s.len(),
{
    reveal(Seq::filter);
    if s.len() > 0 {
        let init = s.drop_last();
        assert(keys_unique(init));
        lemma_filter_unique(init, p);
        assert(init.push(s.last()) =~= s);
        init.lemma_filter_push(s.last(), p);
        if p(s.last()) {
            let f = init.filter(p);
            assert forall|i: int, j: int| 0 <= i < f.push(s.last()).len() && 0 <= j < f.push(s.last()).len() && i != j
                implies f.push(s.last())[i].0 != f.push(s.last())[j].0 by {
                if i == f.len() || j == f.len() {
                    let other = if i == f.len() { j } else { i };
                    assert(f.contains(f[other]));
                    lemma_filter_from(init, p, f[other]);
                    let m = choose|m: int| 0 <= m < init.len() && init[m] == f[other];
                    assert(s[m] == init[m]);
                }
            }
        }
    }
}

/// A filter keeps what `lookup` finds when the entry passes, and nothing under that
/// key otherwise, where keys are unique.
pub proof fn lemma_lookup_filter<V>(s: Seq<(Seq<char>, V)>, p: spec_fn((Seq<char>, V)) -> bool, k: Seq<char>)
    requires
        keys_unique(s),
    ensures
        lookup(s.filter(p), k) == (match lookup(s, k) {
            Some(v) => if p((k, v)) { Some(v) } else { None },
            None => None,
        }),
    decreases s.len(),
{
    reveal(Seq::filter);
    if s.len() > 0 {
        let init = s.drop_last();
        assert(keys_unique(init));
        lemma_lookup_filter(init, p, k);
        assert(init.push(s.last()) =~= s);
        init.lemma_filter_push(s.last(), p);
        let f = init.filter(p);
        assert(f.push(s.last()).drop_last() =~= f);
        assert(s.last() == (s.last().0, s.last().1));
        if s.last().0 == k {
            // no other entry holds k
            lemma_lookup(init, k);
            if lookup(init, k) is Some {
                let i = choose|i: int| 0 <= i < init.len() && #[trigger] init[i].0 == k;
                assert(s[i] == init[i]);
                assert(s[i].0 == s[s.len() - 1].0);
            }
            assert(lookup(init, k) is None);
        }
    }
}

/// What taking a key out does to `lookup`, and that it keeps keys unique.
pub proof fn lemma_take_out<V>(s: Seq<(Seq<char>, V)>, k: Seq<char>, k2: Seq<char>)
    ensures
        lookup(take_out(s, k), k2) == (if k2 == k { None } else { lookup(s, k2) }),
        keys_unique(s) ==> keys_unique(take_out(s, k)),
    decreases s.len(),
{
    reveal(Seq::filter);
    let p = key_other_than::<V>(k);
    if s.len() > 0 {
        let init = s.drop_last();
        lemma_take_out(init, k, k2);
        assert(init.push(s.last()) =~= s);
        init.lemma_filter_push(s.last(), p);
        let f = init.filter(p);
        assert(f.push(s.last()).drop_last() =~= f);
    }
    if keys_unique(s) {
        lemma_filter_unique(s, p);
    }
}

/// What storing a value does to `lookup`, and that it keeps keys unique.
pub proof fn lemma_put<V>(s: Seq<(Seq<char>, V)>, k: Seq<char>, v: V, k2: Seq<char>)
    ensures
        lookup(put(s, k, v), k2) == (if k2 == k { Some(v) } else { lookup(s, k2) }),
        keys_unique(s) ==> keys_unique(put(s, k, v)),
{
    lemma_take_out(s, k, k2);
    assert(put(s, k, v).drop_last() =~= take_out(s, k));
    if keys_unique(s) {
        lemma_take_out(s, k, k);
        let t = take_out(s, k);
        assert forall|i: int, j: int| 0 <= i < put(s, k, v).len() && 0 <= j < put(s, k, v).len() && i != j
            implies put(s, k, v)[i].0 != put(s, k, v)[j].0 by {
            if i == t.len() || j == t.len() {
                let other = if i == t.len() { j } else { i };
                assert(t.contains(t[other]));
                lemma_filter_from(s, key_other_than::<V>(k), t[other]);
            }
        }
    }
}

/// A property of every entry survives filtering.
pub proof fn lemma_filter_keeps_all<V>(
    s: Seq<(Seq<char>, V)>,
    p: spec_fn((Seq<char>, V)) -> bool,
    q: spec_fn((Seq<char>, V)) -> bool,
)
    requires
        forall|i: int| 0 <= i < s.len() ==> q(#[trigger] s[i]),
    ensures
        forall|i: int| 0 <= i < s.filter(p).len() ==> q(#[trigger] s.filter(p)[i]),
{
    assert forall|i: int| 0 <= i < s.filter(p).len() implies q(#[trigger] s.filter(p)[i]) by {
        assert(s.filter(p).contains(s.filter(p)[i]));
        lemma_filter_from(s, p, s.filter(p)[i]);
        let j = choose|j: int| 0 <= j < s.len() && s[j] == s.filter(p)[i];
    }
}

/// A property of every entry survives storing a value that has it.
pub proof fn lemma_put_keeps_all<V>(s: Seq<(Seq<char>, V)>, k: Seq<char>, v: V, q: spec_fn((Seq<char>, V)) -> bool)
    requires
        forall|i: int| 0 <= i < s.len() ==> q(#[trigger] s[i]),
        q((k, v)),
    ensures
        forall|i: int| 0 <= i < put(s, k, v).len() ==> q(#[trigger] put(s, k, v)[i]),
{
    lemma_filter_keeps_all(s, key_other_than(k), q);
}

} // verus!
