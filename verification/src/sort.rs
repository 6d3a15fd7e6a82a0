use vstd::prelude::*;
use vstd::multiset::Multiset;
use vstd::seq_lib::lemma_multiset_commutative;

verus! {

/// Byte-wise lexicographic order on canonical key text: the total order
/// sorted mappings emit their entries in.
pub open spec fn lex_le(a: Seq<u8>, b: Seq<u8>) -> bool
    decreases a.len(),
{
    if a.len() == 0 {
        true
    } else if b.len() == 0 {
        false
    } else if a[0] < b[0] {
        true
    } else if a[0] > b[0] {
        false
    } else {
        lex_le(a.drop_first(), b.drop_first())
    }
}

/// The order ignores an equal prefix.
proof fn lemma_lex_skip(a: Seq<u8>, b: Seq<u8>, i: int)
    requires
        0 <= i <= a.len(),
        i <= b.len(),
        forall|k: int| 0 <= k < i ==> a[k] == b[k],
    ensures
        lex_le(a, b) == lex_le(a.skip(i), b.skip(i)),
    decreases i,
{
    if i > 0 {
        lemma_lex_skip(a.drop_first(), b.drop_first(), i - 1);
        assert(a.drop_first().skip(i - 1) =~= a.skip(i));
        assert(b.drop_first().skip(i - 1) =~= b.skip(i));
    } else {
        assert(a.skip(0) =~= a);
        assert(b.skip(0) =~= b);
    }
}

/// The order is total.
pub proof fn lemma_lex_total(a: Seq<u8>, b: Seq<u8>)
    ensures
        lex_le(a, b) || lex_le(b, a),
    decreases a.len(),
{
    if a.len() > 0 && b.len() > 0 && a[0] == b[0] {
        lemma_lex_total(a.drop_first(), b.drop_first());
    }
}

/// The order is transitive.
pub proof fn lemma_lex_trans(a: Seq<u8>, b: Seq<u8>, c: Seq<u8>)
    requires
        lex_le(a, b),
        lex_le(b, c),
    ensures
        lex_le(a, c),
    decreases a.len(),
{
    if a.len() > 0 && b.len() > 0 && c.len() > 0 && a[0] == b[0] && b[0] == c[0] {
        lemma_lex_trans(a.drop_first(), b.drop_first(), c.drop_first());
    }
}

/// Compares two byte strings in the lexicographic order.
pub fn lex_le_bytes(a: &Vec<u8>, b: &Vec<u8>) -> (r: bool)
    ensures
        r == lex_le(a@, b@),
{
    let alen: usize = a.len();
    let blen: usize = b.len();
    let mut i: usize = 0;
    while i < alen && i < blen
        invariant
            i <= alen,
            i <= blen,
            alen == a@.len(),
            blen == b@.len(),
            forall|k: int| 0 <= k < i ==> a@[k] == b@[k],
        decreases alen - i,
    {
        if a[i] < b[i] {
            proof {
                lemma_lex_skip(a@, b@, i as int);
            }
            return true;
        }
        if a[i] > b[i] {
            proof {
                lemma_lex_skip(a@, b@, i as int);
            }
            return false;
        }
        i = i + 1;
    }
    proof {
        lemma_lex_skip(a@, b@, i as int);
    }
    alen <= blen
}

/// A canonical key paired with the position of its entry in the mapping's
/// iteration order, at the specification level.
pub type KeyPos = (Seq<u8>, int);

/// Inserts a pair behind every held pair whose key is less than or equal to
/// its own, so that pairs with equal keys keep their first-seen order.
pub open spec fn insert_sorted(e: KeyPos, s: Seq<KeyPos>) -> Seq<KeyPos>
    decreases s.len(),
{
    if s.len() == 0 {
        seq![e]
    } else if lex_le(s[0].0, e.0) {
        seq![s[0]] + insert_sorted(e, s.drop_first())
    } else {
        seq![e] + s
    }
}

/// The stable sort of the pairs by key: each pair in turn is inserted
/// behind its equals, so the result is sorted and order among equal keys is
/// the iteration order.
pub open spec fn sort_pairs(s: Seq<KeyPos>) -> Seq<KeyPos>
    decreases s.len(),
{
    if s.len() == 0 {
        s
    } else {
        insert_sorted(s.last(), sort_pairs(s.drop_last()))
    }
}

/// Keys appear in non-decreasing lexicographic order.
pub open spec fn sorted_by_key(s: Seq<KeyPos>) -> bool {
    forall|i: int, j: int| 0 <= i < j < s.len() ==> #[trigger] lex_le(s[i].0, s[j].0)
}

proof fn lemma_insert_sorted_sorted(e: KeyPos, s: Seq<KeyPos>)
    requires
        sorted_by_key(s),
    ensures
        sorted_by_key(insert_sorted(e, s)),
        insert_sorted(e, s).len() == s.len() + 1,
    decreases s.len(),
{
    if s.len() == 0 {
    } else if lex_le(s[0].0, e.0) {
        assert(sorted_by_key(s.drop_first())) by {
            assert(forall|i: int, j: int|
                0 <= i < j < s.drop_first().len() ==> #[trigger] lex_le(
                    s.drop_first()[i].0,
                    s.drop_first()[j].0,
                )) by {
                assert(forall|i: int, j: int|
                    0 <= i < j < s.drop_first().len() ==> s.drop_first()[i] == s[i + 1]
                        && s.drop_first()[j] == s[j + 1]);
            }
        }
        lemma_insert_sorted_sorted(e, s.drop_first());
        let t = seq![s[0]] + insert_sorted(e, s.drop_first());
        assert forall|i: int, j: int| 0 <= i < j < t.len() implies #[trigger] lex_le(
            t[i].0,
            t[j].0,
        ) by {
            let rest = insert_sorted(e, s.drop_first());
            if i == 0 {
                // every pair in `rest` is e or one of s.drop_first()'s;
                // s[0]'s key precedes either one.
                lemma_insert_sorted_membership(e, s.drop_first(), j - 1);
                if rest[j - 1] == e {
                } else {
                    let m = choose|m: int|
                        0 <= m < s.drop_first().len() && rest[j - 1] == s.drop_first()[m];
                    assert(s.drop_first()[m] == s[m + 1]);
                    assert(lex_le(s[0].0, s[m + 1].0));
                }
            } else {
                assert(lex_le(rest[i - 1].0, rest[j - 1].0));
            }
        }
    } else {
        let t = seq![e] + s;
        assert forall|i: int, j: int| 0 <= i < j < t.len() implies #[trigger] lex_le(
            t[i].0,
            t[j].0,
        ) by {
            if i == 0 {
                lemma_lex_total(s[0].0, e.0);
                if j - 1 > 0 {
                    assert(lex_le(s[0].0, s[j - 1].0));
                    lemma_lex_trans(e.0, s[0].0, s[j - 1].0);
                } else {
                    assert(lex_le(e.0, s[0].0));
                }
            } else {
                assert(lex_le(s[i - 1].0, s[j - 1].0));
            }
        }
    }
}

/// Every pair the insertion yields is the inserted pair or one of the held
/// pairs.
proof fn lemma_insert_sorted_membership(e: KeyPos, s: Seq<KeyPos>, k: int)
    requires
        0 <= k < insert_sorted(e, s).len(),
    ensures
        insert_sorted(e, s)[k] == e || exists|m: int| 0 <= m < s.len() && insert_sorted(e, s)[k]
            == s[m],
    decreases s.len(),
{
    if s.len() == 0 {
    } else if lex_le(s[0].0, e.0) {
        if k == 0 {
            assert(insert_sorted(e, s)[0] == s[0]);
        } else {
            lemma_insert_sorted_membership(e, s.drop_first(), k - 1);
            let rest = insert_sorted(e, s.drop_first());
            if rest[k - 1] == e {
            } else {
                let m = choose|m: int|
                    0 <= m < s.drop_first().len() && rest[k - 1] == s.drop_first()[m];
                assert(s.drop_first()[m] == s[m + 1]);
                assert(insert_sorted(e, s)[k] == s[m + 1]);
            }
        }
    } else {
        if k == 0 {
        } else {
            assert(insert_sorted(e, s)[k] == s[k - 1]);
        }
    }
}

/// The sort emits the keys in non-decreasing lexicographic order.
pub proof fn lemma_sort_pairs_sorted(s: Seq<KeyPos>)
    ensures
        sorted_by_key(sort_pairs(s)),
        sort_pairs(s).len() == s.len(),
    decreases s.len(),
{
    if s.len() > 0 {
        lemma_sort_pairs_sorted(s.drop_last());
        lemma_insert_sorted_sorted(s.last(), sort_pairs(s.drop_last()));
    }
}

/// The insertion only adds the inserted pair.
proof fn lemma_insert_sorted_multiset(e: KeyPos, s: Seq<KeyPos>)
    ensures
        insert_sorted(e, s).to_multiset() == s.to_multiset().insert(e),
    decreases s.len(),
{
    if s.len() == 0 {
        assert(s =~= Seq::<KeyPos>::empty());
        assert(seq![e] =~= Seq::<KeyPos>::empty().push(e));
        Seq::<KeyPos>::empty().to_multiset_ensures();
        assert(insert_sorted(e, s).to_multiset() == s.to_multiset().insert(e));
    } else if lex_le(s[0].0, e.0) {
        lemma_insert_sorted_multiset(e, s.drop_first());
        lemma_multiset_commutative(seq![s[0]], insert_sorted(e, s.drop_first()));
        lemma_multiset_commutative(seq![s[0]], s.drop_first());
        assert(seq![s[0]] + s.drop_first() =~= s);
        assert(insert_sorted(e, s).to_multiset() =~= s.to_multiset().insert(e));
    } else {
        lemma_multiset_commutative(seq![e], s);
        assert(seq![e].to_multiset() =~= Multiset::<KeyPos>::empty().insert(e)) by {
            assert(seq![e] =~= Seq::<KeyPos>::empty().push(e));
            Seq::<KeyPos>::empty().to_multiset_ensures();
        }
        assert(insert_sorted(e, s).to_multiset() =~= s.to_multiset().insert(e));
    }
}

/// The order is reflexive.
pub proof fn lemma_lex_refl(a: Seq<u8>)
    ensures
        lex_le(a, a),
    decreases a.len(),
{
    if a.len() > 0 {
        lemma_lex_refl(a.drop_first());
    }
}

/// Entry positions strictly increase along the sequence.
pub open spec fn positions_increasing(s: Seq<KeyPos>) -> bool {
    forall|i: int, j: int| #![trigger s[i], s[j]] 0 <= i < j < s.len() ==> s[i].1 < s[j].1
}

/// Among pairs with equal keys the first-seen one stays first: its entry
/// position is the smaller.
pub open spec fn stable_by_position(s: Seq<KeyPos>) -> bool {
    forall|i: int, j: int| #![trigger s[i], s[j]]
        0 <= i < j < s.len() && s[i].0 == s[j].0 ==> s[i].1 < s[j].1
}

/// Every entry position lies below the bound.
pub open spec fn positions_below(s: Seq<KeyPos>, p: int) -> bool {
    forall|i: int| 0 <= i < s.len() ==> (#[trigger] s[i]).1 < p
}

proof fn lemma_insert_sorted_below(e: KeyPos, s: Seq<KeyPos>, p: int)
    requires
        positions_below(s, p),
        e.1 < p,
    ensures
        positions_below(insert_sorted(e, s), p),
{
    let t = insert_sorted(e, s);
    assert forall|k: int| 0 <= k < t.len() implies (#[trigger] t[k]).1 < p by {
        lemma_insert_sorted_membership(e, s, k);
        if t[k] == e {
        } else {
            let m = choose|m: int| 0 <= m < s.len() && t[k] == s[m];
            assert(s[m].1 < p);
        }
    }
}

proof fn lemma_sort_pairs_below(s: Seq<KeyPos>, p: int)
    requires
        positions_below(s, p),
    ensures
        positions_below(sort_pairs(s), p),
    decreases s.len(),
{
    if s.len() > 0 {
        assert(positions_below(s.drop_last(), p)) by {
            assert(forall|i: int| 0 <= i < s.drop_last().len() ==> s.drop_last()[i] == s[i]);
        }
        lemma_sort_pairs_below(s.drop_last(), p);
        lemma_insert_sorted_below(s.last(), sort_pairs(s.drop_last()), p);
    }
}

proof fn lemma_insert_sorted_stable(e: KeyPos, s: Seq<KeyPos>)
    requires
        sorted_by_key(s),
        stable_by_position(s),
        positions_below(s, e.1),
    ensures
        stable_by_position(insert_sorted(e, s)),
    decreases s.len(),
{
    if s.len() == 0 {
    } else if lex_le(s[0].0, e.0) {
        let rest = insert_sorted(e, s.drop_first());
        assert(sorted_by_key(s.drop_first()) && stable_by_position(s.drop_first())
            && positions_below(s.drop_first(), e.1)) by {
            assert(forall|i: int| 0 <= i < s.drop_first().len() ==> s.drop_first()[i] == s[i + 1]);
        }
        lemma_insert_sorted_stable(e, s.drop_first());
        let t = seq![s[0]] + rest;
        assert forall|i: int, j: int|
            0 <= i < j < t.len() && t[i].0 == t[j].0 implies t[i].1 < t[j].1 by {
            if i == 0 {
                lemma_insert_sorted_membership(e, s.drop_first(), j - 1);
                if rest[j - 1] == e {
                    assert(s[0].1 < e.1);
                } else {
                    let m = choose|m: int|
                        0 <= m < s.drop_first().len() && rest[j - 1] == s.drop_first()[m];
                    assert(s.drop_first()[m] == s[m + 1]);
                    assert(s[0].1 < s[m + 1].1);
                }
            } else {
                assert(rest[i - 1].0 == rest[j - 1].0 && 0 <= i - 1 < j - 1 < rest.len());
            }
        }
    } else {
        let t = seq![e] + s;
        assert forall|i: int, j: int|
            0 <= i < j < t.len() && t[i].0 == t[j].0 implies t[i].1 < t[j].1 by {
            if i == 0 {
                // e's key strictly precedes every key in s, so no key in s
                // equals it
                if j - 1 == 0 {
                    lemma_lex_refl(s[0].0);
                } else {
                    assert(lex_le(s[0].0, s[j - 1].0));
                }
            } else {
                assert(s[i - 1].0 == s[j - 1].0 && 0 <= i - 1 < j - 1 < s.len());
            }
        }
    }
}

/// The sort is stable: among pairs whose canonical keys are equal, the
/// emitted order is the first-seen order of their entries.
pub proof fn lemma_sort_pairs_stable(s: Seq<KeyPos>)
    requires
        positions_increasing(s),
    ensures
        stable_by_position(sort_pairs(s)),
    decreases s.len(),
{
    if s.len() > 0 {
        let front = s.drop_last();
        assert(positions_increasing(front) && positions_below(front, s.last().1)) by {
            assert(forall|i: int| 0 <= i < front.len() ==> front[i] == s[i]);
            assert(forall|i: int| 0 <= i < front.len() ==> (#[trigger] s[i]).1 < s[s.len() - 1].1);
        }
        lemma_sort_pairs_stable(front);
        lemma_sort_pairs_sorted(front);
        lemma_sort_pairs_below(front, s.last().1);
        lemma_insert_sorted_stable(s.last(), sort_pairs(front));
    }
}

/// The canonical keys and entry positions a key vector holds, at the
/// specification level.
pub open spec fn pairs_view(s: Seq<(Vec<u8>, usize)>) -> Seq<KeyPos> {
    Seq::new(s.len(), |i: int| (s[i].0@, s[i].1 as int))
}

/// Inserting before the first pair whose key does not precede the new
/// key's is what the insertion does.
proof fn lemma_insert_position(e: KeyPos, s: Seq<KeyPos>, j: int)
    requires
        0 <= j <= s.len(),
        forall|k: int| 0 <= k < j ==> lex_le(#[trigger] s[k].0, e.0),
        j < s.len() ==> !lex_le(s[j].0, e.0),
    ensures
        insert_sorted(e, s) == s.take(j) + seq![e] + s.skip(j),
    decreases j,
{
    if j == 0 {
        if s.len() == 0 {
            assert(insert_sorted(e, s) =~= s.take(0) + seq![e] + s.skip(0));
        } else {
            assert(insert_sorted(e, s) =~= s.take(0) + seq![e] + s.skip(0));
        }
    } else {
        assert(lex_le(s[0].0, e.0));
        lemma_insert_position(e, s.drop_first(), j - 1);
        assert(seq![s[0]] + (s.drop_first().take(j - 1) + seq![e] + s.drop_first().skip(j - 1))
            =~= s.take(j) + seq![e] + s.skip(j));
    }
}

/// Sorts the key vector by canonical key, stably: pairs with equal keys
/// keep their order, so the result is exactly the specification's stable
/// sort of the input pairs.
pub fn sort_items(items: &mut Vec<(Vec<u8>, usize)>)
    ensures
        pairs_view(final(items)@) == sort_pairs(pairs_view(old(items)@)),
{
    let ghost orig = items@;
    let mut out: Vec<(Vec<u8>, usize)> = Vec::new();
    while items.len() > 0
        invariant
            out@.len() + items@.len() == orig.len(),
            items@ == orig.skip(out@.len() as int),
            pairs_view(out@) == sort_pairs(pairs_view(orig.take(out@.len() as int))),
        decreases items@.len(),
    {
        let ghost c = out@.len() as int;
        let e = items.remove(0);
        proof {
            assert(e == orig[c]);
            assert(items@ =~= orig.skip(c + 1));
        }
        let ghost ep: KeyPos = (e.0@, e.1 as int);
        let mut j: usize = 0;
        while j < out.len() && lex_le_bytes(&out[j].0, &e.0)
            invariant
                j <= out@.len(),
                forall|k: int| 0 <= k < j ==> lex_le(#[trigger] pairs_view(out@)[k].0, e.0@),
            decreases out@.len() - j,
        {
            proof {
                assert(pairs_view(out@)[j as int].0 == out@[j as int].0@);
            }
            j = j + 1;
        }
        let ghost pre = out@;
        proof {
            if (j as int) < pairs_view(pre).len() {
                assert(pairs_view(pre)[j as int].0 == pre[j as int].0@);
            }
            lemma_insert_position(ep, pairs_view(pre), j as int);
        }
        out.insert(j, e);
        proof {
            assert(out@ == pre.insert(j as int, e));
            let target = pairs_view(pre).take(j as int) + seq![ep] + pairs_view(pre).skip(
                j as int,
            );
            assert(pairs_view(out@) =~= target) by {
                assert forall|i: int| 0 <= i < out@.len() implies pairs_view(out@)[i]
                    == target[i] by {
                    if i < j as int {
                        assert(out@[i] == pre[i]);
                    } else if i == j as int {
                        assert(out@[i] == e);
                    } else {
                        assert(out@[i] == pre[i - 1]);
                    }
                }
            }
            assert(pairs_view(out@) == insert_sorted(ep, pairs_view(pre)));
            let t = pairs_view(orig.take(c + 1));
            assert(t =~= pairs_view(orig.take(c)).push(ep)) by {
                assert(orig.take(c + 1) =~= orig.take(c).push(orig[c]));
            }
            assert(t.drop_last() =~= pairs_view(orig.take(c)));
            assert(t.last() == ep);
            assert(sort_pairs(t) == insert_sorted(ep, sort_pairs(pairs_view(orig.take(c)))));
        }
    }
    proof {
        assert(orig.take(out@.len() as int) =~= orig);
    }
    *items = out;
}

/// The sort is a permutation: no pair appears or disappears.
pub proof fn lemma_sort_pairs_multiset(s: Seq<KeyPos>)
    ensures
        sort_pairs(s).to_multiset() == s.to_multiset(),
    decreases s.len(),
{
    if s.len() > 0 {
        lemma_sort_pairs_multiset(s.drop_last());
        lemma_insert_sorted_multiset(s.last(), sort_pairs(s.drop_last()));
        s.drop_last().to_multiset_ensures();
        assert(s.drop_last().push(s.last()) =~= s);
    }
}

} // verus!
