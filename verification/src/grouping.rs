use vstd::prelude::*;
use std::collections::HashMap;
use std::hash::Hash;

verus! {

broadcast use vstd::std_specs::hash::group_hash_axioms;

/// The values of `items` whose key is `k`, in the order in which they occur.
pub open spec fn members<K, P>(items: Seq<(K, P)>, k: K) -> Seq<P>
    decreases items.len(),
{
    if items.len() == 0 {
        Seq::empty()
    } else {
        let rest = members(items.drop_last(), k);
        if items.last().0 == k {
            rest.push(items.last().1)
        } else {
            rest
        }
    }
}

/// `groups` holds, once each, every key that occurs at least `min` times in `items`,
/// each with all the values of `items` under that key, in their order, and no other key.
pub open spec fn groups_exactly<K, P>(items: Seq<(K, P)>, groups: Seq<(K, Vec<P>)>, min: nat) -> bool {
    &&& forall|i: int|
        0 <= i < groups.len() ==> #[trigger] groups[i].1@ == members(items, groups[i].0)
            && groups[i].1@.len() >= min
    &&& forall|i: int, j: int| 0 <= i < j < groups.len() ==> groups[i].0 != groups[j].0
    &&& forall|k: K|
        #[trigger] members(items, k).len() >= min ==> exists|i: int|
            0 <= i < groups.len() && groups[i].0 == k
}

proof fn lemma_members_push<K, P>(items: Seq<(K, P)>, x: (K, P), k: K)
    ensures
        members(items.push(x), k) == if x.0 == k {
            members(items, k).push(x.1)
        } else {
            members(items, k)
        },
{
    assert(items.push(x).drop_last() =~= items);
}

/// Groups `items` by key: one group per key that occurs, in the order of first occurrence.
fn group_by_key<K: Copy + Eq + Hash, P>(items: Vec<(K, P)>) -> (groups: Vec<(K, Vec<P>)>)
    requires
        vstd::std_specs::hash::obeys_key_model::<K>(),
    ensures
        groups_exactly(items@, groups@, 1),
{
    let ghost all = items@;
    let mut groups: Vec<(K, Vec<P>)> = Vec::new();
    let mut index: HashMap<K, usize> = HashMap::new();
    let mut n: usize = 0;
    assert(all.len() == items.len());
    for item in it: items.into_iter()
        invariant
            vstd::std_specs::hash::obeys_key_model::<K>(),
            it.seq() == all,
            n == it.index(),
            n <= all.len(),
            all.len() <= usize::MAX,
            groups_exactly(all.take(n as int), groups@, 1),
            forall|k: K| #[trigger] index@.contains_key(k) <==> exists|i: int|
                0 <= i < groups.len() && groups@[i].0 == k,
            forall|k: K| #[trigger] index@.contains_key(k) ==> index@[k] < groups.len()
                && groups@[index@[k] as int].0 == k,
    {
        let ghost prev = groups@;
        let (k, p) = item;
        assert(all.take(n + 1) =~= all.take(n as int).push((k, p)));
        proof {
            assert forall|k2: K| true implies members(all.take(n + 1), k2) == if k == k2 {
                members(all.take(n as int), k2).push(p)
            } else {
                members(all.take(n as int), k2)
            } by {
                lemma_members_push(all.take(n as int), (k, p), k2);
            }
        }
        match index.get(&k) {
            Some(pos) => {
                let pos = *pos;
                groups[pos].1.push(p);
                proof {
                    assert forall|k2: K| #[trigger] index@.contains_key(k2) <==> exists|i: int|
                        0 <= i < groups.len() && groups@[i].0 == k2 by {
                        if index@.contains_key(k2) {
                            let i = choose|i: int| 0 <= i < prev.len() && prev[i].0 == k2;
                            assert(groups@[i].0 == k2);
                        }
                        if exists|i: int| 0 <= i < groups.len() && groups@[i].0 == k2 {
                            let i = choose|i: int| 0 <= i < groups.len() && groups@[i].0 == k2;
                            assert(prev[i].0 == k2);
                        }
                    }
                    assert forall|i: int| 0 <= i < groups@.len() implies #[trigger] groups@[i].1@
                        == members(all.take(n + 1), groups@[i].0) && groups@[i].1@.len() >= 1 by {
                        if i != pos as int {
                            assert(prev[i].0 != prev[pos as int].0);
                        }
                    }
                    assert forall|k2: K| #[trigger] members(all.take(n + 1), k2).len() >= 1 implies exists|i: int|
                        0 <= i < groups@.len() && groups@[i].0 == k2 by {
                        if k2 == k {
                            assert(groups@[pos as int].0 == k2);
                        } else {
                            assert(members(all.take(n as int), k2).len() >= 1);
                            let i = choose|i: int| 0 <= i < prev.len() && prev[i].0 == k2;
                            assert(groups@[i].0 == k2);
                        }
                    }
                }
            },
            None => {
                let mut v = Vec::new();
                v.push(p);
                index.insert(k, groups.len());
                groups.push((k, v));
                proof {
                    assert(groups@ =~= prev.push((k, v)));
                    assert forall|k2: K| #[trigger] index@.contains_key(k2) <==> exists|i: int|
                        0 <= i < groups.len() && groups@[i].0 == k2 by {
                        if k2 == k {
                            assert(groups@[prev.len() as int].0 == k2);
                        } else {
                            if index@.contains_key(k2) {
                                let i = choose|i: int| 0 <= i < prev.len() && prev[i].0 == k2;
                                assert(groups@[i].0 == k2);
                            }
                            if exists|i: int| 0 <= i < groups.len() && groups@[i].0 == k2 {
                                let i = choose|i: int| 0 <= i < groups.len() && groups@[i].0 == k2;
                                assert(prev[i].0 == k2);
                            }
                        }
                    }
                    assert(members(all.take(n as int), k).len() == 0) by {
                        if members(all.take(n as int), k).len() >= 1 {
                            let i = choose|i: int| 0 <= i < prev.len() && prev[i].0 == k;
                            assert(index@.contains_key(prev[i].0));
                        }
                    }
                    assert forall|i: int| 0 <= i < groups@.len() implies #[trigger] groups@[i].1@
                        == members(all.take(n + 1), groups@[i].0) && groups@[i].1@.len() >= 1 by {
                        if i < prev.len() {
                            assert(prev[i].0 != k) by {
                                if prev[i].0 == k {
                                    assert(index@.contains_key(prev[i].0));
                                }
                            }
                        } else {
                            assert(v@ =~= Seq::<P>::empty().push(p));
                        }
                    }
                    assert forall|i: int, j: int| 0 <= i < j < groups@.len() implies groups@[i].0 != groups@[j].0 by {
                        if j == prev.len() {
                            if prev[i].0 == k {
                                assert(index@.contains_key(prev[i].0));
                            }
                        }
                    }
                    assert forall|k2: K| #[trigger] members(all.take(n + 1), k2).len() >= 1 implies exists|i: int|
                        0 <= i < groups@.len() && groups@[i].0 == k2 by {
                        if k2 == k {
                            assert(groups@[prev.len() as int].0 == k2);
                        } else {
                            assert(members(all.take(n as int), k2).len() >= 1);
                            let i = choose|i: int| 0 <= i < prev.len() && prev[i].0 == k2;
                            assert(groups@[i].0 == k2);
                        }
                    }
                }
            },
        }
        n = n + 1;
    }
    assert(all.take(n as int) =~= all);
    groups
}

/// Keeps the groups that hold at least two values, in their order.
fn retain_shared<K, P>(groups: Vec<(K, Vec<P>)>, Ghost(items): Ghost<Seq<(K, P)>>) -> (kept: Vec<(K, Vec<P>)>)
    requires
        groups_exactly(items, groups@, 1),
    ensures
        groups_exactly(items, kept@, 2),
{
    let ghost all = groups@;
    let mut kept: Vec<(K, Vec<P>)> = Vec::new();
    let ghost mut origin: Seq<int> = Seq::empty();
    let mut n: usize = 0;
    assert(all.len() == groups.len());
    for g in it: groups.into_iter()
        invariant
            it.seq() == all,
            n == it.index(),
            n <= all.len(),
            all.len() <= usize::MAX,
            groups_exactly(items, all, 1),
            origin.len() == kept@.len(),
            forall|t: int| 0 <= t < origin.len() ==> 0 <= #[trigger] origin[t] < n
                && kept@[t] == all[origin[t]] && all[origin[t]].1@.len() >= 2,
            forall|t: int, u: int| 0 <= t < u < origin.len() ==> origin[t] < origin[u],
            forall|j: int| 0 <= j < n && #[trigger] all[j].1@.len() >= 2 ==> exists|t: int|
                0 <= t < origin.len() && origin[t] == j,
    {
        let ghost prev_origin = origin;
        if g.1.len() >= 2 {
            kept.push(g);
            proof {
                origin = origin.push(n as int);
            }
        }
        proof {
            assert forall|j: int| 0 <= j < n + 1 && #[trigger] all[j].1@.len() >= 2 implies exists|t: int|
                0 <= t < origin.len() && origin[t] == j by {
                if j == n as int {
                    assert(origin[origin.len() - 1] == j);
                } else {
                    let t = choose|t: int| 0 <= t < prev_origin.len() && prev_origin[t] == j;
                    assert(origin[t] == j);
                }
            }
        }
        n = n + 1;
    }
    proof {
        assert forall|t: int| 0 <= t < kept@.len() implies #[trigger] kept@[t].1@
            == members(items, kept@[t].0) && kept@[t].1@.len() >= 2 by {
            assert(all[origin[t]].1@ == members(items, all[origin[t]].0));
        }
        assert forall|i: int, j: int| 0 <= i < j < kept@.len() implies kept@[i].0 != kept@[j].0 by {
            assert(origin[i] < origin[j]);
        }
        assert forall|k: K| #[trigger] members(items, k).len() >= 2 implies exists|i: int|
            0 <= i < kept@.len() && kept@[i].0 == k by {
            let j = choose|j: int| 0 <= j < all.len() && all[j].0 == k;
            assert(all[j].1@.len() >= 2);
            let t = choose|t: int| 0 <= t < origin.len() && origin[t] == j;
            assert(kept@[t].0 == k);
        }
    }
    kept
}

/// The pairs `(key, value)` of the entries of `entries` whose key is known, in order.
pub open spec fn known_keys<K, P>(entries: Seq<(P, Option<K>)>) -> Seq<(K, P)>
    decreases entries.len(),
{
    if entries.len() == 0 {
        Seq::empty()
    } else {
        let rest = known_keys(entries.drop_last());
        match entries.last().1 {
            Some(k) => rest.push((k, entries.last().0)),
            None => rest,
        }
    }
}

/// Drops the entries whose key is unknown and puts the key first.
fn collect_known<K, P>(entries: Vec<(P, Option<K>)>) -> (items: Vec<(K, P)>)
    ensures
        items@ == known_keys(entries@),
{
    let ghost all = entries@;
    let mut items: Vec<(K, P)> = Vec::new();
    let mut n: usize = 0;
    assert(all.len() == entries.len());
    for e in it: entries.into_iter()
        invariant
            it.seq() == all,
            n == it.index(),
            n <= all.len(),
            all.len() <= usize::MAX,
            items@ == known_keys(all.take(n as int)),
    {
        assert(all.take(n + 1).drop_last() =~= all.take(n as int));
        let (p, key) = e;
        match key {
            Some(k) => {
                items.push((k, p));
            },
            None => {},
        }
        n = n + 1;
    }
    assert(all.take(n as int) =~= all);
    items
}

/// Groups files by size, keeping only the sizes that at least two files share.
///
/// Each entry of `files` is a file and its size in bytes, or `None` where the size could not
/// be read; such a file is left out. Each group holds the files of one size in their order.
pub fn group_files_by_size<P>(files: Vec<(P, Option<u64>)>) -> (groups: Vec<(u64, Vec<P>)>)
    ensures
        groups_exactly(known_keys(files@), groups@, 2),
{
    let items = collect_known(files);
    let all = group_by_key(items);
    retain_shared(all, Ghost(known_keys(files@)))
}

/// Groups files by their full MD5 digest, keeping only the digests that at least two files
/// share.
///
/// Each entry of `hashed` is a file and its digest, or `None` where it could not be hashed;
/// such a file is left out. Each group holds the files of one digest in their order.
pub fn group_files_by_full_hash<P>(hashed: Vec<(P, Option<u128>)>) -> (groups: Vec<(u128, Vec<P>)>)
    ensures
        groups_exactly(known_keys(hashed@), groups@, 2),
{
    let items = collect_known(hashed);
    let all = group_by_key(items);
    retain_shared(all, Ghost(known_keys(hashed@)))
}

/// The entries of `items`, each tagged with the size `s`.
pub open spec fn with_size<P>(s: u64, items: Seq<(u128, P)>) -> Seq<(u64, (u128, P))> {
    items.map_values(|x: (u128, P)| (s, x))
}

/// The hashed files of the size groups `groups`, each tagged with its group's size, in order.
pub open spec fn size_tagged<P>(groups: Seq<(u64, Vec<(P, Option<u128>)>)>) -> Seq<(u64, (u128, P))>
    decreases groups.len(),
{
    if groups.len() == 0 {
        Seq::empty()
    } else {
        size_tagged(groups.drop_last()) + with_size(groups.last().0, known_keys(groups.last().1@))
    }
}

/// A file keyed by its size and partial digest.
pub open spec fn size_and_digest<P>(x: (u64, (u128, P))) -> ((u64, u128), P) {
    ((x.0, x.1.0), x.1.1)
}

/// The files of the size groups `groups` whose partial digest is known, each keyed by its
/// group's size and its partial digest, in order.
pub open spec fn partial_items<P>(groups: Seq<(u64, Vec<(P, Option<u128>)>)>) -> Seq<((u64, u128), P)> {
    size_tagged(groups).map_values(|x: (u64, (u128, P))| size_and_digest(x))
}

proof fn lemma_members_nested<P>(flat: Seq<(u64, (u128, P))>, s: u64, d: u128)
    ensures
        members(flat.map_values(|x: (u64, (u128, P))| size_and_digest(x)), (s, d))
            == members(members(flat, s), d),
    decreases flat.len(),
{
    if flat.len() > 0 {
        let f = |x: (u64, (u128, P))| size_and_digest(x);
        assert(flat.map_values(f).drop_last() =~= flat.drop_last().map_values(f));
        lemma_members_nested(flat.drop_last(), s, d);
        if flat.last().0 == s {
            lemma_members_push(members(flat.drop_last(), s), flat.last().1, d);
        }
    }
}

/// Groups files by size and partial MD5 digest.
///
/// `by_size` holds groups of files of one size; each file comes with its partial digest, or
/// `None` where it could not be hashed, in which case it is left out. The result holds one
/// group for each pair of size and partial digest that occurs, with its files in their order.
pub fn group_files_by_partial_hash<P>(by_size: Vec<(u64, Vec<(P, Option<u128>)>)>) -> (groups: Vec<((u64, u128), Vec<P>)>)
    ensures
        groups_exactly(partial_items(by_size@), groups@, 1),
{
    let ghost all = by_size@;
    let mut flat: Vec<(u64, (u128, P))> = Vec::new();
    let mut n: usize = 0;
    assert(all.len() == by_size.len());
    for g in it: by_size.into_iter()
        invariant
            it.seq() == all,
            n == it.index(),
            n <= all.len(),
            all.len() <= usize::MAX,
            flat@ == size_tagged(all.take(n as int)),
    {
        assert(all.take(n + 1).drop_last() =~= all.take(n as int));
        let (s, entries) = g;
        let known = collect_known(entries);
        let ghost base = flat@;
        let ghost kn = known@;
        let mut m: usize = 0;
        assert(kn.len() == known.len());
        for x in jt: known.into_iter()
            invariant
                jt.seq() == kn,
                m == jt.index(),
                m <= kn.len(),
                kn.len() <= usize::MAX,
                flat@ == base + with_size(s, kn.take(m as int)),
        {
            flat.push((s, x));
            assert(with_size(s, kn.take(m + 1)) =~= with_size(s, kn.take(m as int)).push((s, x)));
            assert(flat@ =~= base + with_size(s, kn.take(m + 1)));
            m = m + 1;
        }
        assert(kn.take(m as int) =~= kn);
        n = n + 1;
    }
    assert(all.take(n as int) =~= all);
    let ghost fl = flat@;
    let ghost items = partial_items(all);
    assert(items == fl.map_values(|x: (u64, (u128, P))| size_and_digest(x)));
    let sized = group_by_key(flat);
    let ghost sz = sized@;
    let mut groups: Vec<((u64, u128), Vec<P>)> = Vec::new();
    let mut n: usize = 0;
    assert(sz.len() == sized.len());
    for g in it: sized.into_iter()
        invariant
            it.seq() == sz,
            n == it.index(),
            n <= sz.len(),
            sz.len() <= usize::MAX,
            groups_exactly(fl, sz, 1),
            items == fl.map_values(|x: (u64, (u128, P))| size_and_digest(x)),
            forall|t: int| 0 <= t < groups@.len() ==> #[trigger] groups@[t].1@
                == members(items, groups@[t].0) && groups@[t].1@.len() >= 1,
            forall|t: int, u: int| 0 <= t < u < groups@.len() ==> groups@[t].0 != groups@[u].0,
            forall|t: int| 0 <= t < groups@.len() ==> exists|i: int|
                0 <= i < n && sz[i].0 == (#[trigger] groups@[t].0).0,
            forall|i: int, d: u128| 0 <= i < n && #[trigger] members(items, (sz[i].0, d)).len() >= 1
                ==> exists|t: int| 0 <= t < groups@.len() && groups@[t].0 == (sz[i].0, d),
    {
        let (s, sub) = g;
        let ghost cur = n as int;
        assert(sz[cur].1@ == members(fl, sz[cur].0));
        let subs = group_by_key(sub);
        let ghost sb = subs@;
        let ghost before = groups@;
        let mut m: usize = 0;
        assert(sb.len() == subs.len());
        for h in jt: subs.into_iter()
            invariant
                jt.seq() == sb,
                m == jt.index(),
                m <= sb.len(),
                sb.len() <= usize::MAX,
                groups_exactly(fl, sz, 1),
                s == sz[cur].0,
                0 <= cur < sz.len(),
                groups_exactly(members(fl, s), sb, 1),
                items == fl.map_values(|x: (u64, (u128, P))| size_and_digest(x)),
                forall|t: int| 0 <= t < groups@.len() ==> #[trigger] groups@[t].1@
                    == members(items, groups@[t].0) && groups@[t].1@.len() >= 1,
                forall|t: int, u: int| 0 <= t < u < groups@.len() ==> groups@[t].0 != groups@[u].0,
                forall|t: int| 0 <= t < groups@.len() ==> (exists|i: int|
                    0 <= i < cur && sz[i].0 == (#[trigger] groups@[t].0).0) || ((groups@[t].0).0 == s
                    && exists|j: int| 0 <= j < m && sb[j].0 == (groups@[t].0).1),
                forall|i: int, d: u128| 0 <= i < cur && #[trigger] members(items, (sz[i].0, d)).len() >= 1
                    ==> exists|t: int| 0 <= t < groups@.len() && groups@[t].0 == (sz[i].0, d),
                forall|j: int| 0 <= j < m ==> exists|t: int| 0 <= t < groups@.len() && groups@[t].0 == (s, #[trigger] sb[j].0),
        {
            let (d, paths) = h;
            let ghost prev = groups@;
            proof {
                lemma_members_nested(fl, s, d);
                assert(sb[m as int].1@ == members(members(fl, s), sb[m as int].0));
            }
            groups.push(((s, d), paths));
            proof {
                assert forall|t: int| 0 <= t < prev.len() implies prev[t].0 != (s, d) by {
                    if exists|i: int| 0 <= i < cur && sz[i].0 == prev[t].0.0 {
                        let i = choose|i: int| 0 <= i < cur && sz[i].0 == prev[t].0.0;
                        assert(sz[i].0 != sz[cur].0);
                    } else {
                        let j = choose|j: int| 0 <= j < m && sb[j].0 == prev[t].0.1;
                        assert(sb[j].0 != sb[m as int].0);
                    }
                }
                assert forall|t: int| 0 <= t < groups@.len() implies (exists|i: int|
                    0 <= i < cur && sz[i].0 == (#[trigger] groups@[t].0).0) || ((groups@[t].0).0 == s
                    && exists|j: int| 0 <= j < m + 1 && sb[j].0 == (groups@[t].0).1) by {
                    if t == prev.len() {
                        assert(sb[m as int].0 == (groups@[t].0).1);
                    } else {
                        assert(groups@[t] == prev[t]);
                    }
                }
                assert forall|i: int, d2: u128| 0 <= i < cur && #[trigger] members(items, (sz[i].0, d2)).len() >= 1
                    implies exists|t: int| 0 <= t < groups@.len() && groups@[t].0 == (sz[i].0, d2) by {
                    let t = choose|t: int| 0 <= t < prev.len() && prev[t].0 == (sz[i].0, d2);
                    assert(groups@[t] == prev[t]);
                }
                assert forall|j: int| 0 <= j < m + 1 implies exists|t: int| 0 <= t < groups@.len() && groups@[t].0 == (s, #[trigger] sb[j].0) by {
                    if j == m as int {
                        assert(groups@[prev.len() as int].0 == (s, sb[j].0));
                    } else {
                        let t = choose|t: int| 0 <= t < prev.len() && prev[t].0 == (s, sb[j].0);
                        assert(groups@[t] == prev[t]);
                    }
                }
            }
            m = m + 1;
        }
        proof {
            assert forall|t: int| 0 <= t < groups@.len() implies exists|i: int|
                0 <= i < cur + 1 && sz[i].0 == (#[trigger] groups@[t].0).0 by {
                if !(exists|i: int| 0 <= i < cur && sz[i].0 == groups@[t].0.0) {
                    assert(sz[cur].0 == groups@[t].0.0);
                }
            }
            assert forall|i: int, d: u128| 0 <= i < cur + 1 && #[trigger] members(items, (sz[i].0, d)).len() >= 1
                implies exists|t: int| 0 <= t < groups@.len() && groups@[t].0 == (sz[i].0, d) by {
                if i == cur {
                    lemma_members_nested(fl, s, d);
                    assert(members(members(fl, s), d).len() >= 1);
                    let j = choose|j: int| 0 <= j < sb.len() && sb[j].0 == d;
                    assert(sb[j].0 == d);
                }
            }
        }
        n = n + 1;
    }
    proof {
        assert forall|k: (u64, u128)| #[trigger] members(items, k).len() >= 1 implies exists|t: int|
            0 <= t < groups@.len() && groups@[t].0 == k by {
            lemma_members_nested(fl, k.0, k.1);
            assert(members(fl, k.0).len() >= 1) by {
                if members(fl, k.0).len() == 0 {
                    assert(members(members(fl, k.0), k.1) =~= Seq::<P>::empty()) by {
                        reveal_with_fuel(members, 1);
                    }
                }
            }
            let i = choose|i: int| 0 <= i < sz.len() && sz[i].0 == k.0;
            assert(members(items, (sz[i].0, k.1)).len() >= 1);
        }
    }
    groups
}

/// The files of the groups that hold at least two files, group after group, in order.
pub open spec fn shared_files<K, P>(groups: Seq<(K, Vec<P>)>) -> Seq<P>
    decreases groups.len(),
{
    if groups.len() == 0 {
        Seq::empty()
    } else {
        shared_files(groups.drop_last()) + if groups.last().1@.len() >= 2 {
            groups.last().1@
        } else {
            Seq::empty()
        }
    }
}

/// The files whose full digest must be computed: those of the groups that hold at least two
/// files, group after group. A file alone in its group cannot have a duplicate.
pub fn full_hash_candidates<K, P>(groups: Vec<(K, Vec<P>)>) -> (files: Vec<P>)
    ensures
        files@ == shared_files(groups@),
{
    let ghost all = groups@;
    let mut files: Vec<P> = Vec::new();
    let mut n: usize = 0;
    assert(all.len() == groups.len());
    for g in it: groups.into_iter()
        invariant
            it.seq() == all,
            n == it.index(),
            n <= all.len(),
            all.len() <= usize::MAX,
            files@ == shared_files(all.take(n as int)),
    {
        assert(all.take(n + 1).drop_last() =~= all.take(n as int));
        let (_key, mut paths) = g;
        if paths.len() >= 2 {
            files.append(&mut paths);
        } else {
            assert(files@ =~= files@ + Seq::<P>::empty());
        }
        n = n + 1;
    }
    assert(all.take(n as int) =~= all);
    files
}

proof fn lemma_shared_files_contains<K, P>(groups: Seq<(K, Vec<P>)>, p: P)
    ensures
        shared_files(groups).contains(p) <==> exists|i: int|
            0 <= i < groups.len() && groups[i].1@.len() >= 2 && #[trigger] groups[i].1@.contains(p),
    decreases groups.len(),
{
    if groups.len() > 0 {
        let last = groups.last().1@;
        let rest = shared_files(groups.drop_last());
        lemma_shared_files_contains(groups.drop_last(), p);
        let tail = if last.len() >= 2 { last } else { Seq::<P>::empty() };
        if shared_files(groups).contains(p) {
            let t = choose|t: int| 0 <= t < shared_files(groups).len() && shared_files(groups)[t] == p;
            if t < rest.len() {
                assert(rest[t] == p);
                let i = choose|i: int| 0 <= i < groups.len() - 1 && groups.drop_last()[i].1@.len() >= 2
                    && #[trigger] groups.drop_last()[i].1@.contains(p);
                assert(groups[i] == groups.drop_last()[i]);
            } else {
                assert(tail[t - rest.len()] == p);
                assert(groups[groups.len() - 1].1@.contains(p));
            }
        }
        if exists|i: int| 0 <= i < groups.len() && groups[i].1@.len() >= 2 && #[trigger] groups[i].1@.contains(p) {
            let i = choose|i: int| 0 <= i < groups.len() && groups[i].1@.len() >= 2 && #[trigger] groups[i].1@.contains(p);
            if i < groups.len() - 1 {
                assert(groups.drop_last()[i] == groups[i]);
                assert(rest.contains(p));
                let t = choose|t: int| 0 <= t < rest.len() && rest[t] == p;
                assert(shared_files(groups)[t] == p);
            } else {
                let t = choose|t: int| 0 <= t < last.len() && last[t] == p;
                assert(shared_files(groups)[rest.len() + t] == p);
            }
        }
    }
}

/// Law: when `groups` groups `items` by key, the files chosen for full hashing are exactly the
/// files whose key (size and partial digest) at least one other file shares.
pub proof fn law_candidates_are_files_with_shared_key<K, P>(items: Seq<(K, P)>, groups: Seq<(K, Vec<P>)>, p: P)
    requires
        groups_exactly(items, groups, 1),
    ensures
        shared_files(groups).contains(p) <==> exists|k: K|
            #[trigger] members(items, k).len() >= 2 && members(items, k).contains(p),
{
    lemma_shared_files_contains(groups, p);
    if shared_files(groups).contains(p) {
        let i = choose|i: int| 0 <= i < groups.len() && groups[i].1@.len() >= 2 && #[trigger] groups[i].1@.contains(p);
        assert(groups[i].1@ == members(items, groups[i].0));
        assert(members(items, groups[i].0).len() >= 2);
    }
    if exists|k: K| #[trigger] members(items, k).len() >= 2 && members(items, k).contains(p) {
        let k = choose|k: K| #[trigger] members(items, k).len() >= 2 && members(items, k).contains(p);
        let i = choose|i: int| 0 <= i < groups.len() && groups[i].0 == k;
        assert(groups[i].1@ == members(items, groups[i].0));
        assert(groups[i].1@.contains(p));
    }
}

proof fn lemma_members_holds<K, P>(items: Seq<(K, P)>, a: int)
    requires
        0 <= a < items.len(),
    ensures
        members(items, items[a].0).contains(items[a].1),
    decreases items.len(),
{
    let k = items[a].0;
    if a == items.len() - 1 {
        assert(members(items, k).last() == items[a].1);
    } else {
        assert(items.drop_last()[a] == items[a]);
        lemma_members_holds(items.drop_last(), a);
        let m = members(items.drop_last(), k);
        let t = choose|t: int| 0 <= t < m.len() && m[t] == items[a].1;
        if items.last().0 == k {
            assert(members(items, k)[t] == items[a].1);
        }
    }
}

proof fn lemma_members_two<K, P>(items: Seq<(K, P)>, a: int, b: int)
    requires
        0 <= a < b < items.len(),
        items[a].0 == items[b].0,
    ensures
        members(items, items[a].0).len() >= 2,
    decreases items.len(),
{
    let k = items[a].0;
    assert(items.drop_last()[a] == items[a]);
    if b == items.len() - 1 {
        lemma_members_holds(items.drop_last(), a);
    } else {
        assert(items.drop_last()[b] == items[b]);
        lemma_members_two(items.drop_last(), a, b);
    }
}

proof fn lemma_members_only<K, P>(items: Seq<(K, P)>, k: K, p: P)
    requires
        members(items, k).contains(p),
    ensures
        items.contains((k, p)),
    decreases items.len(),
{
    let m = members(items, k);
    let t = choose|t: int| 0 <= t < m.len() && m[t] == p;
    let rest = members(items.drop_last(), k);
    if t < rest.len() {
        assert(rest[t] == p);
        lemma_members_only(items.drop_last(), k, p);
        let u = choose|u: int| 0 <= u < items.len() - 1 && items.drop_last()[u] == (k, p);
        assert(items[u] == (k, p));
    } else {
        assert(items[items.len() - 1] == (k, p));
    }
}

/// Law: every value in a group has that group's key (a file grouped under a size has that
/// size; a file grouped under a digest has that digest).
pub proof fn law_group_members_have_its_key<K, P>(items: Seq<(K, P)>, groups: Seq<(K, Vec<P>)>, min: nat, g: int, p: P)
    requires
        groups_exactly(items, groups, min),
        0 <= g < groups.len(),
        groups[g].1@.contains(p),
    ensures
        items.contains((groups[g].0, p)),
{
    assert(groups[g].1@ == members(items, groups[g].0));
    lemma_members_only(items, groups[g].0, p);
}

/// Law: two entries with the same key always end up together in one group, when groups of
/// at least two are kept (two files of one size, or of one digest, are reported together).
pub proof fn law_equal_keys_share_a_group<K, P>(items: Seq<(K, P)>, groups: Seq<(K, Vec<P>)>, a: int, b: int)
    requires
        groups_exactly(items, groups, 2),
        0 <= a < b < items.len(),
        items[a].0 == items[b].0,
    ensures
        exists|g: int|
            0 <= g < groups.len() && groups[g].0 == items[a].0 && #[trigger] groups[g].1@.contains(items[a].1)
                && groups[g].1@.contains(items[b].1),
{
    let k = items[a].0;
    lemma_members_two(items, a, b);
    let g = choose|g: int| 0 <= g < groups.len() && groups[g].0 == k;
    assert(groups[g].1@ == members(items, groups[g].0));
    lemma_members_holds(items, a);
    lemma_members_holds(items, b);
}

proof fn lemma_known_keys_len<K, P>(e: Seq<(P, Option<K>)>)
    ensures
        known_keys(e).len() == e.filter(|x: (P, Option<K>)| x.1 is Some).len(),
    decreases e.len(),
{
    reveal_with_fuel(Seq::filter, 1);
    if e.len() > 0 {
        lemma_known_keys_len(e.drop_last());
    }
}

proof fn lemma_known_keys_contains<K, P>(e: Seq<(P, Option<K>)>, p: P, k: K)
    ensures
        e.contains((p, Some(k))) <==> known_keys(e).contains((k, p)),
    decreases e.len(),
{
    if e.len() > 0 {
        let rest = e.drop_last();
        lemma_known_keys_contains(rest, p, k);
        let kr = known_keys(rest);
        if e.contains((p, Some(k))) {
            let i = choose|i: int| 0 <= i < e.len() && e[i] == (p, Some(k));
            if i < e.len() - 1 {
                assert(rest[i] == e[i]);
                let t = choose|t: int| 0 <= t < kr.len() && kr[t] == (k, p);
                assert(known_keys(e)[t] == (k, p));
            } else {
                assert(known_keys(e) == kr.push((k, p)));
                assert(known_keys(e)[kr.len() as int] == (k, p));
            }
        }
        if known_keys(e).contains((k, p)) {
            let t = choose|t: int| 0 <= t < known_keys(e).len() && known_keys(e)[t] == (k, p);
            if t < kr.len() {
                assert(kr[t] == (k, p));
                let i = choose|i: int| 0 <= i < rest.len() && rest[i] == (p, Some(k));
                assert(e[i] == (p, Some(k)));
            } else {
                assert(e[e.len() - 1] == (p, Some(k)));
            }
        }
    }
}

/// Law: dropping the entries of unknown key keeps every other entry, wherever it stands: as
/// many pairs as entries with a known key, and a pair `(k, p)` exactly for each entry
/// `(p, Some(k))`.
pub proof fn law_known_keys_keeps_every_known_entry<K, P>(e: Seq<(P, Option<K>)>, p: P, k: K)
    ensures
        known_keys(e).len() == e.filter(|x: (P, Option<K>)| x.1 is Some).len(),
        e.contains((p, Some(k))) <==> known_keys(e).contains((k, p)),
{
    lemma_known_keys_len(e);
    lemma_known_keys_contains(e, p, k);
}

} // verus!
